use vstd::prelude::*;
use vstd::string::StringExecFns;

use crate::common::{contains_id, copy_ids, ids_without, lemma_ids_without_props, no_dups, pair_before_eq, remove_id};
use crate::errors::SocialError;
use crate::notifications::{notified, NotificationCenter, NotificationCenterView, NotificationType, NotificationView};
use crate::text::{is_blank, trim_of};
use crate::user_directory::UserDirectory;
use crate::{Timestamp, UserId};

verus! {

/// One comment under a post.
#[derive(Debug)]
pub struct Comment {
    pub id: u64,
    pub author: UserId,
    pub content: String,
    pub created_at: Timestamp,
}

/// Mathematical model of a comment.
#[verifier::ext_equal]
pub ghost struct CommentView {
    pub id: u64,
    pub author: UserId,
    pub content: Seq<char>,
    pub created_at: Timestamp,
}

impl View for Comment {
    type V = CommentView;

    open spec fn view(&self) -> CommentView {
        CommentView {
            id: self.id,
            author: self.author,
            content: self.content@,
            created_at: self.created_at,
        }
    }
}

impl Clone for Comment {
    fn clone(&self) -> (res: Self)
        ensures
            res@ == self@,
    {
        Comment {
            id: self.id,
            author: self.author,
            content: self.content.clone(),
            created_at: self.created_at,
        }
    }
}

/// One post: original content or a repost of an earlier post.
#[derive(Debug)]
pub struct Post {
    pub id: u64,
    pub author: UserId,
    pub content: String,
    pub image: Option<String>,
    pub video: Option<String>,
    pub created_at: Timestamp,
    pub likes: Vec<UserId>,
    pub comments: Vec<Comment>,
    pub repost_of: Option<u64>,
}

/// Mathematical model of a post.
#[verifier::ext_equal]
pub ghost struct PostView {
    pub id: u64,
    pub author: UserId,
    pub content: Seq<char>,
    pub image: Option<Seq<char>>,
    pub video: Option<Seq<char>>,
    pub created_at: Timestamp,
    pub likes: Seq<UserId>,
    pub comments: Seq<CommentView>,
    pub repost_of: Option<u64>,
}

/// The model of an optional piece of text.
pub open spec fn opt_text_view(o: Option<String>) -> Option<Seq<char>> {
    match o {
        Option::Some(s) => Option::Some(s@),
        Option::None => Option::None,
    }
}

/// The models of a sequence of comments.
pub open spec fn comment_views(s: Seq<Comment>) -> Seq<CommentView> {
    s.map_values(|c: Comment| c@)
}

impl View for Post {
    type V = PostView;

    open spec fn view(&self) -> PostView {
        PostView {
            id: self.id,
            author: self.author,
            content: self.content@,
            image: opt_text_view(self.image),
            video: opt_text_view(self.video),
            created_at: self.created_at,
            likes: self.likes@,
            comments: comment_views(self.comments@),
            repost_of: self.repost_of,
        }
    }
}

/// Copies a list of comments.
fn clone_comments(v: &Vec<Comment>) -> (r: Vec<Comment>)
    ensures
        comment_views(r@) == comment_views(v@),
{
    let mut r: Vec<Comment> = Vec::new();
    let n = v.len();
    proof {
        assert(v@.take(0) =~= Seq::<Comment>::empty());
        assert(comment_views(r@) =~= comment_views(v@.take(0)));
    }
    for i in 0..n
        invariant
            n == v.len(),
            comment_views(r@) =~= comment_views(v@.take(i as int)),
    {
        let c = v[i].clone();
        let ghost before = r@;
        r.push(c);
        proof {
            assert(comment_views(r@) =~= comment_views(before).push(c@));
            assert(comment_views(v@.take(i + 1)) =~= comment_views(v@.take(i as int)).push(
                v@[i as int]@,
            ));
        }
    }
    proof {
        assert(v@.take(n as int) =~= v@);
    }
    r
}

/// Copies an optional piece of text.
fn clone_opt_text(o: &Option<String>) -> (r: Option<String>)
    ensures
        opt_text_view(r) == opt_text_view(*o),
{
    match o {
        Option::Some(s) => Option::Some(s.clone()),
        Option::None => Option::None,
    }
}

impl Clone for Post {
    fn clone(&self) -> (res: Self)
        ensures
            res@ == self@,
    {
        Post {
            id: self.id,
            author: self.author,
            content: self.content.clone(),
            image: clone_opt_text(&self.image),
            video: clone_opt_text(&self.video),
            created_at: self.created_at,
            likes: copy_ids(&self.likes),
            comments: clone_comments(&self.comments),
            repost_of: self.repost_of,
        }
    }
}

/// The models of a sequence of post records.
pub open spec fn post_views(s: Seq<Post>) -> Seq<PostView> {
    s.map_values(|p: Post| p@)
}

/// `a` may stand no later than `b` in a post listing: newest creation time
/// first, and the higher id first among equal times.
pub open spec fn post_before_eq(a: PostView, b: PostView) -> bool {
    pair_before_eq(b.created_at, b.id, a.created_at, a.id)
}

/// Sorted as a post listing: newest first.
pub open spec fn posts_sorted(s: Seq<PostView>) -> bool {
    forall|i: int, j: int| 0 <= i < j < s.len() ==> post_before_eq(#[trigger] s[i], #[trigger] s[j])
}

/// The posts of one author, in store order.
pub open spec fn by_author(s: Seq<PostView>, author: UserId) -> Seq<PostView> {
    s.filter(|p: PostView| p.author == author)
}

/// Mathematical model of the post store: the posts in creation order, and
/// the counters that number posts and comments.
#[verifier::ext_equal]
pub ghost struct PostStoreView {
    pub posts: Seq<PostView>,
    pub post_counter: u64,
    pub comment_counter: u64,
}

impl PostStoreView {
    /// A post with this identifier exists.
    pub open spec fn has_post(self, id: u64) -> bool {
        exists|i: int| 0 <= i < self.posts.len() && (#[trigger] self.posts[i]).id == id
    }

    /// The position of the post with this identifier.
    pub open spec fn post_idx(self, id: u64) -> int {
        choose|i: int| 0 <= i < self.posts.len() && (#[trigger] self.posts[i]).id == id
    }

    /// The post with this identifier.
    pub open spec fn post(self, id: u64) -> PostView {
        self.posts[self.post_idx(id)]
    }

    /// This author already has a repost of this original.
    pub open spec fn has_repost(self, author: UserId, original: u64) -> bool {
        exists|i: int|
            0 <= i < self.posts.len() && (#[trigger] self.posts[i]).author == author
                && self.posts[i].repost_of == Option::Some(original)
    }

    /// Well-formed: posts stand in strictly increasing id order, ids stay
    /// within the counter, a repost points at an older post, nobody likes a
    /// post twice, comment identifiers are globally unique and within their
    /// counter, and each author reposts a given original at most once.
    pub open spec fn wf(self) -> bool {
        &&& forall|i: int, j: int|
            0 <= i < j < self.posts.len() ==> (#[trigger] self.posts[i]).id < (
            #[trigger] self.posts[j]).id
        &&& forall|i: int|
            0 <= i < self.posts.len() ==> 0 < (#[trigger] self.posts[i]).id <= self.post_counter
        &&& forall|i: int| 0 <= i < self.posts.len() ==> no_dups((#[trigger] self.posts[i]).likes)
        &&& forall|i: int|
            0 <= i < self.posts.len() ==> match (#[trigger] self.posts[i]).repost_of {
                Option::Some(r) => r < self.posts[i].id,
                Option::None => true,
            }
        &&& forall|i: int, ci: int|
            0 <= i < self.posts.len() && 0 <= ci < self.posts[i].comments.len() ==> 0 < (
            #[trigger] self.posts[i].comments[ci]).id <= self.comment_counter
        &&& forall|i: int, ci: int, j: int, cj: int|
            0 <= i < self.posts.len() && 0 <= ci < self.posts[i].comments.len() && 0 <= j
                < self.posts.len() && 0 <= cj < self.posts[j].comments.len() && (i != j || ci != cj)
                ==> (#[trigger] self.posts[i].comments[ci]).id != (
            #[trigger] self.posts[j].comments[cj]).id
        &&& forall|i: int, j: int|
            0 <= i < j < self.posts.len() && (#[trigger] self.posts[i]).author == (
            #[trigger] self.posts[j]).author ==> !(self.posts[i].repost_of is Some
                && self.posts[i].repost_of == self.posts[j].repost_of)
    }
}

/// Owns the posts, their comments and likes, and the counters.
pub struct PostStore {
    pub posts: Vec<Post>,
    pub post_counter: u64,
    pub comment_counter: u64,
}

impl View for PostStore {
    type V = PostStoreView;

    open spec fn view(&self) -> PostStoreView {
        PostStoreView {
            posts: post_views(self.posts@),
            post_counter: self.post_counter,
            comment_counter: self.comment_counter,
        }
    }
}

impl PostStore {
    /// A store with no posts and no identifiers handed out yet.
    pub fn new() -> (r: PostStore)
        ensures
            r@.wf(),
            r@.posts == Seq::<PostView>::empty(),
            r@.post_counter == 0,
            r@.comment_counter == 0,
    {
        let r = PostStore { posts: Vec::new(), post_counter: 0, comment_counter: 0 };
        proof {
            assert(r@.posts =~= Seq::<PostView>::empty());
        }
        r
    }

    /// Hands out the next post identifier.
    pub fn get_next_post_id(&mut self) -> (id: u64)
        requires
            old(self).post_counter < u64::MAX,
        ensures
            id == old(self)@.post_counter + 1,
            final(self)@.post_counter == id,
            final(self)@.posts == old(self)@.posts,
            final(self)@.comment_counter == old(self)@.comment_counter,
    {
        self.post_counter = self.post_counter + 1;
        self.post_counter
    }

    /// Hands out the next comment identifier.
    pub fn get_next_comment_id(&mut self) -> (id: u64)
        requires
            old(self).comment_counter < u64::MAX,
        ensures
            id == old(self)@.comment_counter + 1,
            final(self)@.comment_counter == id,
            final(self)@.posts == old(self)@.posts,
            final(self)@.post_counter == old(self)@.post_counter,
    {
        self.comment_counter = self.comment_counter + 1;
        self.comment_counter
    }

    /// The position of the post with this identifier, if it exists.
    fn find_post_index(&self, id: u64) -> (r: Option<usize>)
        ensures
            match r {
                Some(i) => i < self@.posts.len() && self@.posts[i as int].id == id,
                None => !self@.has_post(id),
            },
    {
        let n = self.posts.len();
        for i in 0..n
            invariant
                n == self.posts.len(),
                forall|k: int| 0 <= k < i ==> (#[trigger] self@.posts[k]).id != id,
        {
            if self.posts[i].id == id {
                return Some(i);
            }
        }
        None
    }

    /// Creates a fresh post. It must carry some content: text that is not
    /// all whitespace, or an image, or a video; and its author must be
    /// registered.
    pub fn create_post(
        &mut self,
        users: &UserDirectory,
        author: UserId,
        content: String,
        image: Option<String>,
        video: Option<String>,
        now: Timestamp,
    ) -> (r: Result<Post, SocialError>)
        requires
            old(self)@.wf(),
            old(self).post_counter < u64::MAX,
        ensures
            final(self)@.wf(),
            match r {
                Err(SocialError::EmptyContent) => trim_of(content@).len() == 0 && image is None
                    && video is None && final(self)@ == old(self)@,
                Err(SocialError::AuthorNotRegistered) => !(trim_of(content@).len() == 0
                    && image is None && video is None) && !users@.has_user(author) && final(self)@
                    == old(self)@,
                Ok(p) => !(trim_of(content@).len() == 0 && image is None && video is None)
                    && users@.has_user(author) && p@ == (PostView {
                    id: (old(self)@.post_counter + 1) as u64,
                    author,
                    content: content@,
                    image: opt_text_view(image),
                    video: opt_text_view(video),
                    created_at: now,
                    likes: Seq::<UserId>::empty(),
                    comments: Seq::<CommentView>::empty(),
                    repost_of: Option::None,
                }) && final(self)@.posts == old(self)@.posts.push(p@) && final(self)@.post_counter
                    == old(self)@.post_counter + 1 && final(self)@.comment_counter == old(self)@.comment_counter,
                _ => false,
            },
    {
        if is_blank(content.as_str()) && image.is_none() && video.is_none() {
            return Err(SocialError::EmptyContent);
        }
        if !users.contains_user(author) {
            return Err(SocialError::AuthorNotRegistered);
        }
        let id = self.get_next_post_id();
        let post = Post {
            id,
            author,
            content,
            image,
            video,
            created_at: now,
            likes: Vec::new(),
            comments: Vec::new(),
            repost_of: Option::None,
        };
        let stored = post.clone();
        self.posts.push(stored);
        proof {
            assert(self@.posts =~= old(self)@.posts.push(post@));
            assert(post@.comments =~= Seq::<CommentView>::empty());
            assert(post@.likes =~= Seq::<UserId>::empty());
            lemma_append_post_preserves_wf(old(self)@, self@, post@);
        }
        Ok(post)
    }

    /// Every post, newest first.
    pub fn get_all_posts(&self) -> (r: Vec<Post>)
        ensures
            post_views(r@).to_multiset() == self@.posts.to_multiset(),
            posts_sorted(post_views(r@)),
    {
        let mut all: Vec<Post> = Vec::new();
        let n = self.posts.len();
        proof {
            assert(self@.posts.take(0) =~= Seq::<PostView>::empty());
            assert(post_views(all@) =~= self@.posts.take(0));
        }
        for i in 0..n
            invariant
                n == self.posts.len(),
                post_views(all@) =~= self@.posts.take(i as int),
        {
            let c = self.posts[i].clone();
            let ghost before = all@;
            all.push(c);
            proof {
                assert(post_views(all@) =~= post_views(before).push(c@));
                assert(post_views(all@) =~= self@.posts.take(i + 1));
            }
        }
        proof {
            assert(self@.posts.take(n as int) =~= self@.posts);
        }
        sort_posts(all)
    }

    /// The posts of one author, newest first.
    pub fn get_user_posts(&self, author: UserId) -> (r: Vec<Post>)
        ensures
            post_views(r@).to_multiset() == by_author(self@.posts, author).to_multiset(),
            posts_sorted(post_views(r@)),
    {
        let mut picked: Vec<Post> = Vec::new();
        let n = self.posts.len();
        proof {
            reveal(Seq::filter);
            assert(self@.posts.take(0) =~= Seq::<PostView>::empty());
            assert(post_views(picked@) =~= by_author(self@.posts.take(0), author));
        }
        for i in 0..n
            invariant
                n == self.posts.len(),
                post_views(picked@) =~= by_author(self@.posts.take(i as int), author),
        {
            if self.posts[i].author == author {
                picked.push(self.posts[i].clone());
            }
            proof {
                reveal(Seq::filter);
                assert(self@.posts.take(i + 1).drop_last() =~= self@.posts.take(i as int));
                assert(self@.posts.take(i + 1).last() == self.posts@[i as int]@);
                assert(post_views(picked@) =~= by_author(self@.posts.take(i + 1), author));
            }
        }
        proof {
            assert(self@.posts.take(n as int) =~= self@.posts);
        }
        sort_posts(picked)
    }

    /// This author already has a repost of this original.
    fn find_repost(&self, author: UserId, original: u64) -> (r: bool)
        ensures
            r == self@.has_repost(author, original),
    {
        let n = self.posts.len();
        for k in 0..n
            invariant
                n == self.posts.len(),
                forall|t: int|
                    0 <= t < k ==> !((#[trigger] self@.posts[t]).author == author
                        && self@.posts[t].repost_of == Option::Some(original)),
        {
            if self.posts[k].author == author {
                if let Option::Some(r) = self.posts[k].repost_of {
                    if r == original {
                        proof {
                            assert((#[trigger] self@.posts[k as int]).author == author
                                && self@.posts[k as int].repost_of == Option::Some(original));
                        }
                        return true;
                    }
                }
            }
        }
        false
    }

    /// Toggles this account's like on a post: a first call records the like
    /// and tells the author, unless the actor is the author; a second call
    /// withdraws it without telling anyone.
    pub fn like_post(
        &mut self,
        nc: &mut NotificationCenter,
        actor: UserId,
        post_id: u64,
        now: Timestamp,
    ) -> (r: Result<Post, SocialError>)
        requires
            old(self)@.wf(),
            old(nc)@.wf(),
            old(nc).notification_counter < u64::MAX,
        ensures
            final(self)@.wf(),
            final(nc)@.wf(),
            like_outcome(
                old(self)@,
                final(self)@,
                old(nc)@,
                final(nc)@,
                actor,
                post_id,
                now,
                post_result_view(r),
            ),
    {
        let i = match self.find_post_index(post_id) {
            Some(i) => i,
            None => {
                return Err(SocialError::PostNotFound);
            },
        };
        proof {
            lemma_post_idx_found(self@, post_id, i as int);
        }
        let author = self.posts[i].author;
        if contains_id(&self.posts[i].likes, actor) {
            remove_id(&mut self.posts[i].likes, actor);
            let p = self.posts[i].clone();
            proof {
                assert(self@.posts =~= old(self)@.posts.update(i as int, p@));
                lemma_ids_without_props(old(self)@.posts[i as int].likes, actor);
                lemma_entry_change_preserves_wf(old(self)@, self@, i as int);
                assert(p@ =~= (PostView {
                    likes: ids_without(old(self)@.post(post_id).likes, actor),
                    ..old(self)@.post(post_id)
                }));
            }
            Ok(p)
        } else {
            self.posts[i].likes.push(actor);
            if author != actor {
                nc.add_notification_internal(
                    actor,
                    author,
                    NotificationType::Like,
                    ("liked your post").to_owned(),
                    now,
                );
            }
            let p = self.posts[i].clone();
            proof {
                assert(self@.posts =~= old(self)@.posts.update(i as int, p@));
                assert(no_dups(self@.posts[i as int].likes)) by {
                    let s = old(self)@.posts[i as int].likes;
                    assert forall|a: int, b: int|
                        0 <= a < b < s.push(actor).len() implies s.push(actor)[a] != s.push(
                        actor,
                    )[b] by {
                        if b == s.len() as int {
                            assert(s.contains(s[a]));
                        }
                    }
                }
                lemma_entry_change_preserves_wf(old(self)@, self@, i as int);
                assert(p@ =~= (PostView {
                    likes: old(self)@.post(post_id).likes.push(actor),
                    ..old(self)@.post(post_id)
                }));
            }
            Ok(p)
        }
    }

    /// Appends a comment to a post and tells the post's author, unless the
    /// commenter is the author.
    pub fn comment_post(
        &mut self,
        nc: &mut NotificationCenter,
        actor: UserId,
        post_id: u64,
        content: String,
        now: Timestamp,
    ) -> (r: Result<Comment, SocialError>)
        requires
            old(self)@.wf(),
            old(nc)@.wf(),
            old(self).comment_counter < u64::MAX,
            old(nc).notification_counter < u64::MAX,
        ensures
            final(self)@.wf(),
            final(nc)@.wf(),
            match r {
                Err(SocialError::EmptyContent) => trim_of(content@).len() == 0 && final(self)@
                    == old(self)@ && final(nc)@ == old(nc)@,
                Err(SocialError::PostNotFound) => trim_of(content@).len() != 0 && !old(self)@.has_post(post_id) && final(self)@ == old(self)@ && final(nc)@ == old(nc)@,
                Ok(c) => trim_of(content@).len() != 0 && old(self)@.has_post(post_id) && c@ == (
                CommentView {
                    id: (old(self)@.comment_counter + 1) as u64,
                    author: actor,
                    content: content@,
                    created_at: now,
                }) && final(self)@.posts == old(self)@.posts.update(
                    old(self)@.post_idx(post_id),
                    (PostView {
                        comments: old(self)@.post(post_id).comments.push(c@),
                        ..old(self)@.post(post_id)
                    }),
                ) && final(self)@.comment_counter == old(self)@.comment_counter + 1 && final(self)@.post_counter == old(self)@.post_counter && (if actor == old(self)@.post(
                    post_id,
                ).author {
                    final(nc)@ == old(nc)@
                } else {
                    notified(
                        old(nc)@,
                        final(nc)@,
                        actor,
                        old(self)@.post(post_id).author,
                        NotificationType::Comment,
                        comment_text(),
                        now,
                    )
                }),
                _ => false,
            },
    {
        if is_blank(content.as_str()) {
            return Err(SocialError::EmptyContent);
        }
        let i = match self.find_post_index(post_id) {
            Some(i) => i,
            None => {
                return Err(SocialError::PostNotFound);
            },
        };
        proof {
            lemma_post_idx_found(self@, post_id, i as int);
        }
        let author = self.posts[i].author;
        let id = self.get_next_comment_id();
        let comment = Comment { id, author: actor, content, created_at: now };
        let stored = comment.clone();
        self.posts[i].comments.push(stored);
        if author != actor {
            nc.add_notification_internal(
                actor,
                author,
                NotificationType::Comment,
                ("commented on your post").to_owned(),
                now,
            );
        }
        proof {
            assert(self@.posts[i as int].comments =~= old(self)@.posts[i as int].comments.push(
                comment@,
            ));
            assert(self@.posts =~= old(self)@.posts.update(
                i as int,
                (PostView {
                    comments: old(self)@.post(post_id).comments.push(comment@),
                    ..old(self)@.post(post_id)
                }),
            ));
            lemma_comment_append_preserves_wf(old(self)@, self@, i as int, comment@);
        }
        Ok(comment)
    }

    /// Creates a repost: a fresh post carrying the original's content and
    /// media and pointing back at it. Each account may repost a given post
    /// once; the original's author is told, unless reposting their own post.
    pub fn repost_post(
        &mut self,
        nc: &mut NotificationCenter,
        actor: UserId,
        post_id: u64,
        now: Timestamp,
    ) -> (r: Result<Post, SocialError>)
        requires
            old(self)@.wf(),
            old(nc)@.wf(),
            old(self).post_counter < u64::MAX,
            old(nc).notification_counter < u64::MAX,
        ensures
            final(self)@.wf(),
            final(nc)@.wf(),
            repost_outcome(
                old(self)@,
                final(self)@,
                old(nc)@,
                final(nc)@,
                actor,
                post_id,
                now,
                post_result_view(r),
            ),
    {
        let i = match self.find_post_index(post_id) {
            Some(i) => i,
            None => {
                return Err(SocialError::OriginalNotFound);
            },
        };
        proof {
            lemma_post_idx_found(self@, post_id, i as int);
        }
        if self.find_repost(actor, post_id) {
            return Err(SocialError::AlreadyReposted);
        }
        let orig_author = self.posts[i].author;
        let content = self.posts[i].content.clone();
        let image = clone_opt_text(&self.posts[i].image);
        let video = clone_opt_text(&self.posts[i].video);
        let id = self.get_next_post_id();
        let repost = Post {
            id,
            author: actor,
            content,
            image,
            video,
            created_at: now,
            likes: Vec::new(),
            comments: Vec::new(),
            repost_of: Option::Some(post_id),
        };
        let stored = repost.clone();
        self.posts.push(stored);
        if orig_author != actor {
            nc.add_notification_internal(
                actor,
                orig_author,
                NotificationType::Repost,
                ("reposted your post").to_owned(),
                now,
            );
        }
        proof {
            assert(self@.posts =~= old(self)@.posts.push(repost@));
            assert(repost@.comments =~= Seq::<CommentView>::empty());
            assert(repost@.likes =~= Seq::<UserId>::empty());
            lemma_append_post_preserves_wf(old(self)@, self@, repost@);
        }
        Ok(repost)
    }

    /// Deletes a post. Only its author may do so, and every repost whose
    /// chain of origin leads back to it goes with it.
    pub fn delete_post(&mut self, actor: UserId, post_id: u64) -> (r: Result<(), SocialError>)
        requires
            old(self)@.wf(),
        ensures
            final(self)@.wf(),
            match r {
                Err(SocialError::PostNotFound) => !old(self)@.has_post(post_id) && final(self)@
                    == old(self)@,
                Err(SocialError::Unauthorized) => old(self)@.has_post(post_id) && old(self)@.post(
                    post_id,
                ).author != actor && final(self)@ == old(self)@,
                Ok(()) => old(self)@.has_post(post_id) && old(self)@.post(post_id).author == actor
                    && final(self)@.posts == kept_after_delete(
                    old(self)@.posts,
                    old(self)@.posts,
                    post_id,
                ) && final(self)@.post_counter == old(self)@.post_counter && final(self)@.comment_counter == old(self)@.comment_counter,
                _ => false,
            },
    {
        let i = match self.find_post_index(post_id) {
            Some(i) => i,
            None => {
                return Err(SocialError::PostNotFound);
            },
        };
        proof {
            lemma_post_idx_found(self@, post_id, i as int);
        }
        if self.posts[i].author != actor {
            return Err(SocialError::Unauthorized);
        }
        let ghost all = self@.posts;
        let mut doomed: Vec<u64> = Vec::new();
        doomed.push(post_id);
        let mut kept: Vec<Post> = Vec::new();
        let n = self.posts.len();
        proof {
            reveal(Seq::filter);
            assert(all.take(0) =~= Seq::<PostView>::empty());
            assert forall|x: u64| doomed@.contains(x) implies doomed_ids(
                all.take(0),
                post_id,
            ).contains(x) by {
                let t = choose|t: int| 0 <= t < doomed@.len() && doomed@[t] == x;
                assert(doomed@[0] == post_id);
            }
            assert forall|x: u64| doomed_ids(all.take(0), post_id).contains(x) implies
                doomed@.contains(x) by {
                assert(x == post_id);
                assert(doomed@[0] == post_id);
            }
            assert(post_views(kept@) =~= kept_after_delete(all.take(0), all, post_id));
        }
        for k in 0..n
            invariant
                n == self.posts.len(),
                self@.posts == all,
                self@.wf(),
                forall|x: u64|
                    #![trigger doomed@.contains(x)]
                    #![trigger doomed_ids(all.take(k as int), post_id).contains(x)]
                    doomed@.contains(x) <==> doomed_ids(all.take(k as int), post_id).contains(x),
                post_views(kept@) =~= kept_after_delete(all.take(k as int), all, post_id),
                forall|a: int|
                    0 <= a < post_views(kept@).len() ==> exists|j: int|
                        0 <= j < k && #[trigger] post_views(kept@)[a] == all[j],
                forall|a: int, b: int|
                    0 <= a < b < post_views(kept@).len() ==> (#[trigger] post_views(kept@)[a]).id
                        < (#[trigger] post_views(kept@)[b]).id,
        {
            let ghost dpre = doomed_ids(all.take(k as int), post_id);
            let pid = self.posts[k].id;
            let pr = self.posts[k].repost_of;
            let mut drop_it = contains_id(&doomed, pid);
            let mut newly_doomed = false;
            if !drop_it {
                if let Option::Some(orig) = pr {
                    if contains_id(&doomed, orig) {
                        drop_it = true;
                        newly_doomed = true;
                    }
                }
            }
            let ghost dvec = doomed@;
            if newly_doomed {
                doomed.push(pid);
            }
            proof {
                lemma_doomed_step(all, post_id, k as int);
                assert(all.take(k as int + 1) == all.take(k + 1));
                assert forall|x: u64| #[trigger] doomed@.contains(x) implies doomed_ids(
                    all.take(k + 1),
                    post_id,
                ).contains(x) by {
                    if newly_doomed {
                        assert(doomed@ == dvec.push(pid));
                        let t = choose|t: int| 0 <= t < doomed@.len() && doomed@[t] == x;
                        if t < dvec.len() {
                            assert(dvec[t] == x);
                            assert(dvec.contains(x));
                            assert(dpre.contains(x));
                        } else {
                            assert(x == pid);
                            assert(all[k as int].id == pid);
                        }
                    } else {
                        assert(dvec.contains(x));
                        assert(dpre.contains(x));
                    }
                }
                assert forall|x: u64| #[trigger] doomed_ids(all.take(k + 1), post_id).contains(
                    x,
                ) implies doomed@.contains(x) by {
                    if dpre.contains(x) {
                        assert(dvec.contains(x));
                        if newly_doomed {
                            let t = choose|t: int| 0 <= t < dvec.len() && dvec[t] == x;
                            assert(doomed@[t] == x);
                        }
                    } else {
                        assert(x == all[k as int].id);
                        assert(x == pid);
                        assert(!dvec.contains(pid));
                        assert(newly_doomed);
                        assert(doomed@.last() == x);
                    }
                }
            }
            if !drop_it {
                let c = self.posts[k].clone();
                let ghost before = post_views(kept@);
                kept.push(c);
                proof {
                    assert(post_views(kept@) =~= before.push(c@));
                    assert(c@ == all[k as int]);
                    assert(!doomed_ids(all, post_id).contains(all[k as int].id)) by {
                        lemma_doomed_new_ids(all, post_id, k + 1, n as int);
                        assert(all.take(n as int) =~= all);
                        if doomed_ids(all, post_id).contains(all[k as int].id) {
                            let j = choose|j: int|
                                k + 1 <= j < n && (#[trigger] all[j]).id == all[k as int].id;
                            assert(all[k as int].id < all[j].id);
                        }
                    }
                    assert forall|a: int|
                        0 <= a < post_views(kept@).len() implies exists|j: int|
                            0 <= j < k + 1 && #[trigger] post_views(kept@)[a] == all[j] by {
                        if a < before.len() {
                            assert(post_views(kept@)[a] == before[a]);
                            let j = choose|j: int| 0 <= j < k && before[a] == all[j];
                            assert(post_views(kept@)[a] == all[j]);
                        } else {
                            assert(post_views(kept@)[a] == all[k as int]);
                        }
                    }
                    assert forall|a: int, b: int|
                        0 <= a < b < post_views(kept@).len() implies (
                    #[trigger] post_views(kept@)[a]).id < (#[trigger] post_views(
                        kept@,
                    )[b]).id by {
                        if b == post_views(kept@).len() - 1 {
                            assert(post_views(kept@)[a] == before[a]);
                            let j = choose|j: int| 0 <= j < k && before[a] == all[j];
                            assert(all[j].id < all[k as int].id);
                        } else {
                            assert(post_views(kept@)[a] == before[a]);
                            assert(post_views(kept@)[b] == before[b]);
                        }
                    }
                }
            } else {
                proof {
                    assert(doomed_ids(all, post_id).contains(all[k as int].id)) by {
                        lemma_doomed_monotone(all, post_id, k + 1, n as int);
                        assert(doomed_ids(all.take(k + 1), post_id).contains(all[k as int].id));
                        assert(all.take(n as int) =~= all);
                    }
                }
            }
            proof {
                reveal(Seq::filter);
                assert(all.take(k + 1).drop_last() =~= all.take(k as int));
                assert(all.take(k + 1).last() == all[k as int]);
                assert(post_views(kept@) =~= kept_after_delete(all.take(k + 1), all, post_id));
            }
        }
        self.posts = kept;
        proof {
            assert(all.take(n as int) =~= all);
            lemma_subset_posts_wf(old(self)@, self@);
        }
        Ok(())
    }

    /// Overwrites a post's content and media. Only its author may do so,
    /// and the result must still carry some content.
    pub fn edit_post(
        &mut self,
        actor: UserId,
        post_id: u64,
        content: String,
        image: Option<String>,
        video: Option<String>,
    ) -> (r: Result<Post, SocialError>)
        requires
            old(self)@.wf(),
        ensures
            final(self)@.wf(),
            match r {
                Err(SocialError::EmptyContent) => trim_of(content@).len() == 0 && image is None
                    && video is None && final(self)@ == old(self)@,
                Err(SocialError::PostNotFound) => !(trim_of(content@).len() == 0 && image is None
                    && video is None) && !old(self)@.has_post(post_id) && final(self)@ == old(self)@,
                Err(SocialError::Unauthorized) => !(trim_of(content@).len() == 0 && image is None
                    && video is None) && old(self)@.has_post(post_id) && old(self)@.post(
                    post_id,
                ).author != actor && final(self)@ == old(self)@,
                Ok(p) => !(trim_of(content@).len() == 0 && image is None && video is None) && old(self)@.has_post(post_id) && old(self)@.post(post_id).author == actor && p@ == (
                PostView {
                    content: content@,
                    image: opt_text_view(image),
                    video: opt_text_view(video),
                    ..old(self)@.post(post_id)
                }) && final(self)@.posts == old(self)@.posts.update(
                    old(self)@.post_idx(post_id),
                    p@,
                ) && final(self)@.post_counter == old(self)@.post_counter && final(self)@.comment_counter == old(self)@.comment_counter,
                _ => false,
            },
    {
        if is_blank(content.as_str()) && image.is_none() && video.is_none() {
            return Err(SocialError::EmptyContent);
        }
        let i = match self.find_post_index(post_id) {
            Some(i) => i,
            None => {
                return Err(SocialError::PostNotFound);
            },
        };
        proof {
            lemma_post_idx_found(self@, post_id, i as int);
        }
        if self.posts[i].author != actor {
            return Err(SocialError::Unauthorized);
        }
        self.posts[i].content = content;
        self.posts[i].image = image;
        self.posts[i].video = video;
        let p = self.posts[i].clone();
        proof {
            assert(self@.posts =~= old(self)@.posts.update(i as int, p@));
            lemma_entry_change_preserves_wf(old(self)@, self@, i as int);
            assert(p@ =~= (PostView {
                content: content@,
                image: opt_text_view(image),
                video: opt_text_view(video),
                ..old(self)@.post(post_id)
            }));
        }
        Ok(p)
    }
}

/// Sorts a batch of posts into listing order: newest creation time first,
/// higher id first among equal times.
pub(crate) fn sort_posts(v: Vec<Post>) -> (r: Vec<Post>)
    ensures
        post_views(r@).to_multiset() == post_views(v@).to_multiset(),
        posts_sorted(post_views(r@)),
{
    let mut out: Vec<Post> = Vec::new();
    let n = v.len();
    proof {
        assert(v@.take(0) =~= Seq::<Post>::empty());
        assert(post_views(out@) =~= post_views(v@.take(0)));
    }
    for i in 0..n
        invariant
            n == v.len(),
            post_views(out@).to_multiset() == post_views(v@.take(i as int)).to_multiset(),
            posts_sorted(post_views(out@)),
    {
        let x = v[i].clone();
        let mut j: usize = 0;
        while j < out.len() && (out[j].created_at > x.created_at || (out[j].created_at
            == x.created_at && out[j].id >= x.id))
            invariant
                j <= out.len(),
                forall|k: int| 0 <= k < j ==> post_before_eq(#[trigger] post_views(out@)[k], x@),
            decreases out.len() - j,
        {
            j += 1;
        }
        let ghost before = post_views(out@);
        out.insert(j, x);
        proof {
            broadcast use vstd::seq_lib::group_to_multiset_ensures;

            assert(post_views(out@) =~= before.insert(j as int, x@));
            assert(post_views(v@.take(i + 1)) =~= post_views(v@.take(i as int)).push(x@));
            assert forall|p: int, q: int|
                0 <= p < q < post_views(out@).len() implies post_before_eq(
                #[trigger] post_views(out@)[p],
                #[trigger] post_views(out@)[q],
            ) by {
                let nv = post_views(out@);
                if p < j && q == j {
                    assert(nv[p] == before[p]);
                } else if p == j && q > j {
                    assert(nv[q] == before[q - 1]);
                    assert(post_before_eq(x@, before[j as int]));
                    if q - 1 > j {
                        assert(post_before_eq(before[j as int], before[q - 1]));
                    }
                } else if p < j && q > j {
                    assert(nv[p] == before[p]);
                    assert(nv[q] == before[q - 1]);
                    assert(post_before_eq(before[p], x@));
                    assert(post_before_eq(x@, before[j as int]));
                } else if p > j && q > j {
                    assert(nv[p] == before[p - 1]);
                    assert(nv[q] == before[q - 1]);
                } else {
                    assert(nv[p] == before[p]);
                    assert(nv[q] == before[q]);
                }
            }
        }
    }
    proof {
        assert(v@.take(n as int) =~= v@);
    }
    out
}

/// The text of the notification a like triggers.
pub open spec fn like_text() -> Seq<char> {
    "liked your post"@
}

/// The text of the notification a comment triggers.
pub open spec fn comment_text() -> Seq<char> {
    "commented on your post"@
}

/// The text of the notification a repost triggers.
pub open spec fn repost_text() -> Seq<char> {
    "reposted your post"@
}

/// The model of a post operation's result.
pub open spec fn post_result_view(r: Result<Post, SocialError>) -> Result<PostView, SocialError> {
    match r {
        Ok(p) => Ok(p@),
        Err(e) => Err(e),
    }
}

/// Everything `like_post` may do, as a relation between the states before
/// and after the call.
pub open spec fn like_outcome(
    pre: PostStoreView,
    post: PostStoreView,
    npre: NotificationCenterView,
    npost: NotificationCenterView,
    actor: UserId,
    post_id: u64,
    now: Timestamp,
    r: Result<PostView, SocialError>,
) -> bool {
    match r {
        Err(SocialError::PostNotFound) => !pre.has_post(post_id) && post == pre && npost == npre,
        Ok(pv) => {
            let p0 = pre.post(post_id);
            &&& pre.has_post(post_id)
            &&& post.post_counter == pre.post_counter
            &&& post.comment_counter == pre.comment_counter
            &&& post.posts == pre.posts.update(pre.post_idx(post_id), pv)
            &&& if p0.likes.contains(actor) {
                pv == (PostView { likes: ids_without(p0.likes, actor), ..p0 }) && npost == npre
            } else {
                &&& pv == (PostView { likes: p0.likes.push(actor), ..p0 })
                &&& if actor == p0.author {
                    npost == npre
                } else {
                    notified(npre, npost, actor, p0.author, NotificationType::Like, like_text(), now)
                }
            }
        },
        _ => false,
    }
}

/// Everything `repost_post` may do, as a relation between the states before
/// and after the call.
pub open spec fn repost_outcome(
    pre: PostStoreView,
    post: PostStoreView,
    npre: NotificationCenterView,
    npost: NotificationCenterView,
    actor: UserId,
    post_id: u64,
    now: Timestamp,
    r: Result<PostView, SocialError>,
) -> bool {
    match r {
        Err(SocialError::OriginalNotFound) => !pre.has_post(post_id) && post == pre && npost
            == npre,
        Err(SocialError::AlreadyReposted) => pre.has_post(post_id) && pre.has_repost(
            actor,
            post_id,
        ) && post == pre && npost == npre,
        Ok(pv) => {
            let orig = pre.post(post_id);
            &&& pre.has_post(post_id)
            &&& !pre.has_repost(actor, post_id)
            &&& pv == (PostView {
                id: (pre.post_counter + 1) as u64,
                author: actor,
                content: orig.content,
                image: orig.image,
                video: orig.video,
                created_at: now,
                likes: Seq::<UserId>::empty(),
                comments: Seq::<CommentView>::empty(),
                repost_of: Option::Some(post_id),
            })
            &&& post.posts == pre.posts.push(pv)
            &&& post.post_counter == pre.post_counter + 1
            &&& post.comment_counter == pre.comment_counter
            &&& if actor == orig.author {
                npost == npre
            } else {
                notified(npre, npost, actor, orig.author, NotificationType::Repost, repost_text(), now)
            }
        },
        _ => false,
    }
}

/// The identifiers swept away by deleting the post named `root`: the root
/// itself, and transitively every repost whose origin is already swept away.
/// The sequence is read in store order, oldest first.
pub open spec fn doomed_ids(posts: Seq<PostView>, root: u64) -> Set<u64>
    decreases posts.len(),
{
    if posts.len() == 0 {
        set![root]
    } else {
        let d = doomed_ids(posts.drop_last(), root);
        if posts.last().repost_of matches Some(r) && d.contains(r) {
            d.insert(posts.last().id)
        } else {
            d
        }
    }
}

/// What a prefix of the store looks like once everything doomed by the
/// deletion is dropped.
pub open spec fn kept_after_delete(prefix: Seq<PostView>, all: Seq<PostView>, root: u64) -> Seq<
    PostView,
> {
    prefix.filter(|p: PostView| !doomed_ids(all, root).contains(p.id))
}

/// Reading one more post either adds exactly its id to the doomed set, when
/// its origin is already doomed, or changes nothing.
proof fn lemma_doomed_step(posts: Seq<PostView>, root: u64, k: int)
    requires
        0 <= k < posts.len(),
    ensures
        forall|x: u64|
            #[trigger] doomed_ids(posts.take(k + 1), root).contains(x) <==> (doomed_ids(
                posts.take(k),
                root,
            ).contains(x) || ((posts[k].repost_of matches Some(r) && doomed_ids(
                posts.take(k),
                root,
            ).contains(r)) && x == posts[k].id)),
{
    let s = posts.take(k + 1);
    assert(s.drop_last() =~= posts.take(k));
    assert(s.last() == posts[k]);
    let d = doomed_ids(posts.take(k), root);
    assert(doomed_ids(s, root) == if s.last().repost_of matches Some(r) && d.contains(r) {
        d.insert(s.last().id)
    } else {
        d
    });
}

/// The doomed set only grows as more of the store is read.
proof fn lemma_doomed_monotone(posts: Seq<PostView>, root: u64, k: int, m: int)
    requires
        0 <= k <= m <= posts.len(),
    ensures
        forall|x: u64|
            doomed_ids(posts.take(k), root).contains(x) ==> #[trigger] doomed_ids(
                posts.take(m),
                root,
            ).contains(x),
    decreases m - k,
{
    if k < m {
        lemma_doomed_monotone(posts, root, k, m - 1);
        lemma_doomed_step(posts, root, m - 1);
        assert(posts.take(m - 1 + 1) == posts.take(m));
        assert forall|x: u64| doomed_ids(posts.take(k), root).contains(x) implies
            #[trigger] doomed_ids(posts.take(m), root).contains(x) by {
            assert(doomed_ids(posts.take(m - 1), root).contains(x));
            assert(doomed_ids(posts.take(m - 1 + 1), root).contains(x));
        }
    }
}

/// Whatever joins the doomed set after some point carries the id of a post
/// standing at or after that point.
proof fn lemma_doomed_new_ids(posts: Seq<PostView>, root: u64, k: int, m: int)
    requires
        0 <= k <= m <= posts.len(),
    ensures
        forall|x: u64|
            #[trigger] doomed_ids(posts.take(m), root).contains(x) ==> doomed_ids(
                posts.take(k),
                root,
            ).contains(x) || exists|j: int| k <= j < m && (#[trigger] posts[j]).id == x,
    decreases m - k,
{
    if k < m {
        lemma_doomed_new_ids(posts, root, k, m - 1);
        lemma_doomed_step(posts, root, m - 1);
        assert(posts.take(m - 1 + 1) == posts.take(m));
        assert forall|x: u64| #[trigger] doomed_ids(posts.take(m), root).contains(x) implies
            doomed_ids(posts.take(k), root).contains(x) || exists|j: int|
            k <= j < m && (#[trigger] posts[j]).id == x by {
            assert(doomed_ids(posts.take(m - 1 + 1), root).contains(x));
            if !doomed_ids(posts.take(k), root).contains(x) {
                if doomed_ids(posts.take(m - 1), root).contains(x) {
                    let j = choose|j: int| k <= j < m - 1 && (#[trigger] posts[j]).id == x;
                    assert(k <= j < m && posts[j].id == x);
                } else {
                    assert(posts[m - 1].id == x);
                    assert(k <= m - 1 < m && posts[m - 1].id == x);
                }
            }
        }
    }
}

/// Every post the deletion keeps comes from the stretch of the store it was
/// filtered from.
proof fn lemma_kept_members(prefix: Seq<PostView>, all: Seq<PostView>, root: u64)
    ensures
        forall|t: int|
            #![trigger kept_after_delete(prefix, all, root)[t]]
            0 <= t < kept_after_delete(prefix, all, root).len() ==> exists|k: int|
                0 <= k < prefix.len() && kept_after_delete(prefix, all, root)[t] == #[trigger] prefix[k],
        forall|t: int|
            0 <= t < kept_after_delete(prefix, all, root).len() ==> !doomed_ids(all, root).contains(
                (#[trigger] kept_after_delete(prefix, all, root)[t]).id,
            ),
    decreases prefix.len(),
{
    reveal(Seq::filter);
    if prefix.len() > 0 {
        let head = prefix.drop_last();
        lemma_kept_members(head, all, root);
        let kp = kept_after_delete(prefix, all, root);
        let kh = kept_after_delete(head, all, root);
        assert forall|t: int| #![trigger kp[t]] 0 <= t < kp.len() implies exists|k: int|
            0 <= k < prefix.len() && kp[t] == #[trigger] prefix[k] by {
            if t < kh.len() {
                assert(kp[t] == kh[t]);
                let k = choose|k: int| 0 <= k < head.len() && kh[t] == #[trigger] head[k];
                assert(kp[t] == prefix[k]);
            } else {
                assert(kp[t] == prefix.last());
                assert(kp[t] == prefix[prefix.len() - 1]);
            }
        }
        assert forall|t: int| 0 <= t < kp.len() implies !doomed_ids(all, root).contains(
            (#[trigger] kp[t]).id,
        ) by {
            if t < kh.len() {
                assert(kp[t] == kh[t]);
            } else {
                assert(kp[t] == prefix.last());
            }
        }
    }
}

/// Deleting a post sweeps away the post itself and, in cascade, every
/// repost of it: no surviving post carries its identifier or points back at
/// it.
pub proof fn lemma_cascade_delete(posts: Seq<PostView>, root: u64)
    ensures
        forall|t: int|
            0 <= t < kept_after_delete(posts, posts, root).len() ==> (#[trigger] kept_after_delete(
                posts,
                posts,
                root,
            )[t]).id != root && kept_after_delete(posts, posts, root)[t].repost_of
                != Option::Some(root),
{
    let kept = kept_after_delete(posts, posts, root);
    let n = posts.len() as int;
    lemma_kept_members(posts, posts, root);
    assert(posts.take(n) =~= posts);
    assert(doomed_ids(posts.take(0), root).contains(root));
    lemma_doomed_monotone(posts, root, 0, n);
    assert(doomed_ids(posts, root).contains(root));
    assert forall|t: int| 0 <= t < kept.len() implies (#[trigger] kept[t]).id != root
        && kept[t].repost_of != Option::Some(root) by {
        assert(!doomed_ids(posts, root).contains(kept[t].id));
        assert(kept[t].id != root);
        if kept[t].repost_of == Option::Some(root) {
            let k = choose|k: int| 0 <= k < posts.len() && kept[t] == #[trigger] posts[k];
            lemma_doomed_monotone(posts, root, 0, k);
            lemma_doomed_step(posts, root, k);
            assert(doomed_ids(posts.take(k + 1), root).contains(posts[k].id));
            lemma_doomed_monotone(posts, root, k + 1, n);
            assert(doomed_ids(posts, root).contains(kept[t].id));
        }
    }
}

/// Liking a post twice returns it to its state before either call: the
/// second call withdraws the like, hands back the original post, and leaves
/// the store and the notifications exactly as the first call found them.
pub proof fn lemma_like_round_trip(
    s0: PostStoreView,
    s1: PostStoreView,
    s2: PostStoreView,
    n0: NotificationCenterView,
    n1: NotificationCenterView,
    n2: NotificationCenterView,
    actor: UserId,
    post_id: u64,
    t1: Timestamp,
    t2: Timestamp,
    p1: PostView,
    r2: Result<PostView, SocialError>,
)
    requires
        s0.wf(),
        s1.wf(),
        s0.has_post(post_id),
        !s0.post(post_id).likes.contains(actor),
        like_outcome(s0, s1, n0, n1, actor, post_id, t1, Ok(p1)),
        like_outcome(s1, s2, n1, n2, actor, post_id, t2, r2),
    ensures
        s2 == s0,
        n2 == n1,
        match r2 {
            Ok(p2) => p2 == s0.post(post_id),
            Err(_) => false,
        },
{
    let i = s0.post_idx(post_id);
    let p0 = s0.post(post_id);
    assert(p1 == (PostView { likes: p0.likes.push(actor), ..p0 }));
    assert(s1.posts == s0.posts.update(i, p1));
    lemma_post_idx_found(s1, post_id, i);
    assert(s1.post(post_id) == p1);
    assert(p1.likes.contains(actor)) by {
        assert(p1.likes.last() == actor);
    }
    match r2 {
        Ok(p2) => {
            assert(p2 == (PostView { likes: ids_without(p1.likes, actor), ..p1 }));
            crate::common::lemma_push_then_remove(p0.likes, actor);
            assert(p2 =~= p0);
            assert(s2.posts =~= s0.posts) by {
                assert(s2.posts == s1.posts.update(s1.post_idx(post_id), p2));
                assert(s1.post_idx(post_id) == i);
                assert forall|k: int| 0 <= k < s0.posts.len() implies s2.posts[k]
                    == s0.posts[k] by {
                    if k != i {
                        assert(s2.posts[k] == s1.posts[k]);
                        assert(s1.posts[k] == s0.posts[k]);
                    } else {
                        assert(s2.posts[k] == p2);
                        assert(s0.posts[k] == p0);
                    }
                }
            }
            assert(s2 =~= s0);
            assert(n2 == n1);
        },
        Err(e) => {
            assert(false);
        },
    }
}

/// After a successful repost, a second repost of the same original by the
/// same account fails with `AlreadyReposted` and creates nothing.
pub proof fn lemma_repost_unique(
    s0: PostStoreView,
    s1: PostStoreView,
    s2: PostStoreView,
    n0: NotificationCenterView,
    n1: NotificationCenterView,
    n2: NotificationCenterView,
    actor: UserId,
    post_id: u64,
    t1: Timestamp,
    t2: Timestamp,
    p1: PostView,
    r2: Result<PostView, SocialError>,
)
    requires
        s0.wf(),
        s1.wf(),
        repost_outcome(s0, s1, n0, n1, actor, post_id, t1, Ok(p1)),
        repost_outcome(s1, s2, n1, n2, actor, post_id, t2, r2),
    ensures
        r2 == Err::<PostView, SocialError>(SocialError::AlreadyReposted),
        s2 == s1,
        n2 == n1,
{
    let n = s0.posts.len() as int;
    assert(s1.posts == s0.posts.push(p1));
    assert(s1.has_repost(actor, post_id)) by {
        assert((#[trigger] s1.posts[n]).author == actor && s1.posts[n].repost_of == Option::Some(
            post_id,
        ));
    }
    assert(s1.has_post(post_id)) by {
        let i = s0.post_idx(post_id);
        assert((#[trigger] s1.posts[i]).id == post_id);
    }
    match r2 {
        Err(SocialError::AlreadyReposted) => {
            assert(s2 == s1 && n2 == n1);
        },
        Err(e) => {
            assert(false);
        },
        Ok(p2) => {
            assert(false);
        },
    }
}

/// In a well-formed store the index found by a linear scan is the index the
/// model speaks of.
proof fn lemma_post_idx_found(v: PostStoreView, id: u64, i: int)
    requires
        v.wf(),
        0 <= i < v.posts.len(),
        v.posts[i].id == id,
    ensures
        v.has_post(id),
        v.post_idx(id) == i,
        v.post(id) == v.posts[i],
{
    assert(v.has_post(id));
    let j = v.post_idx(id);
    if i < j {
        assert(v.posts[i].id < v.posts[j].id);
    } else if j < i {
        assert(v.posts[j].id < v.posts[i].id);
    }
}

/// Changing one post's text, media or likes, while keeping its identity,
/// author, comments and origin, keeps the store well-formed.
proof fn lemma_entry_change_preserves_wf(pre: PostStoreView, post: PostStoreView, i: int)
    requires
        pre.wf(),
        0 <= i < pre.posts.len(),
        post.posts.len() == pre.posts.len(),
        post.post_counter == pre.post_counter,
        post.comment_counter == pre.comment_counter,
        forall|k: int| 0 <= k < pre.posts.len() && k != i ==> post.posts[k] == pre.posts[k],
        post.posts[i].id == pre.posts[i].id,
        post.posts[i].author == pre.posts[i].author,
        post.posts[i].comments == pre.posts[i].comments,
        post.posts[i].repost_of == pre.posts[i].repost_of,
        no_dups(post.posts[i].likes),
    ensures
        post.wf(),
{
    assert forall|k: int| 0 <= k < post.posts.len() implies (#[trigger] post.posts[k]).id
        == pre.posts[k].id && post.posts[k].author == pre.posts[k].author && post.posts[k].comments
        == pre.posts[k].comments && post.posts[k].repost_of == pre.posts[k].repost_of by {
        if k != i {
            assert(post.posts[k] == pre.posts[k]);
        }
    }
    assert forall|k: int| 0 <= k < post.posts.len() implies no_dups(
        (#[trigger] post.posts[k]).likes,
    ) by {
        if k != i {
            assert(post.posts[k] == pre.posts[k]);
        }
    }
}

/// Appending one comment, numbered past every comment in the store, keeps
/// the store well-formed.
proof fn lemma_comment_append_preserves_wf(
    pre: PostStoreView,
    post: PostStoreView,
    i: int,
    c: CommentView,
)
    requires
        pre.wf(),
        0 <= i < pre.posts.len(),
        pre.comment_counter < u64::MAX,
        c.id == pre.comment_counter + 1,
        post.posts.len() == pre.posts.len(),
        post.post_counter == pre.post_counter,
        post.comment_counter == pre.comment_counter + 1,
        forall|k: int| 0 <= k < pre.posts.len() && k != i ==> post.posts[k] == pre.posts[k],
        post.posts[i] == (PostView { comments: pre.posts[i].comments.push(c), ..pre.posts[i] }),
    ensures
        post.wf(),
{
    assert forall|k: int| 0 <= k < post.posts.len() implies (#[trigger] post.posts[k]).id
        == pre.posts[k].id && post.posts[k].author == pre.posts[k].author
        && post.posts[k].repost_of == pre.posts[k].repost_of && no_dups(post.posts[k].likes) by {
        if k != i {
            assert(post.posts[k] == pre.posts[k]);
        }
    }
    assert forall|k: int, ck: int|
        0 <= k < post.posts.len() && 0 <= ck < post.posts[k].comments.len() implies 0 < (
    #[trigger] post.posts[k].comments[ck]).id <= post.comment_counter by {
        if k != i {
            assert(post.posts[k] == pre.posts[k]);
            assert(post.posts[k].comments[ck] == pre.posts[k].comments[ck]);
        } else {
            if ck < pre.posts[i].comments.len() {
                assert(post.posts[k].comments[ck] == pre.posts[i].comments[ck]);
            } else {
                assert(post.posts[k].comments[ck] == c);
            }
        }
    }
    assert forall|a: int, ca: int, b: int, cb: int|
        0 <= a < post.posts.len() && 0 <= ca < post.posts[a].comments.len() && 0 <= b
            < post.posts.len() && 0 <= cb < post.posts[b].comments.len() && (a != b || ca
            != cb) implies (#[trigger] post.posts[a].comments[ca]).id != (
    #[trigger] post.posts[b].comments[cb]).id by {
        let ea = post.posts[a].comments[ca];
        let eb = post.posts[b].comments[cb];
        let new_a = a == i && ca == pre.posts[i].comments.len();
        let new_b = b == i && cb == pre.posts[i].comments.len();
        if a != i {
            assert(post.posts[a] == pre.posts[a]);
        }
        if b != i {
            assert(post.posts[b] == pre.posts[b]);
        }
        if new_a && new_b {
            assert(a == b && ca == cb);
        } else if new_a {
            assert(ea == c);
            assert(eb == pre.posts[b].comments[cb]);
            assert(eb.id <= pre.comment_counter);
        } else if new_b {
            assert(eb == c);
            assert(ea == pre.posts[a].comments[ca]);
            assert(ea.id <= pre.comment_counter);
        } else {
            assert(ea == pre.posts[a].comments[ca]);
            assert(eb == pre.posts[b].comments[cb]);
        }
    }
}

/// A store whose posts all come from a well-formed store, still in strictly
/// increasing id order and with the same counters, is well-formed.
proof fn lemma_subset_posts_wf(pre: PostStoreView, post: PostStoreView)
    requires
        pre.wf(),
        post.post_counter == pre.post_counter,
        post.comment_counter == pre.comment_counter,
        forall|a: int|
            0 <= a < post.posts.len() ==> exists|j: int|
                0 <= j < pre.posts.len() && #[trigger] post.posts[a] == pre.posts[j],
        forall|a: int, b: int|
            0 <= a < b < post.posts.len() ==> (#[trigger] post.posts[a]).id < (
            #[trigger] post.posts[b]).id,
    ensures
        post.wf(),
{
    assert forall|a: int| 0 <= a < post.posts.len() implies 0 < (#[trigger] post.posts[a]).id
        <= post.post_counter && no_dups(post.posts[a].likes) && match post.posts[a].repost_of {
        Option::Some(r) => r < post.posts[a].id,
        Option::None => true,
    } by {
        let j = choose|j: int| 0 <= j < pre.posts.len() && post.posts[a] == pre.posts[j];
        assert(pre.posts[j].id <= pre.post_counter);
    }
    assert forall|a: int, ca: int|
        0 <= a < post.posts.len() && 0 <= ca < post.posts[a].comments.len() implies 0 < (
    #[trigger] post.posts[a].comments[ca]).id <= post.comment_counter by {
        let j = choose|j: int| 0 <= j < pre.posts.len() && post.posts[a] == pre.posts[j];
        assert(0 < pre.posts[j].comments[ca].id <= pre.comment_counter);
    }
    assert forall|a: int, ca: int, b: int, cb: int|
        0 <= a < post.posts.len() && 0 <= ca < post.posts[a].comments.len() && 0 <= b
            < post.posts.len() && 0 <= cb < post.posts[b].comments.len() && (a != b || ca
            != cb) implies (#[trigger] post.posts[a].comments[ca]).id != (
    #[trigger] post.posts[b].comments[cb]).id by {
        let ja = choose|j: int| 0 <= j < pre.posts.len() && post.posts[a] == pre.posts[j];
        let jb = choose|j: int| 0 <= j < pre.posts.len() && post.posts[b] == pre.posts[j];
        if a != b {
            assert(post.posts[a].id != post.posts[b].id) by {
                if a < b {
                    assert(post.posts[a].id < post.posts[b].id);
                } else {
                    assert(post.posts[b].id < post.posts[a].id);
                }
            }
            assert(ja != jb);
            assert(pre.posts[ja].comments[ca].id != pre.posts[jb].comments[cb].id);
        } else {
            assert(ja == jb || pre.posts[ja] == pre.posts[jb]);
            assert(pre.posts[ja].comments[ca].id != pre.posts[ja].comments[cb].id);
        }
    }
    assert forall|a: int, b: int|
        0 <= a < b < post.posts.len() && (#[trigger] post.posts[a]).author == (
    #[trigger] post.posts[b]).author implies !(post.posts[a].repost_of is Some
        && post.posts[a].repost_of == post.posts[b].repost_of) by {
        let ja = choose|j: int| 0 <= j < pre.posts.len() && post.posts[a] == pre.posts[j];
        let jb = choose|j: int| 0 <= j < pre.posts.len() && post.posts[b] == pre.posts[j];
        assert(post.posts[a].id < post.posts[b].id);
        assert(ja != jb) by {
            assert(pre.posts[ja].id == post.posts[a].id);
        }
        if ja < jb {
            assert(!(pre.posts[ja].repost_of is Some && pre.posts[ja].repost_of
                == pre.posts[jb].repost_of));
        } else {
            assert(!(pre.posts[jb].repost_of is Some && pre.posts[jb].repost_of
                == pre.posts[ja].repost_of));
        }
    }
}

/// Appending a fresh post, numbered past everything in the store, keeps the
/// store well-formed.
proof fn lemma_append_post_preserves_wf(pre: PostStoreView, post: PostStoreView, p: PostView)
    requires
        pre.wf(),
        p.id == pre.post_counter + 1,
        pre.post_counter < u64::MAX,
        p.likes == Seq::<UserId>::empty(),
        p.comments == Seq::<CommentView>::empty(),
        match p.repost_of {
            Option::Some(r) => r < p.id && !pre.has_repost(p.author, r),
            Option::None => true,
        },
        post.posts == pre.posts.push(p),
        post.post_counter == pre.post_counter + 1,
        post.comment_counter == pre.comment_counter,
    ensures
        post.wf(),
{
    let n = pre.posts.len() as int;
    assert forall|i: int, j: int|
        0 <= i < j < post.posts.len() implies (#[trigger] post.posts[i]).id < (
    #[trigger] post.posts[j]).id by {
        if j == n {
            assert(post.posts[i] == pre.posts[i]);
        } else {
            assert(post.posts[i] == pre.posts[i]);
            assert(post.posts[j] == pre.posts[j]);
        }
    }
    assert forall|i: int| 0 <= i < post.posts.len() implies 0 < (#[trigger] post.posts[i]).id
        <= post.post_counter && no_dups(post.posts[i].likes) && match post.posts[i].repost_of {
        Option::Some(r) => r < post.posts[i].id,
        Option::None => true,
    } by {
        if i < n {
            assert(post.posts[i] == pre.posts[i]);
        }
    }
    assert forall|i: int, ci: int|
        0 <= i < post.posts.len() && 0 <= ci < post.posts[i].comments.len() implies 0 < (
    #[trigger] post.posts[i].comments[ci]).id <= post.comment_counter by {
        assert(i < n);
        assert(post.posts[i] == pre.posts[i]);
    }
    assert forall|i: int, ci: int, j: int, cj: int|
        0 <= i < post.posts.len() && 0 <= ci < post.posts[i].comments.len() && 0 <= j
            < post.posts.len() && 0 <= cj < post.posts[j].comments.len() && (i != j || ci
            != cj) implies (#[trigger] post.posts[i].comments[ci]).id != (
    #[trigger] post.posts[j].comments[cj]).id by {
        assert(i < n && j < n);
        assert(post.posts[i] == pre.posts[i]);
        assert(post.posts[j] == pre.posts[j]);
    }
    assert forall|i: int, j: int|
        0 <= i < j < post.posts.len() && (#[trigger] post.posts[i]).author == (
    #[trigger] post.posts[j]).author implies !(post.posts[i].repost_of is Some
        && post.posts[i].repost_of == post.posts[j].repost_of) by {
        if j == n {
            assert(post.posts[i] == pre.posts[i]);
            if post.posts[i].repost_of is Some && post.posts[i].repost_of == p.repost_of
                && pre.posts[i].author == p.author {
                let r = p.repost_of->Some_0;
                assert(pre.has_repost(p.author, r));
            }
        } else {
            assert(post.posts[i] == pre.posts[i]);
            assert(post.posts[j] == pre.posts[j]);
        }
    }
}

} // verus!
