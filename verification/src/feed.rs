use vstd::prelude::*;

use crate::post_store::{post_views, posts_sorted, sort_posts, Post, PostStore, PostView};
use crate::user_directory::{UserDirectory, UserDirectoryView};
use crate::UserId;

verus! {

/// A feed shorter than this is padded with posts from the whole corpus.
pub const FEED_MIN: usize = 10;

/// At most this many corpus posts, in store order, pad a short feed.
pub const FEED_PAD: usize = 20;

/// A post belongs to a viewer's own feed when the viewer wrote it or
/// follows its author.
pub open spec fn feed_selected(users: UserDirectoryView, viewer: UserId, p: PostView) -> bool {
    p.author == viewer || users.follows(viewer, p.author)
}

/// The viewer's own feed: the selected posts in store order.
pub open spec fn feed_base(users: UserDirectoryView, posts: Seq<PostView>, viewer: UserId) -> Seq<
    PostView,
> {
    posts.filter(|p: PostView| feed_selected(users, viewer, p))
}

/// The feed before ordering: the viewer's own feed and, when it runs short,
/// the first stretch of the corpus after it.
pub open spec fn feed_candidates(
    users: UserDirectoryView,
    posts: Seq<PostView>,
    viewer: UserId,
) -> Seq<PostView> {
    let base = feed_base(users, posts, viewer);
    if base.len() < FEED_MIN as int {
        if posts.len() <= FEED_PAD as int {
            base + posts
        } else {
            base + posts.take(FEED_PAD as int)
        }
    } else {
        base
    }
}

/// Some post in the sequence carries this identifier.
pub open spec fn has_id(s: Seq<PostView>, id: u64) -> bool {
    exists|i: int| 0 <= i < s.len() && (#[trigger] s[i]).id == id
}

/// The sequence with every post dropped whose identifier already appeared
/// earlier.
pub open spec fn dedup_by_id(s: Seq<PostView>) -> Seq<PostView>
    decreases s.len(),
{
    if s.len() == 0 {
        s
    } else {
        let rest = dedup_by_id(s.drop_last());
        if has_id(s.drop_last(), s.last().id) {
            rest
        } else {
            rest.push(s.last())
        }
    }
}

/// Deduplication leaves a sequence of distinct identifiers as it was.
proof fn lemma_dedup_identity(s: Seq<PostView>)
    requires
        forall|i: int, j: int| 0 <= i < j < s.len() ==> (#[trigger] s[i]).id != (#[trigger] s[j]).id,
    ensures
        dedup_by_id(s) == s,
    decreases s.len(),
{
    if s.len() > 0 {
        let head = s.drop_last();
        assert forall|i: int, j: int|
            0 <= i < j < head.len() implies (#[trigger] head[i]).id != (#[trigger] head[j]).id by {
            assert(head[i] == s[i] && head[j] == s[j]);
        }
        lemma_dedup_identity(head);
        assert(!has_id(head, s.last().id)) by {
            if has_id(head, s.last().id) {
                let i = choose|i: int| 0 <= i < head.len() && (#[trigger] head[i]).id == s.last().id;
                assert(s[i].id == s[s.len() - 1].id);
            }
        }
        assert(dedup_by_id(s) =~= s);
    }
}

/// Deduplication keeps exactly the identifiers that were there.
proof fn lemma_dedup_has_id(s: Seq<PostView>, id: u64)
    ensures
        has_id(dedup_by_id(s), id) == has_id(s, id),
    decreases s.len(),
{
    if s.len() > 0 {
        let head = s.drop_last();
        lemma_dedup_has_id(head, id);
        assert(has_id(head, id) ==> has_id(s, id)) by {
            if has_id(head, id) {
                let i = choose|i: int| 0 <= i < head.len() && (#[trigger] head[i]).id == id;
                assert(s[i].id == id);
            }
        }
        if has_id(head, s.last().id) {
            assert(has_id(s, id) ==> has_id(head, id)) by {
                if has_id(s, id) {
                    let i = choose|i: int| 0 <= i < s.len() && (#[trigger] s[i]).id == id;
                    if i < s.len() - 1 {
                        assert(head[i].id == id);
                    } else {
                        let j = choose|j: int|
                            0 <= j < head.len() && (#[trigger] head[j]).id == s.last().id;
                        assert(head[j].id == id);
                    }
                }
            }
        } else {
            let rest = dedup_by_id(head);
            assert(has_id(s, id) <==> (has_id(head, id) || s.last().id == id)) by {
                if has_id(s, id) {
                    let i = choose|i: int| 0 <= i < s.len() && (#[trigger] s[i]).id == id;
                    if i < s.len() - 1 {
                        assert(head[i].id == id);
                    }
                } else {
                    if has_id(head, id) {
                        let i = choose|i: int| 0 <= i < head.len() && (#[trigger] head[i]).id == id;
                        assert(s[i].id == id);
                    }
                    assert(s[s.len() - 1] == s.last());
                }
            }
            assert(has_id(rest.push(s.last()), id) <==> (has_id(rest, id) || s.last().id == id)) by {
                if has_id(rest.push(s.last()), id) {
                    let i = choose|i: int|
                        0 <= i < rest.push(s.last()).len() && (#[trigger] rest.push(s.last())[i]).id
                            == id;
                    if i < rest.len() {
                        assert(rest[i].id == id);
                    }
                } else {
                    if has_id(rest, id) {
                        let i = choose|i: int| 0 <= i < rest.len() && (#[trigger] rest[i]).id == id;
                        assert(rest.push(s.last())[i].id == id);
                    }
                    assert(rest.push(s.last())[rest.len() as int] == s.last());
                }
            }
        }
    }
}

/// Every identifier in a viewer's feed stays below any bound the whole
/// corpus stays below.
proof fn lemma_feed_base_ids_lt(
    users: UserDirectoryView,
    posts: Seq<PostView>,
    viewer: UserId,
    x: u64,
)
    requires
        forall|k: int| 0 <= k < posts.len() ==> (#[trigger] posts[k]).id < x,
    ensures
        forall|a: int|
            0 <= a < feed_base(users, posts, viewer).len() ==> (#[trigger] feed_base(
                users,
                posts,
                viewer,
            )[a]).id < x,
    decreases posts.len(),
{
    reveal(Seq::filter);
    if posts.len() > 0 {
        let head = posts.drop_last();
        assert forall|k: int| 0 <= k < head.len() implies (#[trigger] head[k]).id < x by {
            assert(head[k] == posts[k]);
        }
        lemma_feed_base_ids_lt(users, head, viewer, x);
        let fb = feed_base(users, posts, viewer);
        let fh = feed_base(users, head, viewer);
        assert forall|a: int| 0 <= a < fb.len() implies (#[trigger] fb[a]).id < x by {
            if a < fh.len() {
                assert(fb[a] == fh[a]);
            } else {
                assert(fb[a] == posts.last());
                assert(posts[posts.len() - 1].id < x);
            }
        }
    }
}

/// A viewer's feed inherits the corpus's strictly increasing identifiers.
proof fn lemma_feed_base_sorted(users: UserDirectoryView, posts: Seq<PostView>, viewer: UserId)
    requires
        forall|i: int, j: int|
            0 <= i < j < posts.len() ==> (#[trigger] posts[i]).id < (#[trigger] posts[j]).id,
    ensures
        forall|a: int, b: int|
            0 <= a < b < feed_base(users, posts, viewer).len() ==> (#[trigger] feed_base(
                users,
                posts,
                viewer,
            )[a]).id < (#[trigger] feed_base(users, posts, viewer)[b]).id,
    decreases posts.len(),
{
    reveal(Seq::filter);
    if posts.len() > 0 {
        let head = posts.drop_last();
        assert forall|i: int, j: int|
            0 <= i < j < head.len() implies (#[trigger] head[i]).id < (#[trigger] head[j]).id by {
            assert(head[i] == posts[i] && head[j] == posts[j]);
        }
        lemma_feed_base_sorted(users, head, viewer);
        assert forall|k: int|
            0 <= k < head.len() implies (#[trigger] head[k]).id < posts.last().id by {
            assert(head[k] == posts[k]);
            assert(posts[k].id < posts[posts.len() - 1].id);
        }
        lemma_feed_base_ids_lt(users, head, viewer, posts.last().id);
        let fb = feed_base(users, posts, viewer);
        let fh = feed_base(users, head, viewer);
        assert forall|a: int, b: int| 0 <= a < b < fb.len() implies (#[trigger] fb[a]).id < (
        #[trigger] fb[b]).id by {
            if b < fh.len() {
                assert(fb[a] == fh[a] && fb[b] == fh[b]);
            } else {
                assert(fb[b] == posts.last());
                assert(fb[a] == fh[a]);
            }
        }
    }
}

/// Some post in the batch carries this identifier.
fn batch_has_id(v: &Vec<Post>, id: u64) -> (r: bool)
    ensures
        r == has_id(post_views(v@), id),
{
    let n = v.len();
    for i in 0..n
        invariant
            n == v.len(),
            forall|k: int| 0 <= k < i ==> (#[trigger] post_views(v@)[k]).id != id,
    {
        if v[i].id == id {
            proof {
                assert((#[trigger] post_views(v@)[i as int]).id == id);
            }
            return true;
        }
    }
    false
}

/// The posts a viewer's feed shows, newest first: the viewer's own posts and
/// those of accounts the viewer follows; when fewer than `FEED_MIN` such
/// posts exist, up to `FEED_PAD` posts from the whole corpus fill it out,
/// and no post appears twice.
pub fn get_feed(users: &UserDirectory, posts: &PostStore, viewer: UserId) -> (r: Vec<Post>)
    requires
        users@.wf(),
        posts@.wf(),
    ensures
        post_views(r@).to_multiset() == dedup_by_id(
            feed_candidates(users@, posts@.posts, viewer),
        ).to_multiset(),
        posts_sorted(post_views(r@)),
{
    let mut feed: Vec<Post> = Vec::new();
    let ghost all = posts@.posts;
    let n = posts.posts.len();
    proof {
        reveal(Seq::filter);
        assert(all.take(0) =~= Seq::<PostView>::empty());
        assert(post_views(feed@) =~= feed_base(users@, all.take(0), viewer));
    }
    for i in 0..n
        invariant
            n == posts.posts.len(),
            all == posts@.posts,
            users@.wf(),
            post_views(feed@) =~= feed_base(users@, all.take(i as int), viewer),
    {
        let author = posts.posts[i].author;
        if author == viewer || users.is_following(viewer, author) {
            let c = posts.posts[i].clone();
            let ghost before = post_views(feed@);
            feed.push(c);
            proof {
                assert(post_views(feed@) =~= before.push(c@));
                assert(c@ == all[i as int]);
            }
        }
        proof {
            reveal(Seq::filter);
            assert(all.take(i + 1).drop_last() =~= all.take(i as int));
            assert(all.take(i + 1).last() == all[i as int]);
            assert(post_views(feed@) =~= feed_base(users@, all.take(i + 1), viewer));
        }
    }
    proof {
        assert(all.take(n as int) =~= all);
        lemma_feed_base_sorted(users@, all, viewer);
    }
    let ghost base = feed_base(users@, all, viewer);
    if feed.len() < FEED_MIN {
        let cap = if posts.posts.len() <= FEED_PAD {
            posts.posts.len()
        } else {
            FEED_PAD
        };
        proof {
            assert(all.take(0) =~= Seq::<PostView>::empty());
            assert(base + all.take(0) =~= base);
            lemma_dedup_identity(base);
            assert(post_views(feed@) =~= dedup_by_id(base + all.take(0)));
        }
        for t in 0..cap
            invariant
                cap <= posts.posts.len(),
                n == posts.posts.len(),
                all == posts@.posts,
                post_views(feed@) =~= dedup_by_id(base + all.take(t as int)),
        {
            let ghost cand = base + all.take(t as int);
            let pid = posts.posts[t].id;
            let already = batch_has_id(&feed, pid);
            proof {
                assert((base + all.take(t + 1)).drop_last() =~= cand);
                assert((base + all.take(t + 1)).last() == all[t as int]);
                lemma_dedup_has_id(cand, pid);
            }
            if !already {
                let c = posts.posts[t].clone();
                let ghost before = post_views(feed@);
                feed.push(c);
                proof {
                    assert(post_views(feed@) =~= before.push(c@));
                    assert(c@ == all[t as int]);
                    assert(post_views(feed@) =~= dedup_by_id(base + all.take(t + 1)));
                }
            } else {
                proof {
                    assert(post_views(feed@) =~= dedup_by_id(base + all.take(t + 1)));
                }
            }
        }
        proof {
            if all.len() <= FEED_PAD as int {
                assert(all.take(cap as int) =~= all);
            }
            assert(post_views(feed@) =~= dedup_by_id(feed_candidates(users@, posts@.posts, viewer)));
        }
    } else {
        proof {
            lemma_dedup_identity(base);
            assert(post_views(feed@) =~= dedup_by_id(feed_candidates(users@, posts@.posts, viewer)));
        }
    }
    sort_posts(feed)
}

} // verus!
