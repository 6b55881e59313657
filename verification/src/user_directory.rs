use vstd::prelude::*;
use vstd::string::StringExecFns;

use crate::common::{contains_id, copy_ids, ids_without, lemma_ids_without_props, no_dups, remove_id};
use crate::errors::SocialError;
use crate::notifications::{NotificationCenter, NotificationCenterView, NotificationType, NotificationView};
use crate::text::{contains_sub, is_blank, lower_of, lower_str, str_contains, trim_of};
use crate::{Timestamp, UserId};

verus! {

/// One account: its descriptive fields and its side of the follow graph.
#[derive(Debug)]
pub struct UserProfile {
    pub id: UserId,
    pub name: String,
    pub bio: String,
    pub profile_image: String,
    pub cover_image: String,
    pub followers: Vec<UserId>,
    pub following: Vec<UserId>,
    pub created_at: Timestamp,
}

/// Mathematical model of a profile.
#[verifier::ext_equal]
pub ghost struct UserProfileView {
    pub id: UserId,
    pub name: Seq<char>,
    pub bio: Seq<char>,
    pub profile_image: Seq<char>,
    pub cover_image: Seq<char>,
    pub followers: Seq<UserId>,
    pub following: Seq<UserId>,
    pub created_at: Timestamp,
}

impl View for UserProfile {
    type V = UserProfileView;

    open spec fn view(&self) -> UserProfileView {
        UserProfileView {
            id: self.id,
            name: self.name@,
            bio: self.bio@,
            profile_image: self.profile_image@,
            cover_image: self.cover_image@,
            followers: self.followers@,
            following: self.following@,
            created_at: self.created_at,
        }
    }
}

impl Clone for UserProfile {
    fn clone(&self) -> (res: Self)
        ensures
            res@ == self@,
    {
        UserProfile {
            id: self.id,
            name: self.name.clone(),
            bio: self.bio.clone(),
            profile_image: self.profile_image.clone(),
            cover_image: self.cover_image.clone(),
            followers: copy_ids(&self.followers),
            following: copy_ids(&self.following),
            created_at: self.created_at,
        }
    }
}

/// The models of a sequence of profile records.
pub open spec fn profile_views(s: Seq<UserProfile>) -> Seq<UserProfileView> {
    s.map_values(|u: UserProfile| u@)
}

/// Mathematical model of the user directory: the profiles in registration
/// order.
#[verifier::ext_equal]
pub ghost struct UserDirectoryView {
    pub users: Seq<UserProfileView>,
}

impl UserDirectoryView {
    /// An account with this identifier is registered.
    pub open spec fn has_user(self, id: UserId) -> bool {
        exists|i: int| 0 <= i < self.users.len() && (#[trigger] self.users[i]).id == id
    }

    /// The position of the account with this identifier.
    pub open spec fn user_idx(self, id: UserId) -> int {
        choose|i: int| 0 <= i < self.users.len() && (#[trigger] self.users[i]).id == id
    }

    /// The profile of the account with this identifier.
    pub open spec fn user(self, id: UserId) -> UserProfileView {
        self.users[self.user_idx(id)]
    }

    /// `a` follows `b`.
    pub open spec fn follows(self, a: UserId, b: UserId) -> bool {
        self.has_user(a) && self.user(a).following.contains(b)
    }

    /// Well-formed: identifiers never repeat; follower and following lists
    /// hold no duplicates, never the account itself, and only registered
    /// accounts; and the two sides of every follow edge agree.
    pub open spec fn wf(self) -> bool {
        &&& forall|i: int, j: int|
            0 <= i < j < self.users.len() ==> (#[trigger] self.users[i]).id != (
            #[trigger] self.users[j]).id
        &&& forall|i: int|
            0 <= i < self.users.len() ==> no_dups((#[trigger] self.users[i]).following) && no_dups(
                self.users[i].followers,
            )
        &&& forall|i: int|
            0 <= i < self.users.len() ==> !(#[trigger] self.users[i]).following.contains(
                self.users[i].id,
            ) && !self.users[i].followers.contains(self.users[i].id)
        &&& forall|i: int, x: UserId|
            0 <= i < self.users.len() && #[trigger] self.users[i].following.contains(x)
                ==> self.has_user(x)
        &&& forall|i: int, x: UserId|
            0 <= i < self.users.len() && #[trigger] self.users[i].followers.contains(x)
                ==> self.has_user(x)
        &&& forall|i: int, j: int|
            #![trigger self.users[i].following.contains(self.users[j].id)]
            #![trigger self.users[j].followers.contains(self.users[i].id)]
            0 <= i < self.users.len() && 0 <= j < self.users.len() ==> (
            self.users[i].following.contains(self.users[j].id)
                <==> self.users[j].followers.contains(self.users[i].id))
    }
}

/// How one profile changes when `actor` unfollows `target`: the edge leaves
/// both lists, and every other profile stays as it was.
pub open spec fn unfollow_entry(p: UserProfileView, actor: UserId, target: UserId) -> UserProfileView {
    let p1 = if p.id == actor {
        UserProfileView { following: ids_without(p.following, target), ..p }
    } else {
        p
    };
    if p1.id == target {
        UserProfileView { followers: ids_without(p1.followers, actor), ..p1 }
    } else {
        p1
    }
}

/// The text of the notification a new follower triggers.
pub open spec fn follow_text() -> Seq<char> {
    "started following you"@
}

/// A profile matches a search query when the folded query occurs in its
/// folded name or folded bio.
pub open spec fn user_matches(u: UserProfileView, q: Seq<char>) -> bool {
    contains_sub(lower_of(u.name), q) || contains_sub(lower_of(u.bio), q)
}

/// Everything `follow_user` may do, as a relation between the states before
/// and after the call.
pub open spec fn follow_outcome(
    pre: UserDirectoryView,
    post: UserDirectoryView,
    npre: NotificationCenterView,
    npost: NotificationCenterView,
    actor: UserId,
    target: UserId,
    now: Timestamp,
    r: Result<(), SocialError>,
) -> bool {
    match r {
        Err(SocialError::SelfFollow) => actor == target && post == pre && npost == npre,
        Err(SocialError::TargetNotFound) => actor != target && !pre.has_user(target) && post == pre
            && npost == npre,
        Err(SocialError::ActorNotRegistered) => actor != target && pre.has_user(target)
            && !pre.has_user(actor) && post == pre && npost == npre,
        Ok(()) => {
            &&& actor != target
            &&& pre.has_user(target)
            &&& pre.has_user(actor)
            &&& post.follows(actor, target)
            &&& post.user(target).followers.contains(actor)
            &&& if pre.follows(actor, target) {
                post == pre && npost == npre
            } else {
                &&& post.users == pre.users.update(
                    pre.user_idx(actor),
                    (UserProfileView {
                        following: pre.user(actor).following.push(target),
                        ..pre.user(actor)
                    }),
                ).update(
                    pre.user_idx(target),
                    (UserProfileView {
                        followers: pre.user(target).followers.push(actor),
                        ..pre.user(target)
                    }),
                )
                &&& npost.counter == npre.counter + 1
                &&& npost.notifications == npre.notifications.push(
                    (NotificationView {
                        id: (npre.counter + 1) as u64,
                        sender: actor,
                        receiver: target,
                        kind: NotificationType::Follow,
                        message: follow_text(),
                        created_at: now,
                        read: false,
                    }),
                )
            }
        },
        _ => false,
    }
}

/// Owns the profiles and the follow graph.
pub struct UserDirectory {
    pub users: Vec<UserProfile>,
}

impl View for UserDirectory {
    type V = UserDirectoryView;

    open spec fn view(&self) -> UserDirectoryView {
        UserDirectoryView { users: profile_views(self.users@) }
    }
}

impl UserDirectory {
    /// A directory with no accounts.
    pub fn new() -> (r: UserDirectory)
        ensures
            r@.wf(),
            r@.users == Seq::<UserProfileView>::empty(),
    {
        let r = UserDirectory { users: Vec::new() };
        proof {
            assert(r@.users =~= Seq::<UserProfileView>::empty());
        }
        r
    }

    /// The position of the account with this identifier, if it is registered.
    fn find_index(&self, id: UserId) -> (r: Option<usize>)
        ensures
            match r {
                Some(i) => i < self@.users.len() && self@.users[i as int].id == id,
                None => !self@.has_user(id),
            },
    {
        let n = self.users.len();
        for i in 0..n
            invariant
                n == self.users.len(),
                forall|k: int| 0 <= k < i ==> (#[trigger] self@.users[k]).id != id,
        {
            if self.users[i].id == id {
                return Some(i);
            }
        }
        None
    }

    /// Registers a fresh account. The name must not be blank, and each
    /// identifier registers at most once.
    pub fn register_user(
        &mut self,
        id: UserId,
        name: String,
        bio: String,
        profile_image: String,
        cover_image: String,
        now: Timestamp,
    ) -> (r: Result<UserProfile, SocialError>)
        requires
            old(self)@.wf(),
        ensures
            final(self)@.wf(),
            match r {
                Err(SocialError::EmptyName) => trim_of(name@).len() == 0 && final(self)@ == old(
                    self,
                )@,
                Err(SocialError::DuplicateUser) => trim_of(name@).len() != 0 && old(
                    self,
                )@.has_user(id) && final(self)@ == old(self)@,
                Ok(p) => trim_of(name@).len() != 0 && !old(self)@.has_user(id) && p@ == (
                UserProfileView {
                    id,
                    name: name@,
                    bio: bio@,
                    profile_image: profile_image@,
                    cover_image: cover_image@,
                    followers: Seq::<UserId>::empty(),
                    following: Seq::<UserId>::empty(),
                    created_at: now,
                }) && final(self)@.users == old(self)@.users.push(p@),
                _ => false,
            },
    {
        if is_blank(name.as_str()) {
            return Err(SocialError::EmptyName);
        }
        if let Some(_) = self.find_index(id) {
            proof {
                assert(self@.has_user(id));
            }
            return Err(SocialError::DuplicateUser);
        }
        let profile = UserProfile {
            id,
            name,
            bio,
            profile_image,
            cover_image,
            followers: Vec::new(),
            following: Vec::new(),
            created_at: now,
        };
        let stored = profile.clone();
        self.users.push(stored);
        proof {
            assert(self@.users =~= old(self)@.users.push(profile@));
            lemma_register_preserves_wf(old(self)@, self@, profile@);
        }
        Ok(profile)
    }

    /// An account with this identifier is registered.
    pub fn contains_user(&self, id: UserId) -> (r: bool)
        ensures
            r == self@.has_user(id),
    {
        match self.find_index(id) {
            Some(i) => {
                proof {
                    assert(self@.has_user(id));
                }
                true
            },
            None => false,
        }
    }

    /// The profile registered under this identifier, if any.
    pub fn get_user(&self, id: UserId) -> (r: Option<UserProfile>)
        requires
            self@.wf(),
        ensures
            match r {
                Some(p) => self@.has_user(id) && p@ == self@.user(id),
                None => !self@.has_user(id),
            },
    {
        match self.find_index(id) {
            Some(i) => {
                proof {
                    lemma_user_idx_found(self@, id, i as int);
                }
                Some(self.users[i].clone())
            },
            None => None,
        }
    }

    /// The caller's own profile, if the caller is registered.
    pub fn get_current_user(&self, caller: UserId) -> (r: Option<UserProfile>)
        requires
            self@.wf(),
        ensures
            match r {
                Some(p) => self@.has_user(caller) && p@ == self@.user(caller),
                None => !self@.has_user(caller),
            },
    {
        self.get_user(caller)
    }

    /// Overwrites the four descriptive fields of the caller's profile. The
    /// follow graph and the registration time stay as they are.
    pub fn update_profile(
        &mut self,
        id: UserId,
        name: String,
        bio: String,
        profile_image: String,
        cover_image: String,
    ) -> (r: Result<UserProfile, SocialError>)
        requires
            old(self)@.wf(),
        ensures
            final(self)@.wf(),
            match r {
                Err(SocialError::NotFound) => !old(self)@.has_user(id) && final(self)@ == old(
                    self,
                )@,
                Ok(p) => old(self)@.has_user(id) && p@ == (UserProfileView {
                    name: name@,
                    bio: bio@,
                    profile_image: profile_image@,
                    cover_image: cover_image@,
                    ..old(self)@.user(id)
                }) && final(self)@.users == old(self)@.users.update(old(self)@.user_idx(id), p@),
                _ => false,
            },
    {
        let i = match self.find_index(id) {
            Some(i) => i,
            None => {
                return Err(SocialError::NotFound);
            },
        };
        proof {
            lemma_user_idx_found(self@, id, i as int);
        }
        self.users[i].name = name;
        self.users[i].bio = bio;
        self.users[i].profile_image = profile_image;
        self.users[i].cover_image = cover_image;
        let p = self.users[i].clone();
        proof {
            assert(self@.users =~= old(self)@.users.update(old(self)@.user_idx(id), p@));
            lemma_update_fields_preserves_wf(old(self)@, self@, i as int);
        }
        Ok(p)
    }

    /// Puts a follow edge in place and tells the target, unless the edge is
    /// already there, in which case nothing changes.
    pub fn follow_user(
        &mut self,
        nc: &mut NotificationCenter,
        actor: UserId,
        target: UserId,
        now: Timestamp,
    ) -> (r: Result<(), SocialError>)
        requires
            old(self)@.wf(),
            old(nc)@.wf(),
            old(nc).notification_counter < u64::MAX,
        ensures
            final(self)@.wf(),
            final(nc)@.wf(),
            follow_outcome(old(self)@, final(self)@, old(nc)@, final(nc)@, actor, target, now, r),
    {
        if actor == target {
            return Err(SocialError::SelfFollow);
        }
        let ti = match self.find_index(target) {
            Some(t) => t,
            None => {
                return Err(SocialError::TargetNotFound);
            },
        };
        let ai = match self.find_index(actor) {
            Some(a) => a,
            None => {
                return Err(SocialError::ActorNotRegistered);
            },
        };
        proof {
            lemma_user_idx_found(self@, actor, ai as int);
            lemma_user_idx_found(self@, target, ti as int);
        }
        if contains_id(&self.users[ai].following, target) {
            proof {
                assert(self@.follows(actor, target));
                assert(self@.user(target).followers.contains(actor)) by {
                    assert(self@.users[ai as int].following.contains(self@.users[ti as int].id));
                }
            }
            return Ok(());
        }
        self.users[ai].following.push(target);
        self.users[ti].followers.push(actor);
        let n = nc.add_notification_internal(
            actor,
            target,
            NotificationType::Follow,
            ("started following you").to_owned(),
            now,
        );
        proof {
            let pre = old(self)@;
            let post = self@;
            assert(post.users =~= pre.users.update(
                ai as int,
                (UserProfileView {
                    following: pre.users[ai as int].following.push(target),
                    ..pre.users[ai as int]
                }),
            ).update(
                ti as int,
                (UserProfileView {
                    followers: pre.users[ti as int].followers.push(actor),
                    ..pre.users[ti as int]
                }),
            ));
            lemma_follow_preserves_wf(pre, post, ai as int, ti as int, actor, target);
            lemma_user_idx_found(post, actor, ai as int);
            lemma_user_idx_found(post, target, ti as int);
            assert(post.users[ai as int].following.contains(target)) by {
                assert(post.users[ai as int].following.last() == target);
            }
            assert(post.users[ti as int].followers.contains(actor)) by {
                assert(post.users[ti as int].followers.last() == actor);
            }
        }
        Ok(())
    }

    /// Takes the follow edge away in both directions; doing so again, or for
    /// accounts that never followed, changes nothing and still succeeds.
    pub fn unfollow_user(&mut self, actor: UserId, target: UserId)
        requires
            old(self)@.wf(),
        ensures
            final(self)@.wf(),
            final(self)@.users.len() == old(self)@.users.len(),
            forall|i: int|
                0 <= i < old(self)@.users.len() ==> final(self)@.users[i] == unfollow_entry(
                    #[trigger] old(self)@.users[i],
                    actor,
                    target,
                ),
            !final(self)@.follows(actor, target),
            final(self)@.has_user(target) ==> !final(self)@.user(target).followers.contains(actor),
    {
        let ai_opt = self.find_index(actor);
        let ti_opt = self.find_index(target);
        if let Some(ai) = ai_opt {
            remove_id(&mut self.users[ai].following, target);
        }
        if let Some(ti) = ti_opt {
            remove_id(&mut self.users[ti].followers, actor);
        }
        proof {
            let pre = old(self)@;
            let post = self@;
            assert forall|i: int| 0 <= i < pre.users.len() implies post.users[i] == unfollow_entry(
                pre.users[i],
                actor,
                target,
            ) by {
                if pre.users[i].id == actor {
                    assert(pre.has_user(actor));
                    assert(match ai_opt {
                        Some(ai) => ai as int == i,
                        None => false,
                    }) by {
                        if let Some(ai) = ai_opt {
                            if ai as int != i {
                                assert(pre.users[ai as int].id != pre.users[i].id);
                            }
                        }
                    }
                }
                if pre.users[i].id == target {
                    assert(pre.has_user(target));
                    assert(match ti_opt {
                        Some(ti) => ti as int == i,
                        None => false,
                    }) by {
                        if let Some(ti) = ti_opt {
                            if ti as int != i {
                                assert(pre.users[ti as int].id != pre.users[i].id);
                            }
                        }
                    }
                }
                assert(post.users[i] =~= unfollow_entry(pre.users[i], actor, target));
            }
            lemma_unfollow_preserves_wf(pre, post, actor, target);
            if post.has_user(actor) {
                lemma_ids_without_props(pre.users[post.user_idx(actor)].following, target);
            }
            if post.has_user(target) {
                lemma_ids_without_props(pre.users[post.user_idx(target)].followers, actor);
            }
        }
    }

    /// `actor` follows `target`.
    pub fn is_following(&self, actor: UserId, target: UserId) -> (r: bool)
        requires
            self@.wf(),
        ensures
            r == self@.follows(actor, target),
    {
        match self.find_index(actor) {
            Some(i) => {
                proof {
                    lemma_user_idx_found(self@, actor, i as int);
                }
                contains_id(&self.users[i].following, target)
            },
            None => false,
        }
    }

    /// The accounts following this one; empty when the account is unknown.
    pub fn get_followers(&self, id: UserId) -> (r: Vec<UserId>)
        requires
            self@.wf(),
        ensures
            self@.has_user(id) ==> r@ == self@.user(id).followers,
            !self@.has_user(id) ==> r@ == Seq::<UserId>::empty(),
    {
        match self.find_index(id) {
            Some(i) => {
                proof {
                    lemma_user_idx_found(self@, id, i as int);
                }
                copy_ids(&self.users[i].followers)
            },
            None => {
                let r: Vec<UserId> = Vec::new();
                proof {
                    assert(r@ =~= Seq::<UserId>::empty());
                }
                r
            },
        }
    }

    /// The accounts this one follows; empty when the account is unknown.
    pub fn get_following(&self, id: UserId) -> (r: Vec<UserId>)
        requires
            self@.wf(),
        ensures
            self@.has_user(id) ==> r@ == self@.user(id).following,
            !self@.has_user(id) ==> r@ == Seq::<UserId>::empty(),
    {
        match self.find_index(id) {
            Some(i) => {
                proof {
                    lemma_user_idx_found(self@, id, i as int);
                }
                copy_ids(&self.users[i].following)
            },
            None => {
                let r: Vec<UserId> = Vec::new();
                proof {
                    assert(r@ =~= Seq::<UserId>::empty());
                }
                r
            },
        }
    }

    /// Every profile, in registration order.
    pub fn get_all_users(&self) -> (r: Vec<UserProfile>)
        ensures
            profile_views(r@) == self@.users,
    {
        let mut out: Vec<UserProfile> = Vec::new();
        let n = self.users.len();
        for i in 0..n
            invariant
                n == self.users.len(),
                profile_views(out@) =~= self@.users.take(i as int),
        {
            let c = self.users[i].clone();
            let ghost before = out@;
            out.push(c);
            proof {
                assert(c@ == self@.users[i as int]);
                assert(profile_views(out@) =~= profile_views(before).push(c@));
                assert(profile_views(out@) =~= self@.users.take(i + 1));
            }
        }
        proof {
            assert(self@.users.take(n as int) =~= self@.users);
        }
        out
    }

    /// Messaging policy: permitted when at least one side follows the other.
    pub fn can_dm(&self, a: UserId, b: UserId) -> (r: bool)
        requires
            self@.wf(),
        ensures
            r == (self@.follows(a, b) || self@.follows(b, a)),
    {
        let forward = self.is_following(a, b);
        if forward {
            true
        } else {
            self.is_following(b, a)
        }
    }

    /// The profiles whose name or bio contains the query, compared without
    /// regard to letter case, in registration order.
    pub fn search_users(&self, query: String) -> (r: Vec<UserProfile>)
        ensures
            profile_views(r@) == self@.users.filter(
                |u: UserProfileView| user_matches(u, lower_of(query@)),
            ),
    {
        let q = lower_str(query.as_str());
        let mut out: Vec<UserProfile> = Vec::new();
        let n = self.users.len();
        proof {
            reveal(Seq::filter);
            assert(self@.users.take(0) =~= Seq::<UserProfileView>::empty());
            assert(profile_views(out@) =~= self@.users.take(0).filter(
                |u: UserProfileView| user_matches(u, lower_of(query@)),
            ));
        }
        for i in 0..n
            invariant
                n == self.users.len(),
                q@ == lower_of(query@),
                profile_views(out@) =~= self@.users.take(i as int).filter(
                    |u: UserProfileView| user_matches(u, lower_of(query@)),
                ),
        {
            let name_l = lower_str(self.users[i].name.as_str());
            let bio_l = lower_str(self.users[i].bio.as_str());
            if str_contains(name_l.as_str(), q.as_str()) || str_contains(bio_l.as_str(), q.as_str())
            {
                out.push(self.users[i].clone());
            }
            proof {
                reveal(Seq::filter);
                assert(self@.users.take(i + 1).drop_last() =~= self@.users.take(i as int));
                assert(self@.users.take(i + 1).last() == self.users@[i as int]@);
                assert(profile_views(out@) =~= self@.users.take(i + 1).filter(
                    |u: UserProfileView| user_matches(u, lower_of(query@)),
                ));
            }
        }
        proof {
            assert(self@.users.take(n as int) =~= self@.users);
        }
        out
    }
}

/// Follow edges are symmetric: one account follows another exactly when the
/// second counts the first among its followers.
pub proof fn lemma_follow_symmetry(d: UserDirectoryView, a: UserId, b: UserId)
    requires
        d.wf(),
        d.has_user(a),
        d.has_user(b),
    ensures
        d.follows(a, b) <==> d.user(b).followers.contains(a),
{
    let i = d.user_idx(a);
    let j = d.user_idx(b);
    assert(d.users[i].following.contains(d.users[j].id) <==> d.users[j].followers.contains(
        d.users[i].id,
    ));
}

/// Following twice is the same as following once: after a first successful
/// follow put the edge in place, a second call succeeds, changes neither the
/// directory nor the notifications, and so exactly one notification stands
/// for the pair.
pub proof fn lemma_follow_idempotent(
    d0: UserDirectoryView,
    d1: UserDirectoryView,
    d2: UserDirectoryView,
    n0: NotificationCenterView,
    n1: NotificationCenterView,
    n2: NotificationCenterView,
    actor: UserId,
    target: UserId,
    t1: Timestamp,
    t2: Timestamp,
    r2: Result<(), SocialError>,
)
    requires
        d0.wf(),
        d1.wf(),
        !d0.follows(actor, target),
        follow_outcome(d0, d1, n0, n1, actor, target, t1, Ok(())),
        follow_outcome(d1, d2, n1, n2, actor, target, t2, r2),
    ensures
        r2 is Ok,
        d2 == d1,
        n2 == n1,
        n1.notifications.len() == n0.notifications.len() + 1,
{
    assert(actor != target);
    assert(d1.follows(actor, target));
    assert(d1.has_user(actor));
    assert(d1.has_user(target)) by {
        let i = d1.user_idx(actor);
        assert(d1.users[i].following.contains(target));
    }
    assert(n1.notifications.len() == n0.notifications.len() + 1);
    match r2 {
        Ok(()) => {
            assert(d2 == d1 && n2 == n1);
        },
        Err(e) => {
            assert(false);
        },
    }
}

/// In a well-formed directory the index found by a linear scan is the index
/// the model speaks of.
proof fn lemma_user_idx_found(v: UserDirectoryView, id: UserId, i: int)
    requires
        v.wf(),
        0 <= i < v.users.len(),
        v.users[i].id == id,
    ensures
        v.has_user(id),
        v.user_idx(id) == i,
        v.user(id) == v.users[i],
{
    assert(v.has_user(id));
    let j = v.user_idx(id);
    if i != j {
        assert(v.users[i].id != v.users[j].id);
    }
}

/// Appending a value changes membership by exactly that value.
proof fn lemma_push_contains(s: Seq<u64>, x: u64)
    ensures
        forall|y: u64| #[trigger] s.push(x).contains(y) <==> (s.contains(y) || y == x),
{
    assert forall|y: u64| #[trigger] s.push(x).contains(y) implies (s.contains(y) || y == x) by {
        let i = choose|i: int| 0 <= i < s.push(x).len() && s.push(x)[i] == y;
        if i < s.len() {
            assert(s[i] == y);
        }
    }
    assert forall|y: u64| s.contains(y) || y == x implies #[trigger] s.push(x).contains(y) by {
        if s.contains(y) {
            let i = choose|i: int| 0 <= i < s.len() && s[i] == y;
            assert(s.push(x)[i] == y);
        } else {
            assert(s.push(x)[s.len() as int] == y);
        }
    }
}

/// Two directory states whose profiles carry the same identifiers register
/// the same accounts.
proof fn lemma_same_ids_same_users(a: UserDirectoryView, b: UserDirectoryView)
    requires
        a.users.len() == b.users.len(),
        forall|i: int| 0 <= i < a.users.len() ==> (#[trigger] a.users[i]).id == b.users[i].id,
    ensures
        forall|x: UserId| a.has_user(x) <==> b.has_user(x),
{
    assert forall|x: UserId| a.has_user(x) implies b.has_user(x) by {
        let i = a.user_idx(x);
        assert(b.users[i].id == x);
    }
    assert forall|x: UserId| b.has_user(x) implies a.has_user(x) by {
        let i = b.user_idx(x);
        assert(a.users[i].id == x);
    }
}

/// A freshly registered profile with empty follow lists keeps the directory
/// well-formed.
proof fn lemma_register_preserves_wf(pre: UserDirectoryView, post: UserDirectoryView, p: UserProfileView)
    requires
        pre.wf(),
        !pre.has_user(p.id),
        p.followers == Seq::<UserId>::empty(),
        p.following == Seq::<UserId>::empty(),
        post.users == pre.users.push(p),
    ensures
        post.wf(),
{
    let n = pre.users.len() as int;
    assert forall|i: int, j: int|
        0 <= i < j < post.users.len() implies (#[trigger] post.users[i]).id != (
    #[trigger] post.users[j]).id by {
        if j == n {
            assert(post.users[i] == pre.users[i]);
            if pre.users[i].id == p.id {
                assert(pre.has_user(p.id));
            }
        } else {
            assert(post.users[i] == pre.users[i]);
            assert(post.users[j] == pre.users[j]);
        }
    }
    assert(post.users.len() == n + 1);
    assert forall|i: int| 0 <= i < post.users.len() implies no_dups(
        (#[trigger] post.users[i]).following,
    ) && no_dups(post.users[i].followers) && !post.users[i].following.contains(post.users[i].id)
        && !post.users[i].followers.contains(post.users[i].id) by {
        if i < n {
            assert(post.users[i] == pre.users[i]);
        }
    }
    assert forall|i: int, x: UserId|
        0 <= i < post.users.len() && #[trigger] post.users[i].following.contains(
            x,
        ) implies post.has_user(x) by {
        assert(i < n);
        assert(post.users[i] == pre.users[i]);
        assert(pre.has_user(x));
        let k = pre.user_idx(x);
        assert(post.users[k].id == x);
    }
    assert forall|i: int, x: UserId|
        0 <= i < post.users.len() && #[trigger] post.users[i].followers.contains(
            x,
        ) implies post.has_user(x) by {
        assert(i < n);
        assert(post.users[i] == pre.users[i]);
        assert(pre.has_user(x));
        let k = pre.user_idx(x);
        assert(post.users[k].id == x);
    }
    assert forall|i: int, j: int|
        0 <= i < post.users.len() && 0 <= j < post.users.len() implies (
    #[trigger] post.users[i].following.contains(post.users[j].id)
        <==> #[trigger] post.users[j].followers.contains(post.users[i].id)) by {
        if i < n && j < n {
            assert(post.users[i] == pre.users[i]);
            assert(post.users[j] == pre.users[j]);
        } else if i == n && j < n {
            assert(post.users[j] == pre.users[j]);
            assert(!pre.users[j].followers.contains(p.id)) by {
                if pre.users[j].followers.contains(p.id) {
                    assert(pre.has_user(p.id));
                }
            }
        } else if i < n && j == n {
            assert(post.users[i] == pre.users[i]);
            assert(!pre.users[i].following.contains(p.id)) by {
                if pre.users[i].following.contains(p.id) {
                    assert(pre.has_user(p.id));
                }
            }
        }
    }
}

/// Overwriting only the descriptive fields of one profile keeps the
/// directory well-formed.
proof fn lemma_update_fields_preserves_wf(pre: UserDirectoryView, post: UserDirectoryView, i: int)
    requires
        pre.wf(),
        0 <= i < pre.users.len(),
        post.users.len() == pre.users.len(),
        post.users[i].id == pre.users[i].id,
        post.users[i].followers == pre.users[i].followers,
        post.users[i].following == pre.users[i].following,
        forall|k: int| 0 <= k < pre.users.len() && k != i ==> post.users[k] == pre.users[k],
    ensures
        post.wf(),
{
    assert forall|a: int| 0 <= a < post.users.len() implies (#[trigger] post.users[a]).id
        == pre.users[a].id && post.users[a].followers == pre.users[a].followers
        && post.users[a].following == pre.users[a].following by {
        if a != i {
            assert(post.users[a] == pre.users[a]);
        }
    }
    lemma_same_ids_same_users(pre, post);
}

/// Adding the two halves of one new follow edge keeps the directory
/// well-formed.
proof fn lemma_follow_preserves_wf(
    pre: UserDirectoryView,
    post: UserDirectoryView,
    ai: int,
    ti: int,
    actor: UserId,
    target: UserId,
)
    requires
        pre.wf(),
        0 <= ai < pre.users.len(),
        0 <= ti < pre.users.len(),
        ai != ti,
        actor != target,
        pre.users[ai].id == actor,
        pre.users[ti].id == target,
        !pre.users[ai].following.contains(target),
        post.users == pre.users.update(
            ai,
            (UserProfileView { following: pre.users[ai].following.push(target), ..pre.users[ai] }),
        ).update(
            ti,
            (UserProfileView { followers: pre.users[ti].followers.push(actor), ..pre.users[ti] }),
        ),
    ensures
        post.wf(),
{
    let n = pre.users.len() as int;
    lemma_push_contains(pre.users[ai].following, target);
    lemma_push_contains(pre.users[ti].followers, actor);
    assert(!pre.users[ti].followers.contains(actor)) by {
        assert(pre.users[ai].following.contains(pre.users[ti].id)
            <==> pre.users[ti].followers.contains(pre.users[ai].id));
    }
    assert(post.users.len() == n);
    assert forall|a: int| 0 <= a < n implies (#[trigger] post.users[a]).id == pre.users[a].id by {
        if a != ai && a != ti {
            assert(post.users[a] == pre.users[a]);
        }
    }
    lemma_same_ids_same_users(pre, post);
    assert forall|i: int, j: int|
        0 <= i < j < post.users.len() implies (#[trigger] post.users[i]).id != (
    #[trigger] post.users[j]).id by {}
    assert forall|i: int| 0 <= i < n implies no_dups((#[trigger] post.users[i]).following)
        && no_dups(post.users[i].followers) && !post.users[i].following.contains(post.users[i].id)
        && !post.users[i].followers.contains(post.users[i].id) by {
        if i == ai {
            assert(post.users[i].followers == pre.users[i].followers);
            assert(post.users[i].following == pre.users[ai].following.push(target));
            assert(no_dups(post.users[i].following)) by {
                assert forall|a: int, b: int|
                    0 <= a < b < post.users[i].following.len() implies post.users[i].following[a]
                    != post.users[i].following[b] by {
                    if b == post.users[i].following.len() - 1 {
                        assert(post.users[i].following[a] == pre.users[ai].following[a]);
                        assert(pre.users[ai].following.contains(pre.users[ai].following[a]));
                    }
                }
            }
        } else if i == ti {
            assert(post.users[i].following == pre.users[i].following);
            assert(post.users[i].followers == pre.users[ti].followers.push(actor));
            assert(no_dups(post.users[i].followers)) by {
                assert forall|a: int, b: int|
                    0 <= a < b < post.users[i].followers.len() implies post.users[i].followers[a]
                    != post.users[i].followers[b] by {
                    if b == post.users[i].followers.len() - 1 {
                        assert(post.users[i].followers[a] == pre.users[ti].followers[a]);
                        assert(pre.users[ti].followers.contains(pre.users[ti].followers[a]));
                    }
                }
            }
        } else {
            assert(post.users[i] == pre.users[i]);
        }
    }
    assert forall|i: int, x: UserId|
        0 <= i < n && #[trigger] post.users[i].following.contains(x) implies post.has_user(x) by {
        if i == ai {
            if x != target {
                assert(pre.users[ai].following.contains(x));
                assert(pre.has_user(x));
            } else {
                assert(pre.has_user(target)) by {
                    assert(pre.users[ti].id == target);
                }
            }
        } else if i == ti {
            assert(post.users[i].following == pre.users[i].following);
            assert(pre.has_user(x));
        } else {
            assert(post.users[i] == pre.users[i]);
            assert(pre.has_user(x));
        }
    }
    assert forall|i: int, x: UserId|
        0 <= i < n && #[trigger] post.users[i].followers.contains(x) implies post.has_user(x) by {
        if i == ti {
            if x != actor {
                assert(pre.users[ti].followers.contains(x));
                assert(pre.has_user(x));
            } else {
                assert(pre.has_user(actor)) by {
                    assert(pre.users[ai].id == actor);
                }
            }
        } else if i == ai {
            assert(post.users[i].followers == pre.users[i].followers);
            assert(pre.has_user(x));
        } else {
            assert(post.users[i] == pre.users[i]);
            assert(pre.has_user(x));
        }
    }
    assert forall|i: int, j: int|
        0 <= i < n && 0 <= j < n implies (#[trigger] post.users[i].following.contains(
        post.users[j].id,
    ) <==> #[trigger] post.users[j].followers.contains(post.users[i].id)) by {
        let fid = post.users[j].id;
        let bid = post.users[i].id;
        assert(fid == pre.users[j].id);
        assert(bid == pre.users[i].id);
        if i != ai && i != ti {
            assert(post.users[i] == pre.users[i]);
        }
        if j != ai && j != ti {
            assert(post.users[j] == pre.users[j]);
        }
        if i == ai && j == ti {
            assert(post.users[i].following.contains(fid));
            assert(post.users[j].followers.contains(bid));
        } else if i == ai {
            assert(fid != target) by {
                if j != ti {
                    assert(pre.users[j].id != pre.users[ti].id);
                }
            }
            assert(post.users[i].following.contains(fid) <==> pre.users[ai].following.contains(
                fid,
            ));
            assert(post.users[j].followers == pre.users[j].followers);
            assert(pre.users[ai].following.contains(pre.users[j].id)
                <==> pre.users[j].followers.contains(pre.users[ai].id));
        } else if j == ti {
            assert(bid != actor) by {
                if i != ai {
                    assert(pre.users[i].id != pre.users[ai].id);
                }
            }
            assert(post.users[j].followers.contains(bid) <==> pre.users[ti].followers.contains(
                bid,
            ));
            assert(post.users[i].following == pre.users[i].following);
            assert(pre.users[i].following.contains(pre.users[ti].id)
                <==> pre.users[ti].followers.contains(pre.users[i].id));
        } else {
            assert(post.users[i].following == pre.users[i].following);
            assert(post.users[j].followers == pre.users[j].followers);
            assert(pre.users[i].following.contains(pre.users[j].id)
                <==> pre.users[j].followers.contains(pre.users[i].id));
        }
    }
}

/// Removing the two halves of one follow edge keeps the directory
/// well-formed.
proof fn lemma_unfollow_preserves_wf(
    pre: UserDirectoryView,
    post: UserDirectoryView,
    actor: UserId,
    target: UserId,
)
    requires
        pre.wf(),
        post.users.len() == pre.users.len(),
        forall|i: int|
            0 <= i < pre.users.len() ==> post.users[i] == unfollow_entry(
                #[trigger] pre.users[i],
                actor,
                target,
            ),
    ensures
        post.wf(),
{
    let n = pre.users.len() as int;
    assert forall|i: int| 0 <= i < n implies (#[trigger] post.users[i]).id == pre.users[i].id by {}
    lemma_same_ids_same_users(pre, post);
    assert forall|i: int| 0 <= i < n implies {
        &&& forall|z: u64|
            #[trigger] post.users[i].following.contains(z) <==> (pre.users[i].following.contains(z)
                && !(pre.users[i].id == actor && z == target))
        &&& forall|z: u64|
            #[trigger] post.users[i].followers.contains(z) <==> (pre.users[i].followers.contains(z)
                && !(pre.users[i].id == target && z == actor))
        &&& no_dups(post.users[i].following)
        &&& no_dups(post.users[i].followers)
    } by {
        lemma_ids_without_props(pre.users[i].following, target);
        lemma_ids_without_props(pre.users[i].followers, actor);
    }
    assert forall|i: int, j: int|
        0 <= i < j < post.users.len() implies (#[trigger] post.users[i]).id != (
    #[trigger] post.users[j]).id by {}
    assert forall|i: int| 0 <= i < n implies !(#[trigger] post.users[i]).following.contains(
        post.users[i].id,
    ) && !post.users[i].followers.contains(post.users[i].id) by {
        if post.users[i].following.contains(post.users[i].id) {
            assert(pre.users[i].following.contains(pre.users[i].id));
        }
        if post.users[i].followers.contains(post.users[i].id) {
            assert(pre.users[i].followers.contains(pre.users[i].id));
        }
    }
    assert forall|i: int, x: UserId|
        0 <= i < n && #[trigger] post.users[i].following.contains(x) implies post.has_user(x) by {
        assert(pre.users[i].following.contains(x));
        assert(pre.has_user(x));
    }
    assert forall|i: int, x: UserId|
        0 <= i < n && #[trigger] post.users[i].followers.contains(x) implies post.has_user(x) by {
        assert(pre.users[i].followers.contains(x));
        assert(pre.has_user(x));
    }
    assert forall|i: int, j: int|
        0 <= i < n && 0 <= j < n implies (#[trigger] post.users[i].following.contains(
        post.users[j].id,
    ) <==> #[trigger] post.users[j].followers.contains(post.users[i].id)) by {
        let fid = pre.users[j].id;
        let bid = pre.users[i].id;
        assert(pre.users[i].following.contains(fid) <==> pre.users[j].followers.contains(bid));
        assert(post.users[i].following.contains(fid) <==> (pre.users[i].following.contains(fid)
            && !(bid == actor && fid == target)));
        assert(post.users[j].followers.contains(bid) <==> (pre.users[j].followers.contains(bid)
            && !(fid == target && bid == actor)));
    }
}

} // verus!
