use vstd::prelude::*;

use crate::common::pair_before_eq;
use crate::errors::SocialError;
use crate::{Timestamp, UserId};

verus! {

/// What a notification announces.
#[derive(Clone, Copy, PartialEq, Eq, Structural, Debug)]
pub enum NotificationType {
    Like,
    Comment,
    Follow,
    Repost,
    Message,
}

/// A record telling one account what another account did.
#[derive(Debug)]
pub struct Notification {
    pub id: u64,
    pub sender: UserId,
    pub receiver: UserId,
    pub kind: NotificationType,
    pub message: String,
    pub created_at: Timestamp,
    pub read: bool,
}

/// Mathematical model of a notification.
#[verifier::ext_equal]
pub ghost struct NotificationView {
    pub id: u64,
    pub sender: UserId,
    pub receiver: UserId,
    pub kind: NotificationType,
    pub message: Seq<char>,
    pub created_at: Timestamp,
    pub read: bool,
}

impl View for Notification {
    type V = NotificationView;

    open spec fn view(&self) -> NotificationView {
        NotificationView {
            id: self.id,
            sender: self.sender,
            receiver: self.receiver,
            kind: self.kind,
            message: self.message@,
            created_at: self.created_at,
            read: self.read,
        }
    }
}

impl Clone for Notification {
    fn clone(&self) -> (res: Self)
        ensures
            res@ == self@,
    {
        Notification {
            id: self.id,
            sender: self.sender,
            receiver: self.receiver,
            kind: self.kind,
            message: self.message.clone(),
            created_at: self.created_at,
            read: self.read,
        }
    }
}

/// The models of a sequence of notification records.
pub open spec fn notification_views(s: Seq<Notification>) -> Seq<NotificationView> {
    s.map_values(|n: Notification| n@)
}

/// The records addressed to one account, in store order.
pub open spec fn for_receiver(s: Seq<NotificationView>, receiver: UserId) -> Seq<NotificationView> {
    s.filter(|n: NotificationView| n.receiver == receiver)
}

/// `a` may stand no later than `b` in a notification listing: newest creation
/// time first, and the higher id first among equal times.
pub open spec fn notification_before_eq(a: NotificationView, b: NotificationView) -> bool {
    pair_before_eq(b.created_at, b.id, a.created_at, a.id)
}

/// Sorted as a notification listing: newest first.
pub open spec fn notifications_sorted(s: Seq<NotificationView>) -> bool {
    forall|i: int, j: int|
        0 <= i < j < s.len() ==> notification_before_eq(#[trigger] s[i], #[trigger] s[j])
}

/// Mathematical model of the notification store: the records in insertion
/// order, and the last identifier handed out.
#[verifier::ext_equal]
pub ghost struct NotificationCenterView {
    pub notifications: Seq<NotificationView>,
    pub counter: u64,
}

impl NotificationCenterView {
    /// Well-formed: identifiers are positive, never exceed the counter, and
    /// never repeat; and no record ever announces an account's action to that
    /// same account.
    pub open spec fn wf(self) -> bool {
        &&& forall|i: int|
            0 <= i < self.notifications.len() ==> 0 < (#[trigger] self.notifications[i]).id
                <= self.counter
        &&& forall|i: int, j: int|
            0 <= i < j < self.notifications.len() ==> (#[trigger] self.notifications[i]).id != (
            #[trigger] self.notifications[j]).id
        &&& forall|i: int|
            0 <= i < self.notifications.len() ==> (#[trigger] self.notifications[i]).sender
                != self.notifications[i].receiver
    }

    /// Some record carries this identifier.
    pub open spec fn has_notification(self, id: u64) -> bool {
        exists|i: int|
            0 <= i < self.notifications.len() && (#[trigger] self.notifications[i]).id == id
    }

    /// The position of the record with this identifier.
    pub open spec fn notification_idx(self, id: u64) -> int {
        choose|i: int|
            0 <= i < self.notifications.len() && (#[trigger] self.notifications[i]).id == id
    }

    /// The record with this identifier.
    pub open spec fn notification(self, id: u64) -> NotificationView {
        self.notifications[self.notification_idx(id)]
    }
}

/// The notification store after exactly one new unread record: the one the
/// given action appends.
pub open spec fn notified(
    npre: NotificationCenterView,
    npost: NotificationCenterView,
    sender: UserId,
    receiver: UserId,
    kind: NotificationType,
    text: Seq<char>,
    now: Timestamp,
) -> bool {
    &&& npost.counter == npre.counter + 1
    &&& npost.notifications == npre.notifications.push(
        (NotificationView {
            id: (npre.counter + 1) as u64,
            sender,
            receiver,
            kind,
            message: text,
            created_at: now,
            read: false,
        }),
    )
}

/// Owns the notification records and the counter that numbers them.
pub struct NotificationCenter {
    pub notifications: Vec<Notification>,
    pub notification_counter: u64,
}

impl View for NotificationCenter {
    type V = NotificationCenterView;

    open spec fn view(&self) -> NotificationCenterView {
        NotificationCenterView {
            notifications: notification_views(self.notifications@),
            counter: self.notification_counter,
        }
    }
}

impl NotificationCenter {
    /// A store with no records and no identifiers handed out yet.
    pub fn new() -> (r: NotificationCenter)
        ensures
            r@.wf(),
            r@.notifications == Seq::<NotificationView>::empty(),
            r@.counter == 0,
    {
        let r = NotificationCenter { notifications: Vec::new(), notification_counter: 0 };
        proof {
            assert(r@.notifications =~= Seq::<NotificationView>::empty());
        }
        r
    }

    /// Hands out the next notification identifier.
    pub fn get_next_notification_id(&mut self) -> (id: u64)
        requires
            old(self).notification_counter < u64::MAX,
        ensures
            id == old(self)@.counter + 1,
            final(self)@.counter == id,
            final(self)@.notifications == old(self)@.notifications,
    {
        self.notification_counter = self.notification_counter + 1;
        self.notification_counter
    }

    /// Appends one unread record. Callers suppress self-directed actions
    /// before calling: a record never tells an account about itself.
    pub fn add_notification_internal(
        &mut self,
        sender: UserId,
        receiver: UserId,
        kind: NotificationType,
        message: String,
        now: Timestamp,
    ) -> (n: Notification)
        requires
            old(self)@.wf(),
            sender != receiver,
            old(self).notification_counter < u64::MAX,
        ensures
            final(self)@.wf(),
            final(self)@.counter == old(self)@.counter + 1,
            final(self)@.notifications == old(self)@.notifications.push(n@),
            n@ == (NotificationView {
                id: (old(self)@.counter + 1) as u64,
                sender,
                receiver,
                kind,
                message: message@,
                created_at: now,
                read: false,
            }),
    {
        let id = self.get_next_notification_id();
        let n = Notification { id, sender, receiver, kind, message, created_at: now, read: false };
        let stored = n.clone();
        self.notifications.push(stored);
        proof {
            assert(self@.notifications =~= old(self)@.notifications.push(n@));
        }
        n
    }

    /// The records addressed to one account, newest first.
    pub fn get_notifications(&self, receiver: UserId) -> (r: Vec<Notification>)
        ensures
            notification_views(r@).to_multiset() == for_receiver(
                self@.notifications,
                receiver,
            ).to_multiset(),
            notifications_sorted(notification_views(r@)),
    {
        let mut picked: Vec<Notification> = Vec::new();
        let n = self.notifications.len();
        proof {
            reveal(Seq::filter);
            assert(self@.notifications.take(0) =~= Seq::<NotificationView>::empty());
            assert(notification_views(picked@) =~= for_receiver(
                self@.notifications.take(0),
                receiver,
            ));
        }
        for i in 0..n
            invariant
                n == self.notifications.len(),
                notification_views(picked@) =~= for_receiver(
                    self@.notifications.take(i as int),
                    receiver,
                ),
        {
            if self.notifications[i].receiver == receiver {
                picked.push(self.notifications[i].clone());
            }
            proof {
                reveal(Seq::filter);
                assert(self@.notifications.take(i + 1).drop_last() =~= self@.notifications.take(
                    i as int,
                ));
                assert(self@.notifications.take(i + 1).last() == self.notifications@[i as int]@);
                assert(notification_views(picked@) =~= for_receiver(
                    self@.notifications.take(i + 1),
                    receiver,
                ));
            }
        }
        proof {
            assert(self@.notifications.take(n as int) =~= self@.notifications);
        }
        sort_notifications(picked)
    }

    /// Marks one record read. Only the receiver may do so; marking an
    /// already-read record again succeeds and changes nothing.
    pub fn mark_notification_read(&mut self, viewer: UserId, notification_id: u64) -> (r: Result<
        (),
        SocialError,
    >)
        requires
            old(self)@.wf(),
        ensures
            final(self)@.wf(),
            final(self)@.counter == old(self)@.counter,
            match r {
                Ok(()) => old(self)@.has_notification(notification_id) && old(self)@.notification(
                    notification_id,
                ).receiver == viewer && final(self)@.notifications
                    == old(self)@.notifications.update(
                    old(self)@.notification_idx(notification_id),
                    (NotificationView { read: true, ..old(self)@.notification(notification_id) }),
                ),
                Err(SocialError::NotFound) => !old(self)@.has_notification(notification_id)
                    && final(self)@ == old(self)@,
                Err(SocialError::Unauthorized) => old(self)@.has_notification(notification_id)
                    && old(self)@.notification(notification_id).receiver != viewer && final(self)@
                    == old(self)@,
                _ => false,
            },
    {
        let n = self.notifications.len();
        for i in 0..n
            invariant
                n == self.notifications.len(),
                self@ == old(self)@,
                self@.wf(),
                forall|k: int|
                    0 <= k < i ==> (#[trigger] self@.notifications[k]).id != notification_id,
        {
            if self.notifications[i].id == notification_id {
                if self.notifications[i].receiver != viewer {
                    proof {
                        lemma_notification_idx_found(self@, notification_id, i as int);
                    }
                    return Err(SocialError::Unauthorized);
                }
                proof {
                    lemma_notification_idx_found(old(self)@, notification_id, i as int);
                }
                self.notifications[i].read = true;
                proof {
                    assert(self@.notifications =~= old(self)@.notifications.update(
                        i as int,
                        (NotificationView {
                            read: true,
                            ..old(self)@.notification(notification_id)
                        }),
                    ));
                }
                return Ok(());
            }
        }
        Err(SocialError::NotFound)
    }
}

/// In a well-formed store the index found by a linear scan is the index the
/// model speaks of.
proof fn lemma_notification_idx_found(v: NotificationCenterView, id: u64, i: int)
    requires
        v.wf(),
        0 <= i < v.notifications.len(),
        v.notifications[i].id == id,
    ensures
        v.has_notification(id),
        v.notification_idx(id) == i,
        v.notification(id) == v.notifications[i],
{
    assert(v.has_notification(id));
    let j = v.notification_idx(id);
    if i != j {
        assert(v.notifications[i].id != v.notifications[j].id);
    }
}

/// No notification ever tells an account about its own action: every record
/// in a well-formed store has distinct sender and receiver.
pub proof fn lemma_no_self_notification(v: NotificationCenterView)
    requires
        v.wf(),
    ensures
        forall|i: int|
            0 <= i < v.notifications.len() ==> (#[trigger] v.notifications[i]).sender
                != v.notifications[i].receiver,
{
}

/// Sorts a batch of records into listing order: newest creation time first,
/// higher id first among equal times.
fn sort_notifications(v: Vec<Notification>) -> (r: Vec<Notification>)
    ensures
        notification_views(r@).to_multiset() == notification_views(v@).to_multiset(),
        notifications_sorted(notification_views(r@)),
{
    let mut out: Vec<Notification> = Vec::new();
    let n = v.len();
    proof {
        assert(v@.take(0) =~= Seq::<Notification>::empty());
        assert(notification_views(out@) =~= notification_views(v@.take(0)));
    }
    for i in 0..n
        invariant
            n == v.len(),
            notification_views(out@).to_multiset() == notification_views(
                v@.take(i as int),
            ).to_multiset(),
            notifications_sorted(notification_views(out@)),
    {
        let x = v[i].clone();
        let mut j: usize = 0;
        while j < out.len() && (out[j].created_at > x.created_at || (out[j].created_at
            == x.created_at && out[j].id >= x.id))
            invariant
                j <= out.len(),
                forall|k: int|
                    0 <= k < j ==> notification_before_eq(
                        #[trigger] notification_views(out@)[k],
                        x@,
                    ),
            decreases out.len() - j,
        {
            j += 1;
        }
        let ghost before = notification_views(out@);
        out.insert(j, x);
        proof {
            broadcast use vstd::seq_lib::group_to_multiset_ensures;

            assert(notification_views(out@) =~= before.insert(j as int, x@));
            assert(notification_views(v@.take(i + 1)) =~= notification_views(
                v@.take(i as int),
            ).push(x@));
            assert forall|p: int, q: int|
                0 <= p < q < notification_views(out@).len() implies notification_before_eq(
                #[trigger] notification_views(out@)[p],
                #[trigger] notification_views(out@)[q],
            ) by {
                let nv = notification_views(out@);
                if p < j && q == j {
                    assert(nv[p] == before[p]);
                } else if p == j && q > j {
                    assert(nv[q] == before[q - 1]);
                    assert(notification_before_eq(x@, before[j as int]));
                    if q - 1 > j {
                        assert(notification_before_eq(before[j as int], before[q - 1]));
                    }
                } else if p < j && q > j {
                    assert(nv[p] == before[p]);
                    assert(nv[q] == before[q - 1]);
                    assert(notification_before_eq(before[p], x@));
                    assert(notification_before_eq(x@, before[j as int]));
                } else if p > j && q > j {
                    assert(nv[p] == before[p - 1]);
                    assert(nv[q] == before[q - 1]);
                } else {
                    assert(nv[p] == before[p]);
                    assert(nv[q] == before[q]);
                }
            }
        }
    }
    proof {
        assert(v@.take(n as int) =~= v@);
    }
    out
}

} // verus!
