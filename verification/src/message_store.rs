use vstd::prelude::*;
use vstd::string::StringExecFns;

use crate::common::{no_dups, pair_before_eq};
use crate::errors::SocialError;
use crate::notifications::{notified, NotificationCenter, NotificationCenterView, NotificationType};
use crate::text::{is_blank, trim_of};
use crate::user_directory::UserDirectory;
use crate::{Timestamp, UserId};

verus! {

/// One direct message between two accounts.
#[derive(Debug)]
pub struct Message {
    pub id: u64,
    pub from: UserId,
    pub to: UserId,
    pub content: String,
    pub created_at: Timestamp,
    pub seen: bool,
}

/// Mathematical model of a message.
#[verifier::ext_equal]
pub ghost struct MessageView {
    pub id: u64,
    pub from: UserId,
    pub to: UserId,
    pub content: Seq<char>,
    pub created_at: Timestamp,
    pub seen: bool,
}

impl View for Message {
    type V = MessageView;

    open spec fn view(&self) -> MessageView {
        MessageView {
            id: self.id,
            from: self.from,
            to: self.to,
            content: self.content@,
            created_at: self.created_at,
            seen: self.seen,
        }
    }
}

impl Clone for Message {
    fn clone(&self) -> (res: Self)
        ensures
            res@ == self@,
    {
        Message {
            id: self.id,
            from: self.from,
            to: self.to,
            content: self.content.clone(),
            created_at: self.created_at,
            seen: self.seen,
        }
    }
}

/// The models of a sequence of messages.
pub open spec fn message_views(s: Seq<Message>) -> Seq<MessageView> {
    s.map_values(|m: Message| m@)
}

/// The canonical unordered pair: the two accounts in ascending order, so
/// that both directions name the same conversation.
pub open spec fn spec_convo_key(a: UserId, b: UserId) -> (UserId, UserId) {
    if a <= b {
        (a, b)
    } else {
        (b, a)
    }
}

/// The canonical unordered pair for a conversation between two accounts.
pub fn convo_key(a: UserId, b: UserId) -> (r: (UserId, UserId))
    ensures
        r == spec_convo_key(a, b),
{
    if a <= b {
        (a, b)
    } else {
        (b, a)
    }
}

/// All messages ever exchanged between one pair of accounts, oldest first by
/// arrival.
#[derive(Debug)]
pub struct Conversation {
    pub user_a: UserId,
    pub user_b: UserId,
    pub messages: Vec<Message>,
}

/// Mathematical model of a conversation.
#[verifier::ext_equal]
pub ghost struct ConversationView {
    pub user_a: UserId,
    pub user_b: UserId,
    pub messages: Seq<MessageView>,
}

impl View for Conversation {
    type V = ConversationView;

    open spec fn view(&self) -> ConversationView {
        ConversationView {
            user_a: self.user_a,
            user_b: self.user_b,
            messages: message_views(self.messages@),
        }
    }
}

/// The models of a sequence of conversations.
pub open spec fn conversation_views(s: Seq<Conversation>) -> Seq<ConversationView> {
    s.map_values(|c: Conversation| c@)
}

/// `a` may stand no later than `b` in a conversation listing: oldest
/// creation time first, and the lower id first among equal times.
pub open spec fn message_before_eq(a: MessageView, b: MessageView) -> bool {
    pair_before_eq(a.created_at, a.id, b.created_at, b.id)
}

/// Sorted as a conversation listing: oldest first.
pub open spec fn messages_sorted(s: Seq<MessageView>) -> bool {
    forall|i: int, j: int|
        0 <= i < j < s.len() ==> message_before_eq(#[trigger] s[i], #[trigger] s[j])
}

/// How one message changes when a viewer marks a stretch of a conversation
/// seen: messages sent by the peer to the viewer, up to the given id, become
/// seen; every other message stays as it was.
pub open spec fn mark_entry(m: MessageView, viewer: UserId, peer: UserId, up_to: u64) -> MessageView {
    if m.to == viewer && m.from == peer && m.id <= up_to {
        MessageView { seen: true, ..m }
    } else {
        m
    }
}

/// The peer a conversation gives this viewer, if the viewer takes part.
pub open spec fn conv_peer(c: ConversationView, viewer: UserId) -> Option<UserId> {
    if c.user_a == viewer {
        Option::Some(c.user_b)
    } else if c.user_b == viewer {
        Option::Some(c.user_a)
    } else {
        Option::None
    }
}

/// The peers a viewer sees in the inbox, one for each conversation the
/// viewer takes part in, in store order.
pub open spec fn inbox_of(convs: Seq<ConversationView>, viewer: UserId) -> Seq<UserId>
    decreases convs.len(),
{
    if convs.len() == 0 {
        Seq::<UserId>::empty()
    } else {
        let rest = inbox_of(convs.drop_last(), viewer);
        match conv_peer(convs.last(), viewer) {
            Option::Some(p) => rest.push(p),
            Option::None => rest,
        }
    }
}

/// The text of the notification a direct message triggers.
pub open spec fn message_text() -> Seq<char> {
    "sent you a message"@
}

/// Mathematical model of the message store: the conversations in creation
/// order, and the counter that numbers messages.
#[verifier::ext_equal]
pub ghost struct MessageStoreView {
    pub conversations: Seq<ConversationView>,
    pub counter: u64,
}

impl MessageStoreView {
    /// A conversation between these two accounts exists.
    pub open spec fn has_conversation(self, a: UserId, b: UserId) -> bool {
        exists|i: int|
            0 <= i < self.conversations.len() && (#[trigger] self.conversations[i]).user_a
                == spec_convo_key(a, b).0 && self.conversations[i].user_b == spec_convo_key(a, b).1
    }

    /// The position of the conversation between these two accounts.
    pub open spec fn conversation_idx(self, a: UserId, b: UserId) -> int {
        choose|i: int|
            0 <= i < self.conversations.len() && (#[trigger] self.conversations[i]).user_a
                == spec_convo_key(a, b).0 && self.conversations[i].user_b == spec_convo_key(a, b).1
    }

    /// The messages between two accounts, in arrival order; empty when the
    /// two never exchanged one. The same in both directions.
    pub open spec fn conversation_of(self, a: UserId, b: UserId) -> Seq<MessageView> {
        if self.has_conversation(a, b) {
            self.conversations[self.conversation_idx(a, b)].messages
        } else {
            Seq::<MessageView>::empty()
        }
    }

    /// Well-formed: each conversation pairs two distinct accounts in
    /// ascending order, no pair appears twice, every message travels between
    /// its conversation's two accounts, and message identifiers are
    /// positive, within the counter, and never repeat.
    pub open spec fn wf(self) -> bool {
        &&& forall|i: int|
            0 <= i < self.conversations.len() ==> (#[trigger] self.conversations[i]).user_a
                < self.conversations[i].user_b
        &&& forall|i: int, j: int|
            0 <= i < j < self.conversations.len() ==> !((#[trigger] self.conversations[i]).user_a
                == (#[trigger] self.conversations[j]).user_a && self.conversations[i].user_b
                == self.conversations[j].user_b)
        &&& forall|i: int, mi: int|
            0 <= i < self.conversations.len() && 0 <= mi < self.conversations[i].messages.len()
                ==> ((#[trigger] self.conversations[i].messages[mi]).from
                == self.conversations[i].user_a && self.conversations[i].messages[mi].to
                == self.conversations[i].user_b) || (self.conversations[i].messages[mi].from
                == self.conversations[i].user_b && self.conversations[i].messages[mi].to
                == self.conversations[i].user_a)
        &&& forall|i: int, mi: int|
            0 <= i < self.conversations.len() && 0 <= mi < self.conversations[i].messages.len()
                ==> 0 < (#[trigger] self.conversations[i].messages[mi]).id <= self.counter
        &&& forall|i: int, mi: int, j: int, mj: int|
            0 <= i < self.conversations.len() && 0 <= mi < self.conversations[i].messages.len() && 0
                <= j < self.conversations.len() && 0 <= mj < self.conversations[j].messages.len()
                && (i != j || mi != mj) ==> (#[trigger] self.conversations[i].messages[mi]).id != (
            #[trigger] self.conversations[j].messages[mj]).id
    }
}

/// Owns the conversations and the counter that numbers messages.
pub struct MessageStore {
    pub conversations: Vec<Conversation>,
    pub message_counter: u64,
}

impl View for MessageStore {
    type V = MessageStoreView;

    open spec fn view(&self) -> MessageStoreView {
        MessageStoreView {
            conversations: conversation_views(self.conversations@),
            counter: self.message_counter,
        }
    }
}

/// Messaging is permitted exactly when at least one side follows the other.
pub fn can_message(users: &UserDirectory, a: UserId, b: UserId) -> (r: bool)
    requires
        users@.wf(),
    ensures
        r == (users@.follows(a, b) || users@.follows(b, a)),
{
    users.can_dm(a, b)
}

impl MessageStore {
    /// A store with no conversations and no identifiers handed out yet.
    pub fn new() -> (r: MessageStore)
        ensures
            r@.wf(),
            r@.conversations == Seq::<ConversationView>::empty(),
            r@.counter == 0,
    {
        let r = MessageStore { conversations: Vec::new(), message_counter: 0 };
        proof {
            assert(r@.conversations =~= Seq::<ConversationView>::empty());
        }
        r
    }

    /// Hands out the next message identifier.
    pub fn next_message_id(&mut self) -> (id: u64)
        requires
            old(self).message_counter < u64::MAX,
        ensures
            id == old(self)@.counter + 1,
            final(self)@.counter == id,
            final(self)@.conversations == old(self)@.conversations,
    {
        self.message_counter = self.message_counter + 1;
        self.message_counter
    }

    /// The position of the conversation with this canonical pair, if any.
    fn find_conversation_index(&self, a: UserId, b: UserId) -> (r: Option<usize>)
        ensures
            match r {
                Some(i) => i < self@.conversations.len() && self@.conversations[i as int].user_a
                    == spec_convo_key(a, b).0 && self@.conversations[i as int].user_b
                    == spec_convo_key(a, b).1,
                None => !self@.has_conversation(a, b),
            },
    {
        let (ka, kb) = convo_key(a, b);
        let n = self.conversations.len();
        for i in 0..n
            invariant
                n == self.conversations.len(),
                (ka, kb) == spec_convo_key(a, b),
                forall|t: int|
                    0 <= t < i ==> !((#[trigger] self@.conversations[t]).user_a == ka
                        && self@.conversations[t].user_b == kb),
        {
            if self.conversations[i].user_a == ka && self.conversations[i].user_b == kb {
                return Some(i);
            }
        }
        None
    }

    /// Sends a direct message. Both accounts must exist, and at least one
    /// must follow the other; the receiver is told.
    pub fn send_message(
        &mut self,
        users: &UserDirectory,
        nc: &mut NotificationCenter,
        from: UserId,
        to: UserId,
        content: String,
        now: Timestamp,
    ) -> (r: Result<Message, SocialError>)
        requires
            old(self)@.wf(),
            users@.wf(),
            old(nc)@.wf(),
            old(self).message_counter < u64::MAX,
            old(nc).notification_counter < u64::MAX,
        ensures
            final(self)@.wf(),
            final(nc)@.wf(),
            match r {
                Err(SocialError::EmptyContent) => trim_of(content@).len() == 0 && final(self)@
                    == old(self)@ && final(nc)@ == old(nc)@,
                Err(SocialError::SenderNotRegistered) => trim_of(content@).len() != 0
                    && !users@.has_user(from) && final(self)@ == old(self)@ && final(nc)@ == old(nc)@,
                Err(SocialError::ReceiverNotFound) => trim_of(content@).len() != 0
                    && users@.has_user(from) && !users@.has_user(to) && final(self)@ == old(self)@
                    && final(nc)@ == old(nc)@,
                Err(SocialError::NotAllowed) => trim_of(content@).len() != 0 && users@.has_user(
                    from,
                ) && users@.has_user(to) && !(users@.follows(from, to) || users@.follows(to, from))
                    && final(self)@ == old(self)@ && final(nc)@ == old(nc)@,
                Ok(m) => trim_of(content@).len() != 0 && users@.has_user(from) && users@.has_user(
                    to,
                ) && (users@.follows(from, to) || users@.follows(to, from)) && m@ == (MessageView {
                    id: (old(self)@.counter + 1) as u64,
                    from,
                    to,
                    content: content@,
                    created_at: now,
                    seen: false,
                }) && final(self)@.counter == old(self)@.counter + 1 && (if old(self)@.has_conversation(from, to) {
                    final(self)@.conversations == old(self)@.conversations.update(
                        old(self)@.conversation_idx(from, to),
                        (ConversationView {
                            messages: old(self)@.conversation_of(from, to).push(m@),
                            ..old(self)@.conversations[old(self)@.conversation_idx(from, to)]
                        }),
                    )
                } else {
                    final(self)@.conversations == old(self)@.conversations.push(
                        (ConversationView {
                            user_a: spec_convo_key(from, to).0,
                            user_b: spec_convo_key(from, to).1,
                            messages: seq![m@],
                        }),
                    )
                }) && notified(
                    old(nc)@,
                    final(nc)@,
                    from,
                    to,
                    NotificationType::Message,
                    message_text(),
                    now,
                ),
                _ => false,
            },
    {
        if is_blank(content.as_str()) {
            return Err(SocialError::EmptyContent);
        }
        if !users.contains_user(from) {
            return Err(SocialError::SenderNotRegistered);
        }
        if !users.contains_user(to) {
            return Err(SocialError::ReceiverNotFound);
        }
        if !users.can_dm(from, to) {
            return Err(SocialError::NotAllowed);
        }
        proof {
            assert(from != to) by {
                if from == to {
                    let i = users@.user_idx(from);
                    assert(!users@.users[i].following.contains(users@.users[i].id));
                }
            }
        }
        let id = self.next_message_id();
        let msg = Message { id, from, to, content, created_at: now, seen: false };
        let stored = msg.clone();
        match self.find_conversation_index(from, to) {
            Some(ci) => {
                proof {
                    lemma_conversation_idx_found(old(self)@, from, to, ci as int);
                }
                self.conversations[ci].messages.push(stored);
                proof {
                    assert(self@.conversations[ci as int].messages =~= old(self)@.conversations[ci as int].messages.push(msg@));
                    assert(self@.conversations =~= old(self)@.conversations.update(
                        ci as int,
                        (ConversationView {
                            messages: old(self)@.conversation_of(from, to).push(msg@),
                            ..old(self)@.conversations[ci as int]
                        }),
                    ));
                    lemma_send_existing_preserves_wf(old(self)@, self@, ci as int, msg@);
                }
            },
            None => {
                let conv = Conversation {
                    user_a: convo_key(from, to).0,
                    user_b: convo_key(from, to).1,
                    messages: Vec::new(),
                };
                let mut conv = conv;
                conv.messages.push(stored);
                self.conversations.push(conv);
                proof {
                    let ghost n0 = old(self)@.conversations.len() as int;
                    assert(self@.conversations[n0].messages =~= seq![msg@]);
                    assert(self@.conversations[n0] =~= (ConversationView {
                        user_a: spec_convo_key(from, to).0,
                        user_b: spec_convo_key(from, to).1,
                        messages: seq![msg@],
                    }));
                    assert(self@.conversations =~= old(self)@.conversations.push(
                        (ConversationView {
                            user_a: spec_convo_key(from, to).0,
                            user_b: spec_convo_key(from, to).1,
                            messages: seq![msg@],
                        }),
                    ));
                    lemma_send_new_preserves_wf(old(self)@, self@, from, to, msg@);
                }
            },
        }
        nc.add_notification_internal(
            from,
            to,
            NotificationType::Message,
            ("sent you a message").to_owned(),
            now,
        );
        Ok(msg)
    }

    /// The full conversation between two accounts, oldest first; the same
    /// list whichever of the two asks.
    pub fn get_conversation(&self, me: UserId, with_user: UserId) -> (r: Vec<Message>)
        requires
            self@.wf(),
        ensures
            message_views(r@).to_multiset() == self@.conversation_of(me, with_user).to_multiset(),
            messages_sorted(message_views(r@)),
    {
        let mut batch: Vec<Message> = Vec::new();
        match self.find_conversation_index(me, with_user) {
            Some(ci) => {
                proof {
                    lemma_conversation_idx_found(self@, me, with_user, ci as int);
                    assert(message_views(batch@) =~= message_views(
                        self.conversations@[ci as int].messages@.take(0),
                    ));
                }
                let n = self.conversations[ci].messages.len();
                for mi in 0..n
                    invariant
                        ci < self.conversations.len(),
                        n == self.conversations[ci as int].messages.len(),
                        message_views(batch@) =~= message_views(
                            self.conversations@[ci as int].messages@.take(mi as int),
                        ),
                {
                    let m = self.conversations[ci].messages[mi].clone();
                    let ghost before = batch@;
                    batch.push(m);
                    proof {
                        assert(message_views(batch@) =~= message_views(before).push(m@));
                        assert(message_views(batch@) =~= message_views(
                            self.conversations@[ci as int].messages@.take(mi + 1),
                        ));
                    }
                }
                proof {
                    assert(self.conversations@[ci as int].messages@.take(n as int) =~= self
                        .conversations@[ci as int].messages@);
                    assert(message_views(batch@) =~= self@.conversation_of(me, with_user));
                }
            },
            None => {
                proof {
                    assert(message_views(batch@) =~= Seq::<MessageView>::empty());
                    assert(self@.conversation_of(me, with_user) =~= Seq::<MessageView>::empty());
                }
            },
        }
        sort_messages(batch)
    }

    /// Marks messages the peer sent to the viewer, up to the given id, as
    /// seen. Everything else in the conversation stays untouched.
    pub fn mark_seen(&mut self, viewer: UserId, with_user: UserId, last_id: u64) -> (r: Result<
        (),
        SocialError,
    >)
        requires
            old(self)@.wf(),
        ensures
            final(self)@.wf(),
            final(self)@.counter == old(self)@.counter,
            match r {
                Err(SocialError::NoConversation) => !old(self)@.has_conversation(viewer, with_user)
                    && final(self)@ == old(self)@,
                Ok(()) => {
                    let ci = old(self)@.conversation_idx(viewer, with_user);
                    &&& old(self)@.has_conversation(viewer, with_user)
                    &&& final(self)@.conversations.len() == old(self)@.conversations.len()
                    &&& forall|i: int|
                        0 <= i < old(self)@.conversations.len() && i != ci ==> final(self)@.conversations[i] == old(self)@.conversations[i]
                    &&& final(self)@.conversations[ci].user_a == old(self)@.conversations[ci].user_a
                    &&& final(self)@.conversations[ci].user_b == old(self)@.conversations[ci].user_b
                    &&& final(self)@.conversations[ci].messages.len() == old(self)@.conversations[ci].messages.len()
                    &&& forall|mi: int|
                        0 <= mi < old(self)@.conversations[ci].messages.len() ==> final(self)@.conversations[ci].messages[mi] == mark_entry(
                            #[trigger] old(self)@.conversations[ci].messages[mi],
                            viewer,
                            with_user,
                            last_id,
                        )
                },
                _ => false,
            },
    {
        let ci = match self.find_conversation_index(viewer, with_user) {
            Some(ci) => ci,
            None => {
                return Err(SocialError::NoConversation);
            },
        };
        proof {
            lemma_conversation_idx_found(old(self)@, viewer, with_user, ci as int);
        }
        let n = self.conversations[ci].messages.len();
        for mi in 0..n
            invariant
                ci < self.conversations.len(),
                n == self.conversations[ci as int].messages.len(),
                self@.conversations.len() == old(self)@.conversations.len(),
                self@.counter == old(self)@.counter,
                forall|i: int|
                    0 <= i < old(self)@.conversations.len() && i != ci as int ==> self@.conversations[i]
                        == old(self)@.conversations[i],
                self@.conversations[ci as int].user_a == old(self)@.conversations[ci as int].user_a,
                self@.conversations[ci as int].user_b == old(self)@.conversations[ci as int].user_b,
                self@.conversations[ci as int].messages.len() == old(self)@.conversations[ci as int].messages.len(),
                forall|t: int|
                    0 <= t < mi ==> self@.conversations[ci as int].messages[t] == mark_entry(
                        #[trigger] old(self)@.conversations[ci as int].messages[t],
                        viewer,
                        with_user,
                        last_id,
                    ),
                forall|t: int|
                    mi <= t < n ==> self@.conversations[ci as int].messages[t] == old(self)@.conversations[ci as int].messages[t],
        {
            let hit = self.conversations[ci].messages[mi].to == viewer
                && self.conversations[ci].messages[mi].from == with_user
                && self.conversations[ci].messages[mi].id <= last_id;
            if hit {
                self.conversations[ci].messages[mi].seen = true;
            }
        }
        proof {
            lemma_mark_seen_preserves_wf(old(self)@, self@, ci as int);
        }
        Ok(())
    }

    /// The accounts this viewer has a conversation with; each appears once.
    pub fn get_inbox(&self, viewer: UserId) -> (r: Vec<UserId>)
        requires
            self@.wf(),
        ensures
            r@ == inbox_of(self@.conversations, viewer),
            no_dups(r@),
    {
        let mut out: Vec<UserId> = Vec::new();
        let n = self.conversations.len();
        proof {
            assert(self@.conversations.take(0) =~= Seq::<ConversationView>::empty());
            assert(out@ =~= inbox_of(self@.conversations.take(0), viewer));
        }
        for i in 0..n
            invariant
                n == self.conversations.len(),
                self@.wf(),
                out@ =~= inbox_of(self@.conversations.take(i as int), viewer),
                forall|t: int| #![trigger out@[t]]
                    0 <= t < out@.len() ==> exists|j: int|
                        0 <= j < i && conv_peer(#[trigger] self@.conversations[j], viewer)
                            == Option::Some(out@[t]),
                no_dups(out@),
        {
            let ca = self.conversations[i].user_a;
            let cb = self.conversations[i].user_b;
            let mut peer: Option<UserId> = Option::None;
            if ca == viewer {
                peer = Option::Some(cb);
            } else if cb == viewer {
                peer = Option::Some(ca);
            }
            if let Option::Some(p) = peer {
                let ghost before = out@;
                out.push(p);
                proof {
                    assert(conv_peer(self@.conversations[i as int], viewer) == Option::Some(p));
                    assert(no_dups(out@)) by {
                        assert forall|t1: int, t2: int|
                            0 <= t1 < t2 < out@.len() implies out@[t1] != out@[t2] by {
                            if t2 == out@.len() - 1 {
                                assert(out@[t1] == before[t1]);
                                if before[t1] == p {
                                    let j = choose|j: int|
                                        0 <= j < i && conv_peer(
                                            #[trigger] self@.conversations[j],
                                            viewer,
                                        ) == Option::Some(before[t1]);
                                    lemma_same_peer_same_conversation(
                                        self@,
                                        j,
                                        i as int,
                                        viewer,
                                        p,
                                    );
                                }
                            } else {
                                assert(out@[t1] == before[t1]);
                                assert(out@[t2] == before[t2]);
                            }
                        }
                    }
                    assert forall|t: int| #![trigger out@[t]] 0 <= t < out@.len() implies exists|
                        j: int,
                    |
                        0 <= j < i + 1 && conv_peer(#[trigger] self@.conversations[j], viewer)
                            == Option::Some(out@[t]) by {
                        if t < out@.len() - 1 {
                            let j = choose|j: int|
                                0 <= j < i && conv_peer(#[trigger] self@.conversations[j], viewer)
                                    == Option::Some(before[t]);
                            assert(conv_peer(self@.conversations[j], viewer) == Option::Some(
                                out@[t],
                            ));
                        } else {
                            assert(conv_peer(self@.conversations[i as int], viewer)
                                == Option::Some(out@[t]));
                        }
                    }
                }
            }
            proof {
                assert(self@.conversations.take(i + 1).drop_last() =~= self@.conversations.take(
                    i as int,
                ));
                assert(self@.conversations.take(i + 1).last() == self@.conversations[i as int]);
                assert(out@ =~= inbox_of(self@.conversations.take(i + 1), viewer));
            }
        }
        proof {
            assert(self@.conversations.take(n as int) =~= self@.conversations);
        }
        out
    }
}

/// In a well-formed store the index found by a linear scan is the index the
/// model speaks of.
proof fn lemma_conversation_idx_found(v: MessageStoreView, a: UserId, b: UserId, i: int)
    requires
        v.wf(),
        0 <= i < v.conversations.len(),
        v.conversations[i].user_a == spec_convo_key(a, b).0,
        v.conversations[i].user_b == spec_convo_key(a, b).1,
    ensures
        v.has_conversation(a, b),
        v.conversation_idx(a, b) == i,
        v.conversation_of(a, b) == v.conversations[i].messages,
{
    assert(v.has_conversation(a, b));
    let j = v.conversation_idx(a, b);
    if i != j {
        if i < j {
            assert(!(v.conversations[i].user_a == v.conversations[j].user_a
                && v.conversations[i].user_b == v.conversations[j].user_b));
        } else {
            assert(!(v.conversations[j].user_a == v.conversations[i].user_a
                && v.conversations[j].user_b == v.conversations[i].user_b));
        }
    }
}

/// Two conversations that give one viewer the same peer are the same
/// conversation.
proof fn lemma_same_peer_same_conversation(
    v: MessageStoreView,
    i: int,
    j: int,
    viewer: UserId,
    p: UserId,
)
    requires
        v.wf(),
        0 <= i < v.conversations.len(),
        0 <= j < v.conversations.len(),
        conv_peer(v.conversations[i], viewer) == Option::Some(p),
        conv_peer(v.conversations[j], viewer) == Option::Some(p),
    ensures
        i == j,
{
    if i != j {
        let ci = v.conversations[i];
        let cj = v.conversations[j];
        assert(ci.user_a < ci.user_b);
        assert(cj.user_a < cj.user_b);
        if i < j {
            assert(!(ci.user_a == cj.user_a && ci.user_b == cj.user_b));
        } else {
            assert(!(cj.user_a == ci.user_a && cj.user_b == ci.user_b));
        }
    }
}

/// Appending a freshly numbered message between a conversation's own two
/// accounts keeps the store well-formed.
proof fn lemma_send_existing_preserves_wf(
    pre: MessageStoreView,
    post: MessageStoreView,
    ci: int,
    m: MessageView,
)
    requires
        pre.wf(),
        0 <= ci < pre.conversations.len(),
        m.id == pre.counter + 1,
        pre.counter < u64::MAX,
        (m.from == pre.conversations[ci].user_a && m.to == pre.conversations[ci].user_b) || (m.from
            == pre.conversations[ci].user_b && m.to == pre.conversations[ci].user_a),
        post.conversations == pre.conversations.update(
            ci,
            (ConversationView {
                messages: pre.conversations[ci].messages.push(m),
                ..pre.conversations[ci]
            }),
        ),
        post.counter == pre.counter + 1,
    ensures
        post.wf(),
{
    assert forall|i: int| 0 <= i < post.conversations.len() implies (
    #[trigger] post.conversations[i]).user_a == pre.conversations[i].user_a
        && post.conversations[i].user_b == pre.conversations[i].user_b by {
        if i != ci {
            assert(post.conversations[i] == pre.conversations[i]);
        }
    }
    assert forall|i: int, mi: int|
        0 <= i < post.conversations.len() && 0 <= mi
            < post.conversations[i].messages.len() implies {
        &&& ((#[trigger] post.conversations[i].messages[mi]).from == post.conversations[i].user_a
            && post.conversations[i].messages[mi].to == post.conversations[i].user_b) || (
        post.conversations[i].messages[mi].from == post.conversations[i].user_b
            && post.conversations[i].messages[mi].to == post.conversations[i].user_a)
        &&& 0 < post.conversations[i].messages[mi].id <= post.counter
    } by {
        if i != ci {
            assert(post.conversations[i] == pre.conversations[i]);
        } else {
            if mi < pre.conversations[ci].messages.len() {
                assert(post.conversations[i].messages[mi] == pre.conversations[ci].messages[mi]);
            } else {
                assert(post.conversations[i].messages[mi] == m);
            }
        }
    }
    assert forall|i: int, mi: int, j: int, mj: int|
        0 <= i < post.conversations.len() && 0 <= mi < post.conversations[i].messages.len() && 0
            <= j < post.conversations.len() && 0 <= mj < post.conversations[j].messages.len() && (i
            != j || mi != mj) implies (#[trigger] post.conversations[i].messages[mi]).id != (
    #[trigger] post.conversations[j].messages[mj]).id by {
        let new_i = i == ci && mi == pre.conversations[ci].messages.len();
        let new_j = j == ci && mj == pre.conversations[ci].messages.len();
        if i != ci {
            assert(post.conversations[i] == pre.conversations[i]);
        }
        if j != ci {
            assert(post.conversations[j] == pre.conversations[j]);
        }
        if new_i && new_j {
            assert(i == j && mi == mj);
        } else if new_i {
            assert(post.conversations[i].messages[mi] == m);
            assert(post.conversations[j].messages[mj] == pre.conversations[j].messages[mj]);
            assert(pre.conversations[j].messages[mj].id <= pre.counter);
        } else if new_j {
            assert(post.conversations[j].messages[mj] == m);
            assert(post.conversations[i].messages[mi] == pre.conversations[i].messages[mi]);
            assert(pre.conversations[i].messages[mi].id <= pre.counter);
        } else {
            assert(post.conversations[i].messages[mi] == pre.conversations[i].messages[mi]);
            assert(post.conversations[j].messages[mj] == pre.conversations[j].messages[mj]);
        }
    }
}

/// Opening a new conversation for a pair that had none, with one freshly
/// numbered message, keeps the store well-formed.
proof fn lemma_send_new_preserves_wf(
    pre: MessageStoreView,
    post: MessageStoreView,
    from: UserId,
    to: UserId,
    m: MessageView,
)
    requires
        pre.wf(),
        !pre.has_conversation(from, to),
        from != to,
        m.id == pre.counter + 1,
        pre.counter < u64::MAX,
        m.from == from,
        m.to == to,
        post.conversations == pre.conversations.push(
            (ConversationView {
                user_a: spec_convo_key(from, to).0,
                user_b: spec_convo_key(from, to).1,
                messages: seq![m],
            }),
        ),
        post.counter == pre.counter + 1,
    ensures
        post.wf(),
{
    let n = pre.conversations.len() as int;
    let c = post.conversations[n];
    assert(c.user_a < c.user_b);
    assert forall|i: int, j: int|
        0 <= i < j < post.conversations.len() implies !((#[trigger] post.conversations[i]).user_a
        == (#[trigger] post.conversations[j]).user_a && post.conversations[i].user_b
        == post.conversations[j].user_b) by {
        if j == n {
            assert(post.conversations[i] == pre.conversations[i]);
            if pre.conversations[i].user_a == c.user_a && pre.conversations[i].user_b == c.user_b {
                assert(pre.has_conversation(from, to));
            }
        } else {
            assert(post.conversations[i] == pre.conversations[i]);
            assert(post.conversations[j] == pre.conversations[j]);
        }
    }
    assert forall|i: int, mi: int|
        0 <= i < post.conversations.len() && 0 <= mi
            < post.conversations[i].messages.len() implies {
        &&& ((#[trigger] post.conversations[i].messages[mi]).from == post.conversations[i].user_a
            && post.conversations[i].messages[mi].to == post.conversations[i].user_b) || (
        post.conversations[i].messages[mi].from == post.conversations[i].user_b
            && post.conversations[i].messages[mi].to == post.conversations[i].user_a)
        &&& 0 < post.conversations[i].messages[mi].id <= post.counter
    } by {
        if i < n {
            assert(post.conversations[i] == pre.conversations[i]);
        } else {
            assert(post.conversations[i].messages[mi] == m);
        }
    }
    assert forall|i: int, mi: int, j: int, mj: int|
        0 <= i < post.conversations.len() && 0 <= mi < post.conversations[i].messages.len() && 0
            <= j < post.conversations.len() && 0 <= mj < post.conversations[j].messages.len() && (i
            != j || mi != mj) implies (#[trigger] post.conversations[i].messages[mi]).id != (
    #[trigger] post.conversations[j].messages[mj]).id by {
        if i < n {
            assert(post.conversations[i] == pre.conversations[i]);
        }
        if j < n {
            assert(post.conversations[j] == pre.conversations[j]);
        }
        if i == n && j == n {
            assert(mi == 0 && mj == 0);
        } else if i == n {
            assert(pre.conversations[j].messages[mj].id <= pre.counter);
        } else if j == n {
            assert(pre.conversations[i].messages[mi].id <= pre.counter);
        }
    }
}

/// Turning `seen` flags on, and changing nothing else, keeps the store
/// well-formed.
proof fn lemma_mark_seen_preserves_wf(pre: MessageStoreView, post: MessageStoreView, ci: int)
    requires
        pre.wf(),
        0 <= ci < pre.conversations.len(),
        post.counter == pre.counter,
        post.conversations.len() == pre.conversations.len(),
        forall|i: int|
            0 <= i < pre.conversations.len() && i != ci ==> post.conversations[i]
                == pre.conversations[i],
        post.conversations[ci].user_a == pre.conversations[ci].user_a,
        post.conversations[ci].user_b == pre.conversations[ci].user_b,
        post.conversations[ci].messages.len() == pre.conversations[ci].messages.len(),
        forall|mi: int|
            0 <= mi < pre.conversations[ci].messages.len() ==> {
                let a = #[trigger] post.conversations[ci].messages[mi];
                let b = pre.conversations[ci].messages[mi];
                a.id == b.id && a.from == b.from && a.to == b.to
            },
    ensures
        post.wf(),
{
    assert forall|i: int, mi: int|
        0 <= i < post.conversations.len() && 0 <= mi
            < post.conversations[i].messages.len() implies {
        &&& ((#[trigger] post.conversations[i].messages[mi]).from == post.conversations[i].user_a
            && post.conversations[i].messages[mi].to == post.conversations[i].user_b) || (
        post.conversations[i].messages[mi].from == post.conversations[i].user_b
            && post.conversations[i].messages[mi].to == post.conversations[i].user_a)
        &&& 0 < post.conversations[i].messages[mi].id <= post.counter
    } by {
        if i != ci {
            assert(post.conversations[i] == pre.conversations[i]);
        } else {
            assert(post.conversations[ci].messages[mi].id == pre.conversations[ci].messages[mi].id);
        }
    }
    assert forall|i: int, mi: int, j: int, mj: int|
        0 <= i < post.conversations.len() && 0 <= mi < post.conversations[i].messages.len() && 0
            <= j < post.conversations.len() && 0 <= mj < post.conversations[j].messages.len() && (i
            != j || mi != mj) implies (#[trigger] post.conversations[i].messages[mi]).id != (
    #[trigger] post.conversations[j].messages[mj]).id by {
        if i != ci {
            assert(post.conversations[i] == pre.conversations[i]);
        } else {
            assert(post.conversations[i].messages[mi].id == pre.conversations[i].messages[mi].id);
        }
        if j != ci {
            assert(post.conversations[j] == pre.conversations[j]);
        } else {
            assert(post.conversations[j].messages[mj].id == pre.conversations[j].messages[mj].id);
        }
        assert(pre.conversations[i].messages[mi].id != pre.conversations[j].messages[mj].id);
    }
    assert forall|i: int| 0 <= i < post.conversations.len() implies (
    #[trigger] post.conversations[i]).user_a < post.conversations[i].user_b by {
        if i != ci {
            assert(post.conversations[i] == pre.conversations[i]);
        }
    }
    assert forall|i: int, j: int|
        0 <= i < j < post.conversations.len() implies !((#[trigger] post.conversations[i]).user_a
        == (#[trigger] post.conversations[j]).user_a && post.conversations[i].user_b
        == post.conversations[j].user_b) by {
        if i != ci {
            assert(post.conversations[i] == pre.conversations[i]);
        }
        if j != ci {
            assert(post.conversations[j] == pre.conversations[j]);
        }
    }
}

/// The canonical key does not care which account is named first.
pub proof fn lemma_convo_key_symmetric(a: UserId, b: UserId)
    ensures
        spec_convo_key(a, b) == spec_convo_key(b, a),
{
}

/// The stored conversation between two accounts is one and the same
/// whichever of the two is named first.
pub proof fn lemma_conversation_of_symmetric(v: MessageStoreView, a: UserId, b: UserId)
    requires
        v.wf(),
    ensures
        v.conversation_of(a, b) == v.conversation_of(b, a),
{
    lemma_convo_key_symmetric(a, b);
    assert(v.has_conversation(a, b) <==> v.has_conversation(b, a)) by {
        if v.has_conversation(a, b) {
            let i = v.conversation_idx(a, b);
            assert((#[trigger] v.conversations[i]).user_a == spec_convo_key(b, a).0
                && v.conversations[i].user_b == spec_convo_key(b, a).1);
        }
        if v.has_conversation(b, a) {
            let i = v.conversation_idx(b, a);
            assert((#[trigger] v.conversations[i]).user_a == spec_convo_key(a, b).0
                && v.conversations[i].user_b == spec_convo_key(a, b).1);
        }
    }
    if v.has_conversation(a, b) {
        let i = v.conversation_idx(a, b);
        let j = v.conversation_idx(b, a);
        if i != j {
            if i < j {
                assert(!(v.conversations[i].user_a == v.conversations[j].user_a
                    && v.conversations[i].user_b == v.conversations[j].user_b));
            } else {
                assert(!(v.conversations[j].user_a == v.conversations[i].user_a
                    && v.conversations[j].user_b == v.conversations[i].user_b));
            }
        }
    }
}

/// In a well-formed store no message identifier repeats within one
/// conversation.
pub proof fn lemma_conversation_ids_unique(v: MessageStoreView, a: UserId, b: UserId)
    requires
        v.wf(),
    ensures
        forall|i: int, j: int|
            0 <= i < j < v.conversation_of(a, b).len() ==> (#[trigger] v.conversation_of(a, b)[i]).id
                != (#[trigger] v.conversation_of(a, b)[j]).id,
{
    if v.has_conversation(a, b) {
        let ci = v.conversation_idx(a, b);
        assert forall|i: int, j: int|
            0 <= i < j < v.conversation_of(a, b).len() implies (#[trigger] v.conversation_of(
            a,
            b,
        )[i]).id != (#[trigger] v.conversation_of(a, b)[j]).id by {
            assert(v.conversation_of(a, b)[i] == v.conversations[ci].messages[i]);
            assert(v.conversation_of(a, b)[j] == v.conversations[ci].messages[j]);
        }
    }
}

/// Two listings that are both sorted, carry the same messages, and repeat
/// no identifier are the same listing.
pub proof fn lemma_sorted_messages_unique(x: Seq<MessageView>, y: Seq<MessageView>)
    requires
        messages_sorted(x),
        messages_sorted(y),
        x.to_multiset() == y.to_multiset(),
        forall|i: int, j: int| 0 <= i < j < x.len() ==> (#[trigger] x[i]).id != (#[trigger] x[j]).id,
    ensures
        x == y,
    decreases x.len(),
{
    broadcast use vstd::seq_lib::group_to_multiset_ensures;

    if x.len() == 0 {
        assert(x.len() == x.to_multiset().len());
        assert(y.len() == y.to_multiset().len());
        assert(y.len() == 0);
        assert(x =~= y);
    } else {
        assert(x.len() == x.to_multiset().len());
        assert(y.len() == y.to_multiset().len());
        assert(y.len() == x.len());
        assert(x.contains(x[0]));
        assert(y.to_multiset().count(x[0]) > 0);
        assert(y.contains(x[0]));
        let iy = choose|i: int| 0 <= i < y.len() && y[i] == x[0];
        assert(message_before_eq(y[0], x[0])) by {
            if iy > 0 {
                assert(message_before_eq(y[0], y[iy]));
            }
        }
        assert(y.contains(y[0])) by {
            assert(y[0] == y[0]);
        }
        assert(x.to_multiset().count(y[0]) > 0);
        assert(x.contains(y[0]));
        let ix = choose|i: int| 0 <= i < x.len() && x[i] == y[0];
        assert(message_before_eq(x[0], y[0])) by {
            if ix > 0 {
                assert(message_before_eq(x[0], x[ix]));
            }
        }
        assert(x[0].created_at == y[0].created_at && x[0].id == y[0].id);
        assert(ix == 0) by {
            if ix != 0 {
                assert(x[0].id != x[ix].id);
            }
        }
        assert(x[0] == y[0]);
        let xt = x.drop_first();
        let yt = y.drop_first();
        assert(x.remove(0) =~= xt);
        assert(y.remove(0) =~= yt);
        assert(xt.to_multiset() == x.to_multiset().remove(x[0]));
        assert(yt.to_multiset() == y.to_multiset().remove(y[0]));
        assert(xt.to_multiset() == yt.to_multiset());
        assert forall|i: int, j: int|
            0 <= i < j < xt.len() implies (#[trigger] xt[i]).id != (#[trigger] xt[j]).id by {
            assert(xt[i] == x[i + 1] && xt[j] == x[j + 1]);
        }
        assert(messages_sorted(xt)) by {
            assert forall|i: int, j: int|
                0 <= i < j < xt.len() implies message_before_eq(#[trigger] xt[i], #[trigger] xt[j]) by {
                assert(xt[i] == x[i + 1] && xt[j] == x[j + 1]);
            }
        }
        assert(messages_sorted(yt)) by {
            assert forall|i: int, j: int|
                0 <= i < j < yt.len() implies message_before_eq(#[trigger] yt[i], #[trigger] yt[j]) by {
                assert(yt[i] == y[i + 1] && yt[j] == y[j + 1]);
            }
        }
        lemma_sorted_messages_unique(xt, yt);
        assert(x =~= y) by {
            assert forall|i: int| 0 <= i < x.len() implies x[i] == y[i] by {
                if i > 0 {
                    assert(xt[i - 1] == yt[i - 1]);
                }
            }
        }
    }
}

/// The conversation between two accounts reads the same whichever account
/// asks: any two listings that satisfy the reading contract for the two
/// directions are equal.
pub proof fn lemma_conversation_symmetry(
    v: MessageStoreView,
    a: UserId,
    b: UserId,
    x: Seq<MessageView>,
    y: Seq<MessageView>,
)
    requires
        v.wf(),
        messages_sorted(x),
        x.to_multiset() == v.conversation_of(a, b).to_multiset(),
        messages_sorted(y),
        y.to_multiset() == v.conversation_of(b, a).to_multiset(),
    ensures
        x == y,
{
    broadcast use vstd::seq_lib::group_to_multiset_ensures;

    lemma_conversation_of_symmetric(v, a, b);
    lemma_conversation_ids_unique(v, a, b);
    assert forall|i: int, j: int|
        0 <= i < j < x.len() implies (#[trigger] x[i]).id != (#[trigger] x[j]).id by {
        lemma_multiset_seq_distinct_ids(x, v.conversation_of(a, b), i, j);
    }
    lemma_sorted_messages_unique(x, y);
}

/// Two positions of a sequence whose multiset matches one with distinct
/// identifiers hold distinct identifiers themselves.
proof fn lemma_multiset_seq_distinct_ids(x: Seq<MessageView>, s: Seq<MessageView>, i: int, j: int)
    requires
        x.to_multiset() == s.to_multiset(),
        forall|p: int, q: int| 0 <= p < q < s.len() ==> (#[trigger] s[p]).id != (#[trigger] s[q]).id,
        0 <= i < j < x.len(),
    ensures
        x[i].id != x[j].id,
{
    broadcast use vstd::seq_lib::group_to_multiset_ensures;

    if x[i].id == x[j].id {
        if x[i] == x[j] {
            lemma_dup_count(x, i, j);
            assert(s.to_multiset().count(x[i]) >= 2);
            lemma_distinct_ids_count(s, x[i]);
        } else {
            assert(x.contains(x[i]));
            assert(s.to_multiset().count(x[i]) > 0);
            assert(s.contains(x[i]));
            assert(x.contains(x[j]));
            assert(s.to_multiset().count(x[j]) > 0);
            assert(s.contains(x[j]));
            let p = choose|p: int| 0 <= p < s.len() && s[p] == x[i];
            let q = choose|q: int| 0 <= q < s.len() && s[q] == x[j];
            assert(p != q);
            if p < q {
                assert(s[p].id != s[q].id);
            } else {
                assert(s[q].id != s[p].id);
            }
        }
    }
}

/// A value standing at two positions counts at least twice in the multiset.
proof fn lemma_dup_count(x: Seq<MessageView>, i: int, j: int)
    requires
        0 <= i < j < x.len(),
        x[i] == x[j],
    ensures
        x.to_multiset().count(x[i]) >= 2,
    decreases x.len(),
{
    broadcast use vstd::seq_lib::group_to_multiset_ensures;

    assert(x =~= x.drop_last().push(x.last()));
    if j == x.len() - 1 {
        assert(x.drop_last().contains(x[i])) by {
            assert(x.drop_last()[i] == x[i]);
        }
        assert(x.drop_last().to_multiset().count(x[i]) > 0);
        assert(x.to_multiset() =~= x.drop_last().to_multiset().insert(x.last()));
    } else {
        lemma_dup_count(x.drop_last(), i, j);
        assert(x.to_multiset() =~= x.drop_last().to_multiset().insert(x.last()));
        assert(x.to_multiset().count(x[i]) >= x.drop_last().to_multiset().count(
            x.drop_last()[i],
        ));
    }
}

/// Where no identifier repeats, no message occurs more than once.
proof fn lemma_distinct_ids_count(s: Seq<MessageView>, m: MessageView)
    requires
        forall|p: int, q: int| 0 <= p < q < s.len() ==> (#[trigger] s[p]).id != (#[trigger] s[q]).id,
    ensures
        s.to_multiset().count(m) <= 1,
    decreases s.len(),
{
    broadcast use vstd::seq_lib::group_to_multiset_ensures;

    if s.len() == 0 {
        assert(s.to_multiset().count(m) == 0) by {
            if s.to_multiset().count(m) > 0 {
                assert(s.contains(m));
            }
        }
    } else {
        let head = s.drop_last();
        assert forall|p: int, q: int|
            0 <= p < q < head.len() implies (#[trigger] head[p]).id != (#[trigger] head[q]).id by {
            assert(head[p] == s[p] && head[q] == s[q]);
        }
        lemma_distinct_ids_count(head, m);
        assert(s =~= head.push(s.last()));
        assert(s.to_multiset() =~= head.to_multiset().insert(s.last()));
        if s.last() == m {
            assert(head.to_multiset().count(m) == 0) by {
                if head.to_multiset().count(m) > 0 {
                    assert(head.contains(m));
                    let p = choose|p: int| 0 <= p < head.len() && head[p] == m;
                    assert(s[p] == m);
                    assert(s[p].id != s[s.len() - 1].id);
                }
            }
        }
    }
}

/// Sorts a batch of messages into conversation order: oldest creation time
/// first, lower id first among equal times.
fn sort_messages(v: Vec<Message>) -> (r: Vec<Message>)
    ensures
        message_views(r@).to_multiset() == message_views(v@).to_multiset(),
        messages_sorted(message_views(r@)),
{
    let mut out: Vec<Message> = Vec::new();
    let n = v.len();
    proof {
        assert(v@.take(0) =~= Seq::<Message>::empty());
        assert(message_views(out@) =~= message_views(v@.take(0)));
    }
    for i in 0..n
        invariant
            n == v.len(),
            message_views(out@).to_multiset() == message_views(v@.take(i as int)).to_multiset(),
            messages_sorted(message_views(out@)),
    {
        let x = v[i].clone();
        let mut j: usize = 0;
        while j < out.len() && (out[j].created_at < x.created_at || (out[j].created_at
            == x.created_at && out[j].id <= x.id))
            invariant
                j <= out.len(),
                forall|k: int| 0 <= k < j ==> message_before_eq(#[trigger] message_views(out@)[k], x@),
            decreases out.len() - j,
        {
            j += 1;
        }
        let ghost before = message_views(out@);
        out.insert(j, x);
        proof {
            broadcast use vstd::seq_lib::group_to_multiset_ensures;

            assert(message_views(out@) =~= before.insert(j as int, x@));
            assert(message_views(v@.take(i + 1)) =~= message_views(v@.take(i as int)).push(x@));
            assert forall|p: int, q: int|
                0 <= p < q < message_views(out@).len() implies message_before_eq(
                #[trigger] message_views(out@)[p],
                #[trigger] message_views(out@)[q],
            ) by {
                let nv = message_views(out@);
                if p < j && q == j {
                    assert(nv[p] == before[p]);
                } else if p == j && q > j {
                    assert(nv[q] == before[q - 1]);
                    assert(message_before_eq(x@, before[j as int]));
                    if q - 1 > j {
                        assert(message_before_eq(before[j as int], before[q - 1]));
                    }
                } else if p < j && q > j {
                    assert(nv[p] == before[p]);
                    assert(nv[q] == before[q - 1]);
                    assert(message_before_eq(before[p], x@));
                    assert(message_before_eq(x@, before[j as int]));
                } else if p > j && q > j {
                    assert(nv[p] == before[p - 1]);
                    assert(nv[q] == before[q - 1]);
                } else {
                    assert(nv[p] == before[p]);
                    assert(nv[q] == before[q]);
                }
            }
        }
    }
    proof {
        assert(v@.take(n as int) =~= v@);
    }
    out
}

} // verus!
