use social_backend::errors::SocialError;
use social_backend::message_store::{can_message, convo_key, MessageStore};
use social_backend::notifications::{NotificationCenter, NotificationType};
use social_backend::user_directory::UserDirectory;

fn setup() -> (UserDirectory, MessageStore, NotificationCenter) {
    let mut d = UserDirectory::new();
    let mut nc = NotificationCenter::new();
    for (id, name) in [(1u64, "Alice"), (2, "Bob"), (3, "Carol")] {
        d.register_user(
            id,
            name.to_string(),
            String::new(),
            String::new(),
            String::new(),
            1,
        )
        .unwrap();
    }
    d.follow_user(&mut nc, 1, 2, 2).unwrap();
    (d, MessageStore::new(), NotificationCenter::new())
}

#[test]
fn convo_key_is_canonical() {
    assert_eq!(convo_key(1, 2), (1, 2));
    assert_eq!(convo_key(2, 1), (1, 2));
    assert_eq!(convo_key(5, 5), (5, 5));
}

#[test]
fn can_message_either_direction() {
    let (d, _, _) = setup();
    assert!(can_message(&d, 1, 2));
    assert!(can_message(&d, 2, 1));
    assert!(!can_message(&d, 1, 3));
    assert!(!can_message(&d, 3, 2));
}

#[test]
fn send_message_appends_and_notifies() {
    let (d, mut ms, mut nc) = setup();
    let m = ms
        .send_message(&d, &mut nc, 1, 2, "hello".to_string(), 10)
        .unwrap();
    assert_eq!(m.id, 1);
    assert_eq!(m.from, 1);
    assert_eq!(m.to, 2);
    assert_eq!(m.content, "hello");
    assert!(!m.seen);
    assert_eq!(nc.notifications.len(), 1);
    assert_eq!(nc.notifications[0].kind, NotificationType::Message);
    assert_eq!(nc.notifications[0].receiver, 2);
    assert_eq!(nc.notifications[0].message, "sent you a message");
}

#[test]
fn send_message_errors_in_order() {
    let (d, mut ms, mut nc) = setup();
    assert_eq!(
        ms.send_message(&d, &mut nc, 1, 2, "  ".to_string(), 10)
            .unwrap_err(),
        SocialError::EmptyContent
    );
    assert_eq!(
        ms.send_message(&d, &mut nc, 9, 2, "hi".to_string(), 10)
            .unwrap_err(),
        SocialError::SenderNotRegistered
    );
    assert_eq!(
        ms.send_message(&d, &mut nc, 1, 9, "hi".to_string(), 10)
            .unwrap_err(),
        SocialError::ReceiverNotFound
    );
    assert_eq!(
        ms.send_message(&d, &mut nc, 3, 2, "hi".to_string(), 10)
            .unwrap_err(),
        SocialError::NotAllowed
    );
    assert!(nc.notifications.is_empty());
    assert!(ms.get_conversation(1, 2).is_empty());
}

#[test]
fn conversation_symmetry() {
    let (d, mut ms, mut nc) = setup();
    ms.send_message(&d, &mut nc, 1, 2, "one".to_string(), 10)
        .unwrap();
    ms.send_message(&d, &mut nc, 2, 1, "two".to_string(), 20)
        .unwrap();
    ms.send_message(&d, &mut nc, 1, 2, "three".to_string(), 15)
        .unwrap();
    let ab = ms.get_conversation(1, 2);
    let ba = ms.get_conversation(2, 1);
    assert_eq!(ab.len(), 3);
    assert_eq!(ab.len(), ba.len());
    for (x, y) in ab.iter().zip(ba.iter()) {
        assert_eq!(x.id, y.id);
        assert_eq!(x.content, y.content);
        assert_eq!(x.seen, y.seen);
    }
    let contents: Vec<&str> = ab.iter().map(|m| m.content.as_str()).collect();
    assert_eq!(contents, vec!["one", "three", "two"]);
}

#[test]
fn conversation_with_stranger_is_empty() {
    let (_, ms, _) = setup();
    assert!(ms.get_conversation(1, 3).is_empty());
    assert!(ms.get_conversation(4, 4).is_empty());
}

#[test]
fn mark_seen_bounds_and_direction() {
    let (d, mut ms, mut nc) = setup();
    ms.send_message(&d, &mut nc, 1, 2, "m1".to_string(), 10)
        .unwrap();
    ms.send_message(&d, &mut nc, 2, 1, "m2".to_string(), 11)
        .unwrap();
    ms.send_message(&d, &mut nc, 1, 2, "m3".to_string(), 12)
        .unwrap();
    ms.mark_seen(2, 1, 1).unwrap();
    let convo = ms.get_conversation(1, 2);
    assert!(convo[0].seen);
    assert!(!convo[1].seen);
    assert!(!convo[2].seen);
    ms.mark_seen(2, 1, 3).unwrap();
    let convo = ms.get_conversation(1, 2);
    assert!(convo[0].seen);
    assert!(!convo[1].seen);
    assert!(convo[2].seen);
    assert_eq!(
        ms.mark_seen(1, 3, 5).unwrap_err(),
        SocialError::NoConversation
    );
}

#[test]
fn inbox_lists_each_peer_once() {
    let (mut d, mut ms, mut nc) = setup();
    d.follow_user(&mut nc, 3, 1, 3).unwrap();
    ms.send_message(&d, &mut nc, 1, 2, "a".to_string(), 10)
        .unwrap();
    ms.send_message(&d, &mut nc, 1, 3, "b".to_string(), 11)
        .unwrap();
    ms.send_message(&d, &mut nc, 2, 1, "c".to_string(), 12)
        .unwrap();
    let mut inbox1 = ms.get_inbox(1);
    inbox1.sort();
    assert_eq!(inbox1, vec![2, 3]);
    assert_eq!(ms.get_inbox(2), vec![1]);
    assert_eq!(ms.get_inbox(3), vec![1]);
    assert!(ms.get_inbox(9).is_empty());
}

#[test]
fn next_message_id_counts_up() {
    let mut ms = MessageStore::new();
    assert_eq!(ms.next_message_id(), 1);
    assert_eq!(ms.next_message_id(), 2);
}
