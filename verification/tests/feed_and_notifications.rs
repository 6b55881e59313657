use social_backend::errors::SocialError;
use social_backend::feed::get_feed;
use social_backend::message_store::MessageStore;
use social_backend::notifications::{NotificationCenter, NotificationType};
use social_backend::post_store::PostStore;
use social_backend::user_directory::UserDirectory;

fn register(d: &mut UserDirectory, id: u64, name: &str) {
    d.register_user(
        id,
        name.to_string(),
        String::new(),
        String::new(),
        String::new(),
        1,
    )
    .unwrap();
}

#[test]
fn feed_shows_own_and_followed_posts() {
    let mut d = UserDirectory::new();
    let mut ps = PostStore::new();
    let mut nc = NotificationCenter::new();
    register(&mut d, 1, "Alice");
    register(&mut d, 2, "Bob");
    register(&mut d, 3, "Carol");
    d.follow_user(&mut nc, 1, 2, 2).unwrap();
    // Enough followed posts that no padding applies.
    for t in 0..6u64 {
        ps.create_post(&d, 2, format!("bob {t}"), None, None, 10 + t)
            .unwrap();
    }
    for t in 0..5u64 {
        ps.create_post(&d, 1, format!("alice {t}"), None, None, 20 + t)
            .unwrap();
    }
    for t in 0..4u64 {
        ps.create_post(&d, 3, format!("carol {t}"), None, None, 30 + t)
            .unwrap();
    }
    let feed = get_feed(&d, &ps, 1);
    assert_eq!(feed.len(), 11);
    for p in &feed {
        assert!(p.author == 1 || p.author == 2);
    }
    for w in feed.windows(2) {
        assert!(
            w[0].created_at > w[1].created_at
                || (w[0].created_at == w[1].created_at && w[0].id > w[1].id)
        );
    }
}

#[test]
fn short_feed_is_padded_from_corpus() {
    let mut d = UserDirectory::new();
    let mut ps = PostStore::new();
    register(&mut d, 1, "Alice");
    register(&mut d, 2, "Bob");
    // The viewer follows nobody and wrote nothing; 25 corpus posts exist.
    for t in 0..25u64 {
        ps.create_post(&d, 2, format!("post {t}"), None, None, 100 + t)
            .unwrap();
    }
    let feed = get_feed(&d, &ps, 1);
    // Padding takes the first 20 corpus posts in store order.
    assert_eq!(feed.len(), 20);
    let mut ids: Vec<u64> = feed.iter().map(|p| p.id).collect();
    ids.sort();
    assert_eq!(ids, (1..=20).collect::<Vec<u64>>());
    for w in feed.windows(2) {
        assert!(w[0].created_at >= w[1].created_at);
    }
}

#[test]
fn padded_feed_has_no_duplicates() {
    let mut d = UserDirectory::new();
    let mut ps = PostStore::new();
    let mut nc = NotificationCenter::new();
    register(&mut d, 1, "Alice");
    register(&mut d, 2, "Bob");
    d.follow_user(&mut nc, 1, 2, 2).unwrap();
    // Three followed posts: selected and also within the first twenty.
    for t in 0..3u64 {
        ps.create_post(&d, 2, format!("post {t}"), None, None, 10 + t)
            .unwrap();
    }
    let feed = get_feed(&d, &ps, 1);
    assert_eq!(feed.len(), 3);
    let mut ids: Vec<u64> = feed.iter().map(|p| p.id).collect();
    ids.sort();
    ids.dedup();
    assert_eq!(ids.len(), 3);
}

#[test]
fn feed_of_unknown_viewer_falls_back_to_corpus() {
    let mut d = UserDirectory::new();
    let mut ps = PostStore::new();
    register(&mut d, 2, "Bob");
    ps.create_post(&d, 2, "only".to_string(), None, None, 5)
        .unwrap();
    let feed = get_feed(&d, &ps, 42);
    assert_eq!(feed.len(), 1);
    assert_eq!(feed[0].id, 1);
}

#[test]
fn notifications_listed_newest_first_for_receiver_only() {
    let mut nc = NotificationCenter::new();
    nc.add_notification_internal(1, 2, NotificationType::Like, "liked your post".to_string(), 30);
    nc.add_notification_internal(3, 2, NotificationType::Follow, "started following you".to_string(), 10);
    nc.add_notification_internal(1, 3, NotificationType::Comment, "commented on your post".to_string(), 20);
    nc.add_notification_internal(3, 2, NotificationType::Repost, "reposted your post".to_string(), 30);
    let for_two = nc.get_notifications(2);
    let ids: Vec<u64> = for_two.iter().map(|n| n.id).collect();
    // Two records share a creation time; the higher id comes first.
    assert_eq!(ids, vec![4, 1, 2]);
    let for_three = nc.get_notifications(3);
    assert_eq!(for_three.len(), 1);
    assert_eq!(for_three[0].id, 3);
    assert!(nc.get_notifications(9).is_empty());
}

#[test]
fn mark_notification_read_is_receiver_only_and_idempotent() {
    let mut nc = NotificationCenter::new();
    nc.add_notification_internal(1, 2, NotificationType::Like, "liked your post".to_string(), 5);
    assert_eq!(
        nc.mark_notification_read(1, 1).unwrap_err(),
        SocialError::Unauthorized
    );
    assert_eq!(
        nc.mark_notification_read(2, 9).unwrap_err(),
        SocialError::NotFound
    );
    nc.mark_notification_read(2, 1).unwrap();
    assert!(nc.notifications[0].read);
    nc.mark_notification_read(2, 1).unwrap();
    assert!(nc.notifications[0].read);
}

#[test]
fn worked_example_across_stores() {
    let mut d = UserDirectory::new();
    let mut ps = PostStore::new();
    let mut ms = MessageStore::new();
    let mut nc = NotificationCenter::new();
    register(&mut d, 1, "Alice");
    register(&mut d, 2, "Bob");
    register(&mut d, 3, "Carol");

    d.follow_user(&mut nc, 1, 2, 10).unwrap();
    assert_eq!(nc.get_notifications(2).len(), 1);
    assert_eq!(nc.get_notifications(2)[0].kind, NotificationType::Follow);

    let post = ps
        .create_post(&d, 2, "hi".to_string(), None, None, 11)
        .unwrap();
    assert_eq!(post.id, 1);

    ps.like_post(&mut nc, 1, 1, 12).unwrap();
    let likes: Vec<u64> = ps.get_all_posts()[0].likes.clone();
    assert_eq!(likes, vec![1]);
    let like_notes: Vec<_> = nc
        .get_notifications(2)
        .into_iter()
        .filter(|n| n.kind == NotificationType::Like)
        .collect();
    assert_eq!(like_notes.len(), 1);

    ps.like_post(&mut nc, 1, 1, 13).unwrap();
    assert!(ps.get_all_posts()[0].likes.is_empty());
    let like_notes: Vec<_> = nc
        .get_notifications(2)
        .into_iter()
        .filter(|n| n.kind == NotificationType::Like)
        .collect();
    assert_eq!(like_notes.len(), 1);

    ms.send_message(&d, &mut nc, 1, 2, "hello".to_string(), 14)
        .unwrap();
    let msg_notes: Vec<_> = nc
        .get_notifications(2)
        .into_iter()
        .filter(|n| n.kind == NotificationType::Message)
        .collect();
    assert_eq!(msg_notes.len(), 1);

    let r = ms.send_message(&d, &mut nc, 3, 2, "hey".to_string(), 15);
    assert_eq!(r.unwrap_err(), SocialError::NotAllowed);
}
