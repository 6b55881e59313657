use social_backend::errors::SocialError;
use social_backend::notifications::{NotificationCenter, NotificationType};
use social_backend::post_store::PostStore;
use social_backend::user_directory::UserDirectory;

fn setup_two_users() -> (UserDirectory, PostStore, NotificationCenter) {
    let mut d = UserDirectory::new();
    d.register_user(
        1,
        "Alice".to_string(),
        String::new(),
        String::new(),
        String::new(),
        1,
    )
    .unwrap();
    d.register_user(
        2,
        "Bob".to_string(),
        String::new(),
        String::new(),
        String::new(),
        1,
    )
    .unwrap();
    (d, PostStore::new(), NotificationCenter::new())
}

#[test]
fn create_post_assigns_ids_in_order() {
    let (d, mut ps, _) = setup_two_users();
    let p1 = ps
        .create_post(&d, 1, "hello".to_string(), None, None, 10)
        .unwrap();
    let p2 = ps
        .create_post(&d, 2, "world".to_string(), None, None, 11)
        .unwrap();
    assert_eq!(p1.id, 1);
    assert_eq!(p2.id, 2);
    assert_eq!(p1.author, 1);
    assert_eq!(p2.created_at, 11);
    assert!(p1.likes.is_empty());
    assert!(p1.comments.is_empty());
    assert!(p1.repost_of.is_none());
}

#[test]
fn create_post_requires_content_or_media() {
    let (d, mut ps, _) = setup_two_users();
    let r = ps.create_post(&d, 1, "   ".to_string(), None, None, 10);
    assert_eq!(r.unwrap_err(), SocialError::EmptyContent);
    let with_image = ps.create_post(&d, 1, "  ".to_string(), Some("i.png".to_string()), None, 10);
    assert!(with_image.is_ok());
    let r2 = ps.create_post(&d, 9, "hi".to_string(), None, None, 10);
    assert_eq!(r2.unwrap_err(), SocialError::AuthorNotRegistered);
}

#[test]
fn get_all_posts_newest_first_with_id_tiebreak() {
    let (d, mut ps, _) = setup_two_users();
    ps.create_post(&d, 1, "a".to_string(), None, None, 10)
        .unwrap();
    ps.create_post(&d, 1, "b".to_string(), None, None, 30)
        .unwrap();
    ps.create_post(&d, 1, "c".to_string(), None, None, 20)
        .unwrap();
    ps.create_post(&d, 1, "d".to_string(), None, None, 20)
        .unwrap();
    let all = ps.get_all_posts();
    let ids: Vec<u64> = all.iter().map(|p| p.id).collect();
    assert_eq!(ids, vec![2, 4, 3, 1]);
}

#[test]
fn get_user_posts_filters_by_author() {
    let (d, mut ps, _) = setup_two_users();
    ps.create_post(&d, 1, "a".to_string(), None, None, 10)
        .unwrap();
    ps.create_post(&d, 2, "b".to_string(), None, None, 20)
        .unwrap();
    ps.create_post(&d, 1, "c".to_string(), None, None, 30)
        .unwrap();
    let mine = ps.get_user_posts(1);
    let ids: Vec<u64> = mine.iter().map(|p| p.id).collect();
    assert_eq!(ids, vec![3, 1]);
    assert!(ps.get_user_posts(9).is_empty());
}

#[test]
fn like_toggles_and_notifies_once() {
    let (d, mut ps, mut nc) = setup_two_users();
    ps.create_post(&d, 2, "hi".to_string(), None, None, 10)
        .unwrap();
    let liked = ps.like_post(&mut nc, 1, 1, 11).unwrap();
    assert_eq!(liked.likes, vec![1]);
    assert_eq!(nc.notifications.len(), 1);
    assert_eq!(nc.notifications[0].kind, NotificationType::Like);
    assert_eq!(nc.notifications[0].receiver, 2);
    assert_eq!(nc.notifications[0].message, "liked your post");
    let unliked = ps.like_post(&mut nc, 1, 1, 12).unwrap();
    assert!(unliked.likes.is_empty());
    assert_eq!(nc.notifications.len(), 1);
    assert_eq!(unliked.content, "hi");
    assert_eq!(unliked.created_at, 10);
}

#[test]
fn like_own_post_gives_no_notification() {
    let (d, mut ps, mut nc) = setup_two_users();
    ps.create_post(&d, 1, "mine".to_string(), None, None, 10)
        .unwrap();
    let liked = ps.like_post(&mut nc, 1, 1, 11).unwrap();
    assert_eq!(liked.likes, vec![1]);
    assert!(nc.notifications.is_empty());
}

#[test]
fn like_missing_post_fails() {
    let (_, mut ps, mut nc) = setup_two_users();
    assert_eq!(
        ps.like_post(&mut nc, 1, 7, 1).unwrap_err(),
        SocialError::PostNotFound
    );
}

#[test]
fn comment_appends_and_notifies() {
    let (d, mut ps, mut nc) = setup_two_users();
    ps.create_post(&d, 2, "hi".to_string(), None, None, 10)
        .unwrap();
    let c = ps
        .comment_post(&mut nc, 1, 1, "nice".to_string(), 11)
        .unwrap();
    assert_eq!(c.id, 1);
    assert_eq!(c.author, 1);
    assert_eq!(c.content, "nice");
    let all = ps.get_all_posts();
    assert_eq!(all[0].comments.len(), 1);
    assert_eq!(all[0].comments[0].content, "nice");
    assert_eq!(nc.notifications.len(), 1);
    assert_eq!(nc.notifications[0].kind, NotificationType::Comment);
    assert_eq!(nc.notifications[0].message, "commented on your post");
    let own = ps
        .comment_post(&mut nc, 2, 1, "thanks".to_string(), 12)
        .unwrap();
    assert_eq!(own.id, 2);
    assert_eq!(nc.notifications.len(), 1);
}

#[test]
fn comment_errors() {
    let (d, mut ps, mut nc) = setup_two_users();
    ps.create_post(&d, 2, "hi".to_string(), None, None, 10)
        .unwrap();
    assert_eq!(
        ps.comment_post(&mut nc, 1, 1, "  ".to_string(), 11)
            .unwrap_err(),
        SocialError::EmptyContent
    );
    assert_eq!(
        ps.comment_post(&mut nc, 1, 9, "x".to_string(), 11)
            .unwrap_err(),
        SocialError::PostNotFound
    );
}

#[test]
fn repost_copies_content_and_notifies() {
    let (d, mut ps, mut nc) = setup_two_users();
    ps.create_post(
        &d,
        2,
        "origin".to_string(),
        Some("i.png".to_string()),
        None,
        10,
    )
    .unwrap();
    let rp = ps.repost_post(&mut nc, 1, 1, 20).unwrap();
    assert_eq!(rp.id, 2);
    assert_eq!(rp.author, 1);
    assert_eq!(rp.content, "origin");
    assert_eq!(rp.image.as_deref(), Some("i.png"));
    assert_eq!(rp.repost_of, Some(1));
    assert!(rp.likes.is_empty());
    assert!(rp.comments.is_empty());
    assert_eq!(rp.created_at, 20);
    assert_eq!(nc.notifications.len(), 1);
    assert_eq!(nc.notifications[0].kind, NotificationType::Repost);
    assert_eq!(nc.notifications[0].message, "reposted your post");
}

#[test]
fn repost_own_post_gives_no_notification() {
    let (d, mut ps, mut nc) = setup_two_users();
    ps.create_post(&d, 1, "mine".to_string(), None, None, 10)
        .unwrap();
    ps.repost_post(&mut nc, 1, 1, 11).unwrap();
    assert!(nc.notifications.is_empty());
}

#[test]
fn repost_unique_per_author() {
    let (d, mut ps, mut nc) = setup_two_users();
    ps.create_post(&d, 2, "hi".to_string(), None, None, 10)
        .unwrap();
    ps.repost_post(&mut nc, 1, 1, 11).unwrap();
    let r = ps.repost_post(&mut nc, 1, 1, 12);
    assert_eq!(r.unwrap_err(), SocialError::AlreadyReposted);
    assert_eq!(ps.get_all_posts().len(), 2);
    assert_eq!(
        ps.repost_post(&mut nc, 1, 9, 13).unwrap_err(),
        SocialError::OriginalNotFound
    );
}

#[test]
fn delete_cascades_to_reposts_of_reposts() {
    let (d, mut ps, mut nc) = setup_two_users();
    ps.create_post(&d, 1, "root".to_string(), None, None, 10)
        .unwrap();
    ps.repost_post(&mut nc, 2, 1, 11).unwrap();
    ps.repost_post(&mut nc, 1, 2, 12).unwrap();
    ps.create_post(&d, 2, "other".to_string(), None, None, 13)
        .unwrap();
    ps.delete_post(1, 1).unwrap();
    let all = ps.get_all_posts();
    let ids: Vec<u64> = all.iter().map(|p| p.id).collect();
    assert_eq!(ids, vec![4]);
    for p in &all {
        assert_ne!(p.id, 1);
        assert_ne!(p.repost_of, Some(1));
    }
}

#[test]
fn delete_requires_author() {
    let (d, mut ps, _) = setup_two_users();
    ps.create_post(&d, 1, "x".to_string(), None, None, 10)
        .unwrap();
    assert_eq!(ps.delete_post(2, 1).unwrap_err(), SocialError::Unauthorized);
    assert_eq!(ps.delete_post(1, 9).unwrap_err(), SocialError::PostNotFound);
    assert_eq!(ps.get_all_posts().len(), 1);
}

#[test]
fn edit_overwrites_content_keeps_identity() {
    let (d, mut ps, mut nc) = setup_two_users();
    ps.create_post(&d, 1, "before".to_string(), None, None, 10)
        .unwrap();
    ps.like_post(&mut nc, 2, 1, 11).unwrap();
    let p = ps
        .edit_post(1, 1, "after".to_string(), Some("v.png".to_string()), None)
        .unwrap();
    assert_eq!(p.content, "after");
    assert_eq!(p.image.as_deref(), Some("v.png"));
    assert_eq!(p.created_at, 10);
    assert_eq!(p.likes, vec![2]);
    assert_eq!(
        ps.edit_post(2, 1, "h".to_string(), None, None).unwrap_err(),
        SocialError::Unauthorized
    );
    assert_eq!(
        ps.edit_post(1, 9, "h".to_string(), None, None).unwrap_err(),
        SocialError::PostNotFound
    );
    assert_eq!(
        ps.edit_post(1, 1, " ".to_string(), None, None).unwrap_err(),
        SocialError::EmptyContent
    );
}

#[test]
fn next_ids_count_up() {
    let mut ps = PostStore::new();
    assert_eq!(ps.get_next_post_id(), 1);
    assert_eq!(ps.get_next_post_id(), 2);
    assert_eq!(ps.get_next_comment_id(), 1);
    assert_eq!(ps.get_next_comment_id(), 2);
    let mut nc = NotificationCenter::new();
    assert_eq!(nc.get_next_notification_id(), 1);
    assert_eq!(nc.get_next_notification_id(), 2);
}
