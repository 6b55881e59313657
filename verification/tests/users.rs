use social_backend::errors::SocialError;
use social_backend::notifications::{NotificationCenter, NotificationType};
use social_backend::user_directory::UserDirectory;

fn register(d: &mut UserDirectory, id: u64, name: &str, bio: &str, now: u64) {
    d.register_user(
        id,
        name.to_string(),
        bio.to_string(),
        String::new(),
        String::new(),
        now,
    )
    .unwrap();
}

#[test]
fn register_and_get_user() {
    let mut d = UserDirectory::new();
    let p = d
        .register_user(
            1,
            "Alice".to_string(),
            "bio".to_string(),
            "p.png".to_string(),
            "c.png".to_string(),
            100,
        )
        .unwrap();
    assert_eq!(p.id, 1);
    assert_eq!(p.name, "Alice");
    assert_eq!(p.created_at, 100);
    assert!(p.followers.is_empty());
    assert!(p.following.is_empty());
    let q = d.get_user(1).unwrap();
    assert_eq!(q.name, "Alice");
    assert_eq!(q.bio, "bio");
    assert!(d.get_user(2).is_none());
    let c = d.get_current_user(1).unwrap();
    assert_eq!(c.id, 1);
    assert!(d.get_current_user(9).is_none());
}

#[test]
fn register_blank_name_rejected() {
    let mut d = UserDirectory::new();
    let r = d.register_user(
        1,
        "   ".to_string(),
        "bio".to_string(),
        String::new(),
        String::new(),
        1,
    );
    assert_eq!(r.unwrap_err(), SocialError::EmptyName);
    assert!(d.get_user(1).is_none());
}

#[test]
fn register_duplicate_rejected() {
    let mut d = UserDirectory::new();
    register(&mut d, 1, "Alice", "", 1);
    let r = d.register_user(
        1,
        "Alice2".to_string(),
        String::new(),
        String::new(),
        String::new(),
        2,
    );
    assert_eq!(r.unwrap_err(), SocialError::DuplicateUser);
    assert_eq!(d.get_user(1).unwrap().name, "Alice");
}

#[test]
fn update_profile_overwrites_only_descriptive_fields() {
    let mut d = UserDirectory::new();
    let mut nc = NotificationCenter::new();
    register(&mut d, 1, "Alice", "old bio", 1);
    register(&mut d, 2, "Bob", "", 1);
    d.follow_user(&mut nc, 2, 1, 2).unwrap();
    let p = d
        .update_profile(
            1,
            "Alicia".to_string(),
            "new bio".to_string(),
            "p2".to_string(),
            "c2".to_string(),
        )
        .unwrap();
    assert_eq!(p.name, "Alicia");
    assert_eq!(p.bio, "new bio");
    assert_eq!(p.created_at, 1);
    assert_eq!(p.followers, vec![2]);
    let r = d.update_profile(
        9,
        String::new(),
        String::new(),
        String::new(),
        String::new(),
    );
    assert_eq!(r.unwrap_err(), SocialError::NotFound);
}

#[test]
fn follow_symmetry() {
    let mut d = UserDirectory::new();
    let mut nc = NotificationCenter::new();
    register(&mut d, 1, "Alice", "", 1);
    register(&mut d, 2, "Bob", "", 1);
    d.follow_user(&mut nc, 1, 2, 5).unwrap();
    assert!(d.is_following(1, 2));
    assert!(!d.is_following(2, 1));
    assert_eq!(d.get_following(1), vec![2]);
    assert_eq!(d.get_followers(2), vec![1]);
    assert!(d.get_followers(1).is_empty());
    d.unfollow_user(1, 2);
    assert!(!d.is_following(1, 2));
    assert!(d.get_following(1).is_empty());
    assert!(d.get_followers(2).is_empty());
}

#[test]
fn follow_errors() {
    let mut d = UserDirectory::new();
    let mut nc = NotificationCenter::new();
    register(&mut d, 1, "Alice", "", 1);
    assert_eq!(
        d.follow_user(&mut nc, 1, 1, 2).unwrap_err(),
        SocialError::SelfFollow
    );
    assert_eq!(
        d.follow_user(&mut nc, 1, 9, 2).unwrap_err(),
        SocialError::TargetNotFound
    );
    assert_eq!(
        d.follow_user(&mut nc, 9, 1, 2).unwrap_err(),
        SocialError::ActorNotRegistered
    );
    assert!(nc.notifications.is_empty());
}

#[test]
fn follow_idempotent_single_notification() {
    let mut d = UserDirectory::new();
    let mut nc = NotificationCenter::new();
    register(&mut d, 1, "Alice", "", 1);
    register(&mut d, 2, "Bob", "", 1);
    d.follow_user(&mut nc, 1, 2, 5).unwrap();
    d.follow_user(&mut nc, 1, 2, 6).unwrap();
    assert_eq!(d.get_following(1), vec![2]);
    assert_eq!(d.get_followers(2), vec![1]);
    assert_eq!(nc.notifications.len(), 1);
    let n = &nc.notifications[0];
    assert_eq!(n.sender, 1);
    assert_eq!(n.receiver, 2);
    assert_eq!(n.kind, NotificationType::Follow);
    assert_eq!(n.message, "started following you");
    assert_eq!(n.created_at, 5);
    assert!(!n.read);
}

#[test]
fn unfollow_unknown_is_noop() {
    let mut d = UserDirectory::new();
    register(&mut d, 1, "Alice", "", 1);
    d.unfollow_user(1, 9);
    d.unfollow_user(9, 1);
    assert!(d.get_following(1).is_empty());
}

#[test]
fn followers_of_unknown_user_is_empty() {
    let d = UserDirectory::new();
    assert!(d.get_followers(7).is_empty());
    assert!(d.get_following(7).is_empty());
    assert!(!d.is_following(7, 8));
}

#[test]
fn get_all_users_in_registration_order() {
    let mut d = UserDirectory::new();
    register(&mut d, 3, "Carol", "", 1);
    register(&mut d, 1, "Alice", "", 2);
    register(&mut d, 2, "Bob", "", 3);
    let all = d.get_all_users();
    let ids: Vec<u64> = all.iter().map(|u| u.id).collect();
    assert_eq!(ids, vec![3, 1, 2]);
}

#[test]
fn search_users_case_insensitive_substring() {
    let mut d = UserDirectory::new();
    register(&mut d, 1, "Alice", "loves RUST", 1);
    register(&mut d, 2, "Bob", "gardening", 1);
    register(&mut d, 3, "Rustam", "chess", 1);
    let by_bio = d.search_users("rust".to_string());
    let ids: Vec<u64> = by_bio.iter().map(|u| u.id).collect();
    assert_eq!(ids, vec![1, 3]);
    let by_name = d.search_users("ALICE".to_string());
    assert_eq!(by_name.len(), 1);
    assert_eq!(by_name[0].id, 1);
    assert!(d.search_users("zzz".to_string()).is_empty());
    assert_eq!(d.search_users(String::new()).len(), 3);
}
