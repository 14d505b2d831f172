use snapshoot_core::friends::{accept_friend_request, send_friend_request};
use snapshoot_core::groups::{create_group, CreateGroup};
use snapshoot_core::media::{object_key_from_url, Media, MediaType};
use snapshoot_core::messages::{
    delete_message, get_direct_messages, get_group_messages, send_direct_message,
    send_direct_message_with_media, send_group_message, send_group_message_with_media,
    text_content_of, CreateMessage, MediaQueryParams, MessageQueryParams,
};
use snapshoot_core::model::{CoreError, Db, Location, User, UserRole};
use snapshoot_core::stories::{
    create_story, create_story_at, delete_story, friend_stories_at, get_friend_stories,
    get_nearby_stories, get_story_by_id, nearby_stories_at, story_by_id_at, CreateStory,
    STORY_LIFETIME_MS,
};
use snapshoot_core::users::{create_user_with_hash, CreateUser};

fn account(db: &mut Db, name: &str) -> User {
    let payload = CreateUser {
        username: name.to_string(),
        email: format!("{}@example.com", name),
        password: "correct horse battery".to_string(),
        role: UserRole::User,
        bio: "a bio of enough length".to_string(),
        avatar: None,
        location: None,
    };
    create_user_with_hash(db, payload, format!("hash-of-{}", name)).unwrap()
}

fn befriend(db: &mut Db, a: u64, b: u64) {
    let req = send_friend_request(db, a, b).unwrap();
    accept_friend_request(db, req.id, b).unwrap();
}

fn text(s: &str) -> CreateMessage {
    CreateMessage { content: s.to_string(), media: None }
}

fn all() -> MessageQueryParams {
    MessageQueryParams { limit: None, offset: None }
}

fn image(url: &str) -> Media {
    Media { media_type: MediaType::Image, url: url.to_string(), duration: None }
}

#[test]
fn friends_exchange_and_delete_a_message() {
    let mut db = Db::new();
    let u1 = account(&mut db, "alice");
    let u2 = account(&mut db, "bob");
    let req = send_friend_request(&mut db, u1.id, u2.id).unwrap();
    accept_friend_request(&mut db, req.id, u2.id).unwrap();
    assert!(snapshoot_core::friends::are_friends(&db, u1.id, u2.id));
    let payload = CreateMessage {
        content: "hi".to_string(),
        media: Some(image("http://minio:9000/media/abc.jpg")),
    };
    let sent = send_direct_message(&mut db, u1.id, u2.id, payload).unwrap();
    assert!(!sent.read);
    assert!(!sent.is_group);
    let listed = get_direct_messages(&db, u2.id, u1.id, all());
    assert_eq!(listed.len(), 1);
    assert_eq!(listed[0].content, "hi");
    assert_eq!(listed[0].sender_id, u1.id);
    let deleted = delete_message(&mut db, sent.id, u1.id).unwrap();
    assert!(get_direct_messages(&db, u2.id, u1.id, all()).is_empty());
    let released = deleted.media.unwrap();
    assert_eq!(object_key_from_url(&released.url), "abc.jpg");
}

#[test]
fn direct_messages_come_newest_first() {
    let mut db = Db::new();
    let a = account(&mut db, "alice");
    let b = account(&mut db, "bob");
    let c = account(&mut db, "carol");
    befriend(&mut db, a.id, b.id);
    befriend(&mut db, a.id, c.id);
    send_direct_message(&mut db, a.id, b.id, text("one")).unwrap();
    send_direct_message(&mut db, a.id, c.id, text("other")).unwrap();
    send_direct_message(&mut db, b.id, a.id, text("two")).unwrap();
    send_direct_message(&mut db, a.id, b.id, text("three")).unwrap();
    let listed: Vec<String> = get_direct_messages(&db, a.id, b.id, all())
        .into_iter()
        .map(|m| m.content)
        .collect();
    assert_eq!(listed, vec!["three", "two", "one"]);
}

#[test]
fn direct_messages_are_paged() {
    let mut db = Db::new();
    let a = account(&mut db, "alice");
    let b = account(&mut db, "bob");
    befriend(&mut db, a.id, b.id);
    for i in 0..5 {
        send_direct_message(&mut db, a.id, b.id, text(&format!("m{}", i))).unwrap();
    }
    let page = |limit: Option<i64>, offset: Option<i64>| -> Vec<String> {
        get_direct_messages(&db, a.id, b.id, MessageQueryParams { limit, offset })
            .into_iter()
            .map(|m| m.content)
            .collect()
    };
    assert_eq!(page(Some(2), None), vec!["m4", "m3"]);
    assert_eq!(page(Some(2), Some(2)), vec!["m2", "m1"]);
    assert_eq!(page(Some(2), Some(4)), vec!["m0"]);
    assert!(page(Some(2), Some(5)).is_empty());
    assert!(page(None, Some(-1)).is_empty());
    assert_eq!(page(Some(0), Some(3)), vec!["m1", "m0"]);
    assert_eq!(page(Some(-2), Some(1)), vec!["m3", "m2"]);
    assert_eq!(page(None, None).len(), 5);
}

#[test]
fn default_page_holds_fifty() {
    let mut db = Db::new();
    let a = account(&mut db, "alice");
    let b = account(&mut db, "bob");
    befriend(&mut db, a.id, b.id);
    for i in 0..55 {
        send_direct_message(&mut db, a.id, b.id, text(&format!("m{}", i))).unwrap();
    }
    let listed = get_direct_messages(&db, a.id, b.id, all());
    assert_eq!(listed.len(), 50);
    assert_eq!(listed[0].content, "m54");
    assert_eq!(listed[49].content, "m5");
}

#[test]
fn direct_message_rules() {
    let mut db = Db::new();
    let a = account(&mut db, "alice");
    let b = account(&mut db, "bob");
    assert_eq!(send_direct_message(&mut db, a.id, a.id, text("me")).unwrap_err(), CoreError::SelfReference);
    assert_eq!(send_direct_message(&mut db, a.id, b.id, text("hi")).unwrap_err(), CoreError::Forbidden);
    send_friend_request(&mut db, a.id, b.id).unwrap();
    assert_eq!(send_direct_message(&mut db, a.id, b.id, text("hi")).unwrap_err(), CoreError::Forbidden);
    let pending = db.friends[0].id;
    accept_friend_request(&mut db, pending, b.id).unwrap();
    let long = "x".repeat(1001);
    assert_eq!(send_direct_message(&mut db, a.id, b.id, text(&long)).unwrap_err(), CoreError::ValidationFailed);
    assert!(send_direct_message(&mut db, a.id, b.id, text(&"x".repeat(1000))).is_ok());
    assert_eq!(db.messages.len(), 1);
}

#[test]
fn only_the_sender_deletes() {
    let mut db = Db::new();
    let a = account(&mut db, "alice");
    let b = account(&mut db, "bob");
    befriend(&mut db, a.id, b.id);
    let m = send_direct_message(&mut db, a.id, b.id, text("hi")).unwrap();
    assert_eq!(delete_message(&mut db, m.id, b.id).unwrap_err(), CoreError::NotFound);
    assert_eq!(delete_message(&mut db, 999, a.id).unwrap_err(), CoreError::NotFound);
    assert!(delete_message(&mut db, m.id, a.id).unwrap().media.is_none());
    assert!(db.messages.is_empty());
}

#[test]
fn group_messages_for_members() {
    let mut db = Db::new();
    let a = account(&mut db, "alice");
    let b = account(&mut db, "bob");
    let c = account(&mut db, "carol");
    let g = create_group(&mut db, CreateGroup { name: "hikers".to_string(), members: vec![b.id] }, a.id)
        .unwrap()
        .id;
    let m = send_group_message(&mut db, b.id, g, text("hello all")).unwrap();
    assert!(m.is_group);
    assert!(m.read);
    assert_eq!(m.recipient_id, g);
    send_group_message(&mut db, a.id, g, text("welcome")).unwrap();
    assert_eq!(send_group_message(&mut db, c.id, g, text("let me in")).unwrap_err(), CoreError::Forbidden);
    assert_eq!(send_group_message(&mut db, a.id, 999, text("lost")).unwrap_err(), CoreError::Forbidden);
    let listed: Vec<String> = get_group_messages(&db, b.id, g, all())
        .unwrap()
        .into_iter()
        .map(|m| m.content)
        .collect();
    assert_eq!(listed, vec!["welcome", "hello all"]);
    assert_eq!(get_group_messages(&db, c.id, g, all()).unwrap_err(), CoreError::NotFound);
    assert!(get_direct_messages(&db, a.id, b.id, all()).is_empty());
}

#[test]
fn media_messages_carry_the_upload() {
    let mut db = Db::new();
    let a = account(&mut db, "alice");
    let b = account(&mut db, "bob");
    befriend(&mut db, a.id, b.id);
    let m = send_direct_message_with_media(
        &mut db,
        a.id,
        b.id,
        "video/mp4",
        "http://minio:9000/media/v.mp4".to_string(),
        MediaQueryParams { text_content: None },
    )
    .unwrap();
    assert_eq!(m.content, "");
    let media = m.media.unwrap();
    assert_eq!(media.media_type, MediaType::Video);
    assert_eq!(media.duration, Some(10));
    assert_eq!(media.url, "http://minio:9000/media/v.mp4");
    let g = create_group(&mut db, CreateGroup { name: "hikers".to_string(), members: vec![b.id] }, a.id)
        .unwrap()
        .id;
    let m = send_group_message_with_media(
        &mut db,
        b.id,
        g,
        "image/png",
        "http://minio:9000/media/p.png".to_string(),
        MediaQueryParams { text_content: Some("look".to_string()) },
    )
    .unwrap();
    assert_eq!(m.content, "look");
    let media = m.media.unwrap();
    assert_eq!(media.media_type, MediaType::Image);
    assert_eq!(media.duration, None);
    assert_eq!(text_content_of(MediaQueryParams { text_content: None }), "");
}

fn here() -> Location {
    Location { longitude_e6: 2_350_000, latitude_e6: 48_850_000 }
}

fn story_payload(url: &str) -> CreateStory {
    CreateStory { media: image(url), location: here() }
}

#[test]
fn story_nearby_until_expiry_and_owner_reads_it_later() {
    let mut db = Db::new();
    let u1 = account(&mut db, "alice");
    let u2 = account(&mut db, "bob");
    let now: i64 = 1_700_000_000_000;
    let s = create_story_at(&mut db, u1.id, story_payload("http://minio:9000/media/s.jpg"), now).unwrap();
    assert_eq!(s.expires_at, now + 86_400_000);
    assert_eq!(s.location, here());
    let found = nearby_stories_at(&db, &vec![100], Some(5000), now + 1000);
    assert_eq!(found.len(), 1);
    assert_eq!(found[0].id, s.id);
    assert!(nearby_stories_at(&db, &vec![100], None, s.expires_at).len() == 1);
    let later = s.expires_at + 1;
    assert!(nearby_stories_at(&db, &vec![100], Some(5000), later).is_empty());
    assert_eq!(story_by_id_at(&db, s.id, u1.id, later).unwrap().id, s.id);
    assert_eq!(story_by_id_at(&db, s.id, u2.id, later).unwrap_err(), CoreError::NotFound);
    assert_eq!(story_by_id_at(&db, s.id, u2.id, now).unwrap().id, s.id);
}

#[test]
fn nearby_respects_radius_order_and_cap() {
    let mut db = Db::new();
    let u1 = account(&mut db, "alice");
    let now: i64 = 1_000_000;
    let mut distances: Vec<u64> = Vec::new();
    for i in 0..60u64 {
        create_story_at(&mut db, u1.id, story_payload("http://h/b/k.jpg"), now + (i as i64)).unwrap();
        distances.push(if i < 3 { 6000 } else { 1000 + (i % 7) * 10 });
    }
    let found = nearby_stories_at(&db, &distances, None, now);
    assert_eq!(found.len(), 50);
    for w in found.windows(2) {
        let (da, db_) = (distances[(w[0].id - 2) as usize], distances[(w[1].id - 2) as usize]);
        assert!(da < db_ || (da == db_ && w[0].expires_at > w[1].expires_at));
    }
    assert!(found.iter().all(|s| distances[(s.id - 2) as usize] <= 5000));
    let wide = nearby_stories_at(&db, &distances, Some(10_000), now);
    assert_eq!(wide.len(), 50);
    assert!(wide.iter().all(|s| distances[(s.id - 2) as usize] < 6000));
}

#[test]
fn nearby_breaks_distance_ties_by_later_expiry() {
    let mut db = Db::new();
    let u1 = account(&mut db, "alice");
    let a = create_story_at(&mut db, u1.id, story_payload("http://h/b/a.jpg"), 10).unwrap();
    let b = create_story_at(&mut db, u1.id, story_payload("http://h/b/b.jpg"), 20).unwrap();
    let c = create_story_at(&mut db, u1.id, story_payload("http://h/b/c.jpg"), 30).unwrap();
    let found: Vec<u64> = nearby_stories_at(&db, &vec![50, 50, 10], None, 40).iter().map(|s| s.id).collect();
    assert_eq!(found, vec![c.id, b.id, a.id]);
}

#[test]
fn friend_stories_latest_expiry_first() {
    let mut db = Db::new();
    let a = account(&mut db, "alice");
    let b = account(&mut db, "bob");
    let c = account(&mut db, "carol");
    let d = account(&mut db, "dave");
    befriend(&mut db, a.id, b.id);
    befriend(&mut db, c.id, a.id);
    send_friend_request(&mut db, d.id, a.id).unwrap();
    let s1 = create_story_at(&mut db, b.id, story_payload("http://h/b/1.jpg"), 100).unwrap();
    let s2 = create_story_at(&mut db, c.id, story_payload("http://h/b/2.jpg"), 300).unwrap();
    let s3 = create_story_at(&mut db, b.id, story_payload("http://h/b/3.jpg"), 200).unwrap();
    create_story_at(&mut db, d.id, story_payload("http://h/b/4.jpg"), 200).unwrap();
    create_story_at(&mut db, a.id, story_payload("http://h/b/5.jpg"), 200).unwrap();
    let ids: Vec<u64> = friend_stories_at(&db, a.id, 1000).iter().map(|s| s.id).collect();
    assert_eq!(ids, vec![s2.id, s3.id, s1.id]);
    let ids: Vec<u64> = friend_stories_at(&db, a.id, s3.expires_at + 1).iter().map(|s| s.id).collect();
    assert_eq!(ids, vec![s2.id]);
    assert!(friend_stories_at(&db, d.id, 1000).is_empty());
}

#[test]
fn friend_stories_list_every_unexpired_one() {
    let mut db = Db::new();
    let a = account(&mut db, "alice");
    let b = account(&mut db, "bob");
    befriend(&mut db, a.id, b.id);
    for i in 0..105i64 {
        create_story_at(&mut db, b.id, story_payload("http://h/b/x.jpg"), i).unwrap();
    }
    let listed = friend_stories_at(&db, a.id, 0);
    assert_eq!(listed.len(), 105);
    assert_eq!(listed[0].expires_at, 104 + STORY_LIFETIME_MS);
    assert_eq!(listed[104].expires_at, STORY_LIFETIME_MS);
    let later = friend_stories_at(&db, a.id, 50 + STORY_LIFETIME_MS);
    assert_eq!(later.len(), 55);
    assert!(later.iter().all(|s| s.expires_at >= 50 + STORY_LIFETIME_MS));
}

#[test]
fn friend_reads_an_expired_story() {
    let mut db = Db::new();
    let a = account(&mut db, "alice");
    let b = account(&mut db, "bob");
    befriend(&mut db, a.id, b.id);
    let s = create_story_at(&mut db, b.id, story_payload("http://h/b/x.jpg"), 0).unwrap();
    assert_eq!(story_by_id_at(&db, s.id, a.id, s.expires_at + 5).unwrap().id, s.id);
    assert_eq!(story_by_id_at(&db, 999, a.id, 0).unwrap_err(), CoreError::NotFound);
}

#[test]
fn story_creation_refuses_an_unrepresentable_expiry() {
    let mut db = Db::new();
    let a = account(&mut db, "alice");
    let r = create_story_at(&mut db, a.id, story_payload("http://h/b/x.jpg"), i64::MAX - 10);
    assert_eq!(r.unwrap_err(), CoreError::ValidationFailed);
    assert!(db.stories.is_empty());
}

#[test]
fn only_the_owner_deletes_a_story() {
    let mut db = Db::new();
    let a = account(&mut db, "alice");
    let b = account(&mut db, "bob");
    let s = create_story_at(&mut db, a.id, story_payload("http://h/b/gone.jpg"), 0).unwrap();
    assert_eq!(delete_story(&mut db, s.id, b.id).unwrap_err(), CoreError::NotFound);
    let gone = delete_story(&mut db, s.id, a.id).unwrap();
    assert_eq!(object_key_from_url(&gone.media.url), "gone.jpg");
    assert!(db.stories.is_empty());
}

#[test]
fn stories_made_now_are_listed_now() {
    let mut db = Db::new();
    let a = account(&mut db, "alice");
    let b = account(&mut db, "bob");
    befriend(&mut db, a.id, b.id);
    let s = create_story(&mut db, b.id, story_payload("http://h/b/now.jpg")).unwrap();
    let listed = get_friend_stories(&db, a.id);
    assert_eq!(listed.len(), 1);
    assert_eq!(listed[0].id, s.id);
    assert_eq!(get_nearby_stories(&db, &vec![10], None).len(), 1);
    assert_eq!(get_story_by_id(&db, s.id, a.id).unwrap().id, s.id);
}
