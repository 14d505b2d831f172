use snapshoot_core::friends::{
    accept_friend_request, are_friends, delete_friend, get_friend_requests, get_friends,
    send_friend_request,
};
use snapshoot_core::groups::{
    add_group_members, create_group, delete_group, get_group_by_id, get_user_groups,
    remove_group_member, update_group, AddGroupMembers, CreateGroup, UpdateGroup,
};
use snapshoot_core::model::{CoreError, Db, FriendStatus, User, UserRole};
use snapshoot_core::users::{create_user_with_hash, CreateUser};

fn account(db: &mut Db, name: &str) -> User {
    let payload = CreateUser {
        username: name.to_string(),
        email: format!("{}@example.com", name),
        password: "correct horse battery".to_string(),
        role: UserRole::User,
        bio: "a bio of enough length".to_string(),
        avatar: None,
        location: None,
    };
    create_user_with_hash(db, payload, format!("hash-of-{}", name)).unwrap()
}

fn befriend(db: &mut Db, a: u64, b: u64) {
    let req = send_friend_request(db, a, b).unwrap();
    accept_friend_request(db, req.id, b).unwrap();
}

#[test]
fn request_then_reverse_request_is_refused() {
    let mut db = Db::new();
    let a = account(&mut db, "alice");
    let b = account(&mut db, "bob");
    let req = send_friend_request(&mut db, a.id, b.id).unwrap();
    assert_eq!(req.status, FriendStatus::Pending);
    assert_eq!(req.user_id, a.id);
    assert_eq!(req.friend_id, b.id);
    assert_eq!(send_friend_request(&mut db, b.id, a.id).unwrap_err(), CoreError::AlreadyExists);
    assert_eq!(send_friend_request(&mut db, a.id, b.id).unwrap_err(), CoreError::AlreadyExists);
    assert_eq!(db.friends.len(), 1);
}

#[test]
fn request_to_self_is_refused() {
    let mut db = Db::new();
    let a = account(&mut db, "alice");
    assert_eq!(send_friend_request(&mut db, a.id, a.id).unwrap_err(), CoreError::SelfReference);
    assert!(db.friends.is_empty());
}

#[test]
fn accept_twice_fails_the_second_time() {
    let mut db = Db::new();
    let a = account(&mut db, "alice");
    let b = account(&mut db, "bob");
    let req = send_friend_request(&mut db, a.id, b.id).unwrap();
    let accepted = accept_friend_request(&mut db, req.id, b.id).unwrap();
    assert_eq!(accepted.status, FriendStatus::Accepted);
    assert_eq!(accepted.id, req.id);
    assert_eq!(accept_friend_request(&mut db, req.id, b.id).unwrap_err(), CoreError::NotFound);
}

#[test]
fn only_the_recipient_accepts() {
    let mut db = Db::new();
    let a = account(&mut db, "alice");
    let b = account(&mut db, "bob");
    let req = send_friend_request(&mut db, a.id, b.id).unwrap();
    assert_eq!(accept_friend_request(&mut db, req.id, a.id).unwrap_err(), CoreError::NotFound);
    assert_eq!(accept_friend_request(&mut db, 999, b.id).unwrap_err(), CoreError::NotFound);
    assert!(!are_friends(&db, a.id, b.id));
}

#[test]
fn friendship_is_symmetric() {
    let mut db = Db::new();
    let a = account(&mut db, "alice");
    let b = account(&mut db, "bob");
    let c = account(&mut db, "carol");
    assert!(!are_friends(&db, a.id, b.id));
    befriend(&mut db, a.id, b.id);
    assert!(are_friends(&db, a.id, b.id));
    assert!(are_friends(&db, b.id, a.id));
    assert!(!are_friends(&db, a.id, c.id));
    assert!(!are_friends(&db, c.id, a.id));
}

#[test]
fn pending_request_is_no_friendship() {
    let mut db = Db::new();
    let a = account(&mut db, "alice");
    let b = account(&mut db, "bob");
    send_friend_request(&mut db, a.id, b.id).unwrap();
    assert!(!are_friends(&db, a.id, b.id));
    assert!(get_friends(&db, a.id).is_empty());
}

#[test]
fn friends_and_requests_are_listed() {
    let mut db = Db::new();
    let a = account(&mut db, "alice");
    let b = account(&mut db, "bob");
    let c = account(&mut db, "carol");
    befriend(&mut db, a.id, b.id);
    befriend(&mut db, c.id, a.id);
    let d = account(&mut db, "dave");
    let pending = send_friend_request(&mut db, d.id, a.id).unwrap();
    let friends = get_friends(&db, a.id);
    let names: Vec<&str> = friends.iter().map(|u| u.username.as_str()).collect();
    assert_eq!(names, vec!["bob", "carol"]);
    let requests = get_friend_requests(&db, a.id);
    assert_eq!(requests.len(), 1);
    assert_eq!(requests[0].id, pending.id);
    assert!(get_friend_requests(&db, d.id).is_empty());
}

#[test]
fn remove_friend_in_either_direction() {
    let mut db = Db::new();
    let a = account(&mut db, "alice");
    let b = account(&mut db, "bob");
    befriend(&mut db, a.id, b.id);
    let removed = delete_friend(&mut db, b.id, a.id).unwrap();
    assert_eq!(removed.user_id, a.id);
    assert!(!are_friends(&db, a.id, b.id));
    assert_eq!(delete_friend(&mut db, a.id, b.id).unwrap_err(), CoreError::NotFound);
    let req = send_friend_request(&mut db, b.id, a.id).unwrap();
    assert_eq!(delete_friend(&mut db, a.id, b.id).unwrap().id, req.id);
    assert!(db.friends.is_empty());
}

fn group_of(db: &mut Db, creator: u64, members: Vec<u64>) -> u64 {
    create_group(db, CreateGroup { name: "hikers".to_string(), members }, creator).unwrap().id
}

#[test]
fn creator_is_immune_and_last_member_stays() {
    let mut db = Db::new();
    let u1 = account(&mut db, "alice");
    let u2 = account(&mut db, "bob");
    let g = group_of(&mut db, u1.id, vec![u1.id, u2.id]);
    assert!(remove_group_member(&mut db, g, u1.id, u2.id).is_err());
    let after = remove_group_member(&mut db, g, u2.id, u1.id).unwrap();
    assert_eq!(after.members, vec![u1.id]);
    assert_eq!(remove_group_member(&mut db, g, u1.id, u1.id).unwrap_err(), CoreError::ValidationFailed);
    assert_eq!(get_group_by_id(&db, g, u1.id).unwrap().members, vec![u1.id]);
}

#[test]
fn creator_cannot_remove_itself_from_a_larger_group() {
    let mut db = Db::new();
    let u1 = account(&mut db, "alice");
    let u2 = account(&mut db, "bob");
    let g = group_of(&mut db, u1.id, vec![u2.id]);
    assert_eq!(remove_group_member(&mut db, g, u1.id, u1.id).unwrap_err(), CoreError::ValidationFailed);
    assert_eq!(remove_group_member(&mut db, g, u1.id, u2.id).unwrap_err(), CoreError::Forbidden);
}

#[test]
fn member_may_leave_but_not_remove_others() {
    let mut db = Db::new();
    let u1 = account(&mut db, "alice");
    let u2 = account(&mut db, "bob");
    let u3 = account(&mut db, "carol");
    let g = group_of(&mut db, u1.id, vec![u2.id, u3.id]);
    assert_eq!(remove_group_member(&mut db, g, u3.id, u2.id).unwrap_err(), CoreError::Forbidden);
    let left = remove_group_member(&mut db, g, u2.id, u2.id).unwrap();
    assert_eq!(left.members, vec![u1.id, u3.id]);
    assert_eq!(remove_group_member(&mut db, g, u2.id, u1.id).unwrap_err(), CoreError::NotFound);
    assert_eq!(remove_group_member(&mut db, 4242, u3.id, u1.id).unwrap_err(), CoreError::NotFound);
}

#[test]
fn group_creation_puts_creator_first_and_dedups() {
    let mut db = Db::new();
    let u1 = account(&mut db, "alice");
    let u2 = account(&mut db, "bob");
    let g = create_group(
        &mut db,
        CreateGroup { name: "climbers".to_string(), members: vec![u2.id, u1.id, u2.id, 77] },
        u1.id,
    )
    .unwrap();
    assert_eq!(g.members, vec![u1.id, u2.id, 77]);
    assert_eq!(g.creator_id, u1.id);
    assert_eq!(g.name, "climbers");
}

#[test]
fn group_name_must_have_three_to_fifty_characters() {
    let mut db = Db::new();
    let u1 = account(&mut db, "alice");
    let short = create_group(&mut db, CreateGroup { name: "ab".to_string(), members: vec![] }, u1.id);
    assert_eq!(short.unwrap_err(), CoreError::ValidationFailed);
    let long = create_group(&mut db, CreateGroup { name: "x".repeat(51), members: vec![] }, u1.id);
    assert_eq!(long.unwrap_err(), CoreError::ValidationFailed);
    let edge = create_group(&mut db, CreateGroup { name: "é".repeat(50), members: vec![] }, u1.id);
    assert!(edge.is_ok());
    assert!(db.groups.len() == 1);
}

#[test]
fn only_the_creator_renames() {
    let mut db = Db::new();
    let u1 = account(&mut db, "alice");
    let u2 = account(&mut db, "bob");
    let u3 = account(&mut db, "carol");
    let g = group_of(&mut db, u1.id, vec![u2.id]);
    let r = update_group(&mut db, g, UpdateGroup { name: "walkers".to_string() }, u2.id);
    assert_eq!(r.unwrap_err(), CoreError::Forbidden);
    let r = update_group(&mut db, g, UpdateGroup { name: "walkers".to_string() }, u3.id);
    assert_eq!(r.unwrap_err(), CoreError::NotFound);
    let r = update_group(&mut db, g, UpdateGroup { name: "no".to_string() }, u1.id);
    assert_eq!(r.unwrap_err(), CoreError::ValidationFailed);
    let r = update_group(&mut db, g, UpdateGroup { name: "walkers".to_string() }, u1.id).unwrap();
    assert_eq!(r.name, "walkers");
    assert_eq!(get_group_by_id(&db, g, u2.id).unwrap().name, "walkers");
}

#[test]
fn only_the_creator_adds_members() {
    let mut db = Db::new();
    let u1 = account(&mut db, "alice");
    let u2 = account(&mut db, "bob");
    let u3 = account(&mut db, "carol");
    let g = group_of(&mut db, u1.id, vec![u2.id]);
    let r = add_group_members(&mut db, g, AddGroupMembers { members: vec![u3.id] }, u2.id);
    assert_eq!(r.unwrap_err(), CoreError::NotFound);
    let r = add_group_members(&mut db, g, AddGroupMembers { members: vec![u3.id, u2.id, u3.id] }, u1.id);
    assert_eq!(r.unwrap().members, vec![u1.id, u2.id, u3.id]);
    let unchanged = add_group_members(&mut db, g, AddGroupMembers { members: vec![u2.id] }, u1.id);
    assert_eq!(unchanged.unwrap().members, vec![u1.id, u2.id, u3.id]);
}

#[test]
fn groups_are_seen_by_members_only() {
    let mut db = Db::new();
    let u1 = account(&mut db, "alice");
    let u2 = account(&mut db, "bob");
    let u3 = account(&mut db, "carol");
    let g1 = group_of(&mut db, u1.id, vec![u2.id]);
    let g2 = group_of(&mut db, u3.id, vec![u2.id]);
    let ids: Vec<u64> = get_user_groups(&db, u2.id).iter().map(|g| g.id).collect();
    assert_eq!(ids, vec![g1, g2]);
    let ids: Vec<u64> = get_user_groups(&db, u1.id).iter().map(|g| g.id).collect();
    assert_eq!(ids, vec![g1]);
    assert_eq!(get_group_by_id(&db, g2, u1.id).unwrap_err(), CoreError::NotFound);
    assert_eq!(get_group_by_id(&db, 999, u1.id).unwrap_err(), CoreError::NotFound);
}

#[test]
fn only_the_creator_deletes_a_group() {
    let mut db = Db::new();
    let u1 = account(&mut db, "alice");
    let u2 = account(&mut db, "bob");
    let g = group_of(&mut db, u1.id, vec![u2.id]);
    assert_eq!(delete_group(&mut db, g, u2.id).unwrap_err(), CoreError::NotFound);
    assert_eq!(delete_group(&mut db, g, u1.id).unwrap().id, g);
    assert!(db.groups.is_empty());
    assert_eq!(delete_group(&mut db, g, u1.id).unwrap_err(), CoreError::NotFound);
}

#[test]
fn identifiers_are_fresh_across_collections() {
    let mut db = Db::new();
    let a = account(&mut db, "alice");
    let b = account(&mut db, "bob");
    let req = send_friend_request(&mut db, a.id, b.id).unwrap();
    let g = group_of(&mut db, a.id, vec![]);
    assert_eq!(vec![a.id, b.id, req.id, g], vec![1, 2, 3, 4]);
}

#[test]
fn exhausted_identifiers_fail_as_storage_failure() {
    let mut db = Db::new();
    let a = account(&mut db, "alice");
    let b = account(&mut db, "bob");
    db.next_id = u64::MAX;
    assert_eq!(send_friend_request(&mut db, a.id, b.id).unwrap_err(), CoreError::StorageFailure);
    assert!(db.friends.is_empty());
}
