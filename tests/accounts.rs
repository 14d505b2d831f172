use snapshoot_core::api_response::ApiResponse;
use snapshoot_core::auth::{bearer_token, user_has_any_of_these_roles};
use snapshoot_core::media::{
    check_upload, file_extension_from_type, media_for_upload, new_object_key, object_key_for,
    object_key_from_url, object_url, validate_content_type, validate_file_size, MediaType,
};
use snapshoot_core::model::{CoreError, Db, Location, UserRole};
use snapshoot_core::text::{trim, trim_lowercase};
use snapshoot_core::users::{
    create_user, create_user_with_hash, delete_user_by_id, find_friend, find_nearby_users,
    find_user_by_email, find_user_by_id, get_user_by_id, get_users, login, register,
    update_user_by_id, update_user_location, AuthLogin, AuthRegister, CreateUser, FindFriend,
    UpdateUser,
};

fn payload(name: &str) -> CreateUser {
    CreateUser {
        username: name.to_string(),
        email: format!("{}@example.com", name),
        password: "correct horse battery".to_string(),
        role: UserRole::User,
        bio: "a bio of enough length".to_string(),
        avatar: Some("http://img/a.png".to_string()),
        location: None,
    }
}

#[test]
fn extensions_of_the_allowed_types() {
    let cases = [
        ("image/jpeg", "jpg"),
        ("image/png", "png"),
        ("image/gif", "gif"),
        ("image/webp", "webp"),
        ("video/mp4", "mp4"),
        ("video/webm", "webm"),
        ("video/ogg", "ogv"),
        ("video/avi", "avi"),
        ("video/mov", "mov"),
        ("text/plain", "bin"),
        ("image/jpe", "bin"),
        ("", "bin"),
    ];
    for (ct, ext) in cases {
        assert_eq!(file_extension_from_type(ct), ext);
    }
}

#[test]
fn content_types_outside_the_allow_list_are_refused() {
    assert!(validate_content_type("image/webp").is_ok());
    assert!(validate_content_type("video/mov").is_ok());
    assert_eq!(
        validate_content_type("application/pdf").unwrap_err(),
        "Unsupported content type: application/pdf"
    );
    assert!(validate_content_type("image/svg+xml").is_err());
}

#[test]
fn size_limits_of_images_and_videos() {
    assert!(validate_file_size("image/png", 5 * 1024 * 1024).is_ok());
    assert_eq!(validate_file_size("image/png", 5 * 1024 * 1024 + 1).unwrap_err(), "Images must be under 5MB");
    assert!(validate_file_size("video/mp4", 10 * 1024 * 1024).is_ok());
    assert_eq!(
        validate_file_size("video/mp4", 10 * 1024 * 1024 + 1).unwrap_err(),
        "Videos must be under 10MB (approximately 10 seconds)"
    );
    assert!(validate_file_size("application/pdf", usize::MAX).is_ok());
}

#[test]
fn uploads_are_checked_type_first() {
    assert_eq!(check_upload("text/html", usize::MAX).unwrap_err(), "Unsupported content type: text/html");
    assert_eq!(check_upload("image/gif", 6 * 1024 * 1024).unwrap_err(), "Images must be under 5MB");
    assert!(check_upload("video/webm", 1024).is_ok());
}

#[test]
fn media_of_an_upload() {
    let m = media_for_upload("image/jpeg", "u".to_string());
    assert_eq!(m.media_type, MediaType::Image);
    assert_eq!(m.duration, None);
    let v = media_for_upload("video/ogg", "v".to_string());
    assert_eq!(v.media_type, MediaType::Video);
    assert_eq!(v.duration, Some(10));
}

#[test]
fn object_names_and_urls() {
    assert_eq!(object_key_for("abc", "image/png"), "abc.png");
    assert_eq!(object_key_for("abc", "x/y"), "abc.bin");
    let key = new_object_key("video/mp4");
    assert_eq!(key.len(), 40);
    assert!(key.ends_with(".mp4"));
    assert_eq!(key.matches('-').count(), 4);
    assert!(key[..36].chars().all(|c| c == '-' || c.is_ascii_digit() || ('a'..='f').contains(&c)));
    assert!(!key.contains('/'));
    assert_ne!(new_object_key("video/mp4"), key);
    let url = object_url("http://minio:9000", "media", &key);
    assert_eq!(url, format!("http://minio:9000/media/{}", key));
    assert_eq!(object_key_from_url(&url), key);
    assert_eq!(object_key_from_url("plain"), "plain");
    assert_eq!(object_key_from_url("http://h/b/"), "");
}

#[test]
fn bearer_tokens() {
    assert_eq!(bearer_token("Bearer abc.def").unwrap(), "abc.def");
    assert_eq!(bearer_token("Bearer ").unwrap(), "");
    assert_eq!(bearer_token("Basic abc").unwrap_err(), "Invalid token format, expected Bearer");
    assert!(bearer_token("bearer abc").is_err());
}

#[test]
fn role_checks() {
    assert!(user_has_any_of_these_roles(UserRole::Admin, &vec![UserRole::User, UserRole::Admin]));
    assert!(!user_has_any_of_these_roles(UserRole::User, &vec![UserRole::Admin]));
    assert!(!user_has_any_of_these_roles(UserRole::User, &vec![]));
}

#[test]
fn api_response_envelopes() {
    let ok = ApiResponse::success("done", 5);
    assert!(ok.success);
    assert_eq!(ok.message, "done");
    assert_eq!(ok.data, Some(5));
    assert_eq!(ok.error, None);
    let err = ApiResponse::error("failed", "why");
    assert!(!err.success);
    assert_eq!(err.data, None);
    assert_eq!(err.error, Some("why"));
}

#[test]
fn accounts_are_stored_hashed_and_sign_in_works() {
    let mut db = Db::new();
    let u = create_user(&mut db, payload("alice")).unwrap();
    assert_ne!(u.password, "correct horse battery");
    assert!(u.password.starts_with("$2"));
    let good = AuthLogin { credential: "alice".to_string(), password: "correct horse battery".to_string() };
    assert_eq!(login(&db, &good).unwrap().id, u.id);
    let by_mail = AuthLogin { credential: "alice@example.com".to_string(), password: "correct horse battery".to_string() };
    assert_eq!(login(&db, &by_mail).unwrap().id, u.id);
    let bad = AuthLogin { credential: "alice".to_string(), password: "wrong".to_string() };
    assert_eq!(login(&db, &bad).unwrap_err(), CoreError::NotFound);
    let nobody = AuthLogin { credential: "zed".to_string(), password: "correct horse battery".to_string() };
    assert_eq!(login(&db, &nobody).unwrap_err(), CoreError::NotFound);
}

#[test]
fn registration_makes_a_plain_user() {
    let mut db = Db::new();
    let reg = AuthRegister {
        username: "bob".to_string(),
        email: "bob@example.com".to_string(),
        password: "a long enough secret".to_string(),
        bio: "a bio of enough length".to_string(),
        avatar: None,
        location: Location { longitude_e6: 1, latitude_e6: 2 },
    };
    let u = register(&mut db, reg).unwrap();
    assert_eq!(u.role, UserRole::User);
    assert_eq!(u.location, Some(Location { longitude_e6: 1, latitude_e6: 2 }));
    let creds = AuthLogin { credential: "bob".to_string(), password: "a long enough secret".to_string() };
    assert_eq!(login(&db, &creds).unwrap().id, u.id);
}

#[test]
fn a_malformed_stored_hash_matches_nothing() {
    let mut db = Db::new();
    create_user_with_hash(&mut db, payload("carol"), "not a hash".to_string()).unwrap();
    let creds = AuthLogin { credential: "carol".to_string(), password: "not a hash".to_string() };
    assert_eq!(login(&db, &creds).unwrap_err(), CoreError::NotFound);
}

#[test]
fn lookups_by_id_and_email() {
    let mut db = Db::new();
    let a = create_user_with_hash(&mut db, payload("alice"), "h".to_string()).unwrap();
    let b = create_user_with_hash(&mut db, payload("bob"), "h".to_string()).unwrap();
    assert_eq!(get_users(&db).len(), 2);
    assert_eq!(get_user_by_id(&db, b.id).unwrap().username, "bob");
    assert_eq!(find_user_by_id(&db, a.id).unwrap().username, "alice");
    assert_eq!(get_user_by_id(&db, 99).unwrap_err(), CoreError::NotFound);
    assert_eq!(find_user_by_email(&db, &"bob@example.com".to_string()).unwrap().id, b.id);
    assert_eq!(find_user_by_email(&db, &"x@example.com".to_string()).unwrap_err(), CoreError::NotFound);
    let by_mail = FindFriend { email: Some("alice@example.com".to_string()), user_id: Some(b.id) };
    assert_eq!(find_friend(&db, &by_mail).unwrap().id, a.id);
    let by_id = FindFriend { email: None, user_id: Some(b.id) };
    assert_eq!(find_friend(&db, &by_id).unwrap().id, b.id);
    let neither = FindFriend { email: None, user_id: None };
    assert_eq!(find_friend(&db, &neither).unwrap_err(), CoreError::ValidationFailed);
}

#[test]
fn updates_and_deletion_of_accounts() {
    let mut db = Db::new();
    let a = create_user_with_hash(&mut db, payload("alice"), "h".to_string()).unwrap();
    let change = UpdateUser {
        username: "alicia".to_string(),
        email: "alicia@example.com".to_string(),
        password: "another long secret".to_string(),
        role: UserRole::Admin,
        bio: "another bio, long one".to_string(),
        avatar: None,
    };
    let u = update_user_by_id(&mut db, a.id, change).unwrap();
    assert_eq!(u.username, "alicia");
    assert_eq!(u.role, UserRole::Admin);
    assert_ne!(u.password, "another long secret");
    let creds = AuthLogin { credential: "alicia".to_string(), password: "another long secret".to_string() };
    assert_eq!(login(&db, &creds).unwrap().id, a.id);
    let located = update_user_location(&mut db, a.id, Location { longitude_e6: 5, latitude_e6: 6 }).unwrap();
    assert_eq!(located.location, Some(Location { longitude_e6: 5, latitude_e6: 6 }));
    assert_eq!(located.username, "alicia");
    assert_eq!(update_user_location(&mut db, 77, Location { longitude_e6: 0, latitude_e6: 0 }).unwrap_err(), CoreError::NotFound);
    assert_eq!(delete_user_by_id(&mut db, a.id).unwrap().id, a.id);
    assert!(db.users.is_empty());
    assert_eq!(delete_user_by_id(&mut db, a.id).unwrap_err(), CoreError::NotFound);
}

#[test]
fn nearby_users_nearest_first() {
    let mut db = Db::new();
    let here = Some(Location { longitude_e6: 0, latitude_e6: 0 });
    let mut ids = Vec::new();
    for name in ["me", "far", "near", "unplaced", "mid"] {
        let mut p = payload(name);
        p.location = if name == "unplaced" { None } else { here };
        ids.push(create_user_with_hash(&mut db, p, "h".to_string()).unwrap().id);
    }
    let distances = vec![0, 9000, 10, 5, 300];
    let found: Vec<u64> = find_nearby_users(&db, ids[0], &distances, None, None)
        .unwrap()
        .iter()
        .map(|u| u.id)
        .collect();
    assert_eq!(found, vec![ids[2], ids[4]]);
    let found: Vec<u64> = find_nearby_users(&db, ids[0], &distances, Some(10_000), Some(2))
        .unwrap()
        .iter()
        .map(|u| u.id)
        .collect();
    assert_eq!(found, vec![ids[2], ids[4]]);
    assert_eq!(find_nearby_users(&db, ids[0], &distances, None, Some(0)).unwrap_err(), CoreError::ValidationFailed);
    assert_eq!(find_nearby_users(&db, ids[0], &distances, None, Some(-3)).unwrap_err(), CoreError::ValidationFailed);
}

#[test]
fn identifying_text_is_trimmed_and_lowered() {
    assert_eq!(trim_lowercase("  Alice@Example.COM \n"), "alice@example.com");
    assert_eq!(trim("  Keep Case  "), "Keep Case");
    assert_eq!(trim_lowercase(""), "");
}
