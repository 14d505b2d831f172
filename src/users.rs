//! Users: accounts, their lookup, update and deletion, sign-in against stored
//! password hashes, locations, and the users found near a point.

use vstd::prelude::*;
use crate::friends::{find_user, has_user, lemma_user_index, user_index};
use crate::model::{
    copy_opt_text, copy_text, lemma_users_replaced, opt_text, CoreError, Db, DbModel, Location,
    User, UserRole, UserView,
};
use crate::ranking::{
    candidates_upto, is_top_ranked, lemma_candidates, top_ranked, Candidate,
};
use crate::stories::DEFAULT_RADIUS_M;

verus! {

/// Most users in a proximity listing when no limit is given.
pub const DEFAULT_NEARBY_USERS: i64 = 50;

/// Whether `password` matches the bcrypt hash `hash`.
pub uninterp spec fn bcrypt_verifies(password: Seq<char>, hash: Seq<char>) -> bool;

/// Relies on `bcrypt::hash` with `bcrypt::DEFAULT_COST`: a salted hash of
/// `password`, drawn with a fresh random salt, that `bcrypt::verify` accepts for
/// the same password; `None` when the hash could not be made.
#[verifier::external_body]
fn hash_password(password: &str) -> (r: Option<String>)
    ensures
        r matches Some(h) ==> bcrypt_verifies(password@, h@),
{
    bcrypt::hash(password, bcrypt::DEFAULT_COST).ok()
}

/// Relies on `bcrypt::verify`: whether `password` matches the bcrypt `hash`; a
/// hash that cannot be read matches nothing. The answer depends on the two texts alone.
#[verifier::external_body]
fn password_matches(password: &str, hash: &str) -> (r: bool)
    ensures
        r == bcrypt_verifies(password@, hash@),
{
    bcrypt::verify(password, hash).unwrap_or(false)
}

pub struct CreateUser {
    pub username: String,
    pub email: String,
    pub password: String,
    pub role: UserRole,
    pub bio: String,
    pub avatar: Option<String>,
    pub location: Option<Location>,
}

pub struct UpdateUser {
    pub username: String,
    pub email: String,
    pub password: String,
    pub role: UserRole,
    pub bio: String,
    pub avatar: Option<String>,
}

pub struct AuthRegister {
    pub username: String,
    pub email: String,
    pub password: String,
    pub bio: String,
    pub avatar: Option<String>,
    pub location: Location,
}

pub struct AuthLogin {
    pub credential: String,
    pub password: String,
}

/// A user to look up: by email when one is given, else by identifier.
pub struct FindFriend {
    pub email: Option<String>,
    pub user_id: Option<u64>,
}

/// The record that a new account gets, given its identifier and password hash.
pub open spec fn new_user(id: u64, p: CreateUser, hash: Seq<char>) -> UserView {
    UserView {
        id,
        username: p.username@,
        email: p.email@,
        password: hash,
        role: p.role,
        bio: p.bio@,
        avatar: opt_text(p.avatar),
        location: p.location,
    }
}

pub open spec fn create_user_model(m: DbModel, p: CreateUser, hash: Seq<char>) -> (DbModel, Result<UserView, CoreError>) {
    if m.next_id == u64::MAX {
        (m, Err(CoreError::StorageFailure))
    } else {
        let u = new_user(m.next_id, p, hash);
        (DbModel { next_id: (m.next_id + 1) as u64, users: m.users.push(u), ..m }, Ok(u))
    }
}

pub open spec fn updated_user(old: UserView, p: UpdateUser, hash: Seq<char>) -> UserView {
    UserView {
        username: p.username@,
        email: p.email@,
        password: hash,
        role: p.role,
        bio: p.bio@,
        avatar: opt_text(p.avatar),
        ..old
    }
}

pub open spec fn update_user_model(m: DbModel, id: u64, p: UpdateUser, hash: Seq<char>) -> (DbModel, Result<UserView, CoreError>) {
    if !has_user(m.users, id) {
        (m, Err(CoreError::NotFound))
    } else {
        let i = user_index(m.users, id);
        let u = updated_user(m.users[i], p, hash);
        (DbModel { users: m.users.update(i, u), ..m }, Ok(u))
    }
}

pub open spec fn delete_user_model(m: DbModel, id: u64) -> (DbModel, Result<UserView, CoreError>) {
    if !has_user(m.users, id) {
        (m, Err(CoreError::NotFound))
    } else {
        let i = user_index(m.users, id);
        (DbModel { users: m.users.remove(i), ..m }, Ok(m.users[i]))
    }
}

pub open spec fn locate_user_model(m: DbModel, id: u64, loc: Location) -> (DbModel, Result<UserView, CoreError>) {
    if !has_user(m.users, id) {
        (m, Err(CoreError::NotFound))
    } else {
        let i = user_index(m.users, id);
        let u = UserView { location: Some(loc), ..m.users[i] };
        (DbModel { users: m.users.update(i, u), ..m }, Ok(u))
    }
}

/// The user `id`, if stored.
pub open spec fn user_with_id(m: DbModel, id: u64) -> Result<UserView, CoreError> {
    if has_user(m.users, id) {
        Ok(m.users[user_index(m.users, id)])
    } else {
        Err(CoreError::NotFound)
    }
}

/// Position of the first user with the given email.
pub open spec fn first_with_email(s: Seq<UserView>, email: Seq<char>) -> Option<int> {
    if exists|i: int| 0 <= i < s.len() && s[i].email == email {
        Some(choose|i: int| 0 <= i < s.len() && s[i].email == email && forall|j: int| 0 <= j < i ==> s[j].email != email)
    } else {
        None
    }
}

/// A sign-in credential names a user by username or by email.
pub open spec fn names_user(u: UserView, credential: Seq<char>) -> bool {
    u.username == credential || u.email == credential
}

/// Position of the first user that `credential` names.
pub open spec fn first_named(s: Seq<UserView>, credential: Seq<char>) -> Option<int> {
    if exists|i: int| 0 <= i < s.len() && names_user(s[i], credential) {
        Some(choose|i: int| 0 <= i < s.len() && names_user(s[i], credential) && forall|j: int| 0 <= j < i ==> !names_user(s[j], credential))
    } else {
        None
    }
}

pub open spec fn user_by_email_model(m: DbModel, email: Seq<char>) -> Result<UserView, CoreError> {
    match first_with_email(m.users, email) {
        Some(i) => Ok(m.users[i]),
        None => Err(CoreError::NotFound),
    }
}

pub open spec fn find_friend_model(m: DbModel, f: FindFriend) -> Result<UserView, CoreError> {
    match f.email {
        Some(e) => user_by_email_model(m, e@),
        None => match f.user_id {
            Some(id) => user_with_id(m, id),
            None => Err(CoreError::ValidationFailed),
        },
    }
}

/// The outcome of signing in with `credential` and `password`.
pub open spec fn login_model(m: DbModel, credential: Seq<char>, password: Seq<char>) -> Result<UserView, CoreError> {
    match first_named(m.users, credential) {
        None => Err(CoreError::NotFound),
        Some(i) => if bcrypt_verifies(password, m.users[i].password) {
            Ok(m.users[i])
        } else {
            Err(CoreError::NotFound)
        },
    }
}

/// `r` is the outcome that the model gives.
pub open spec fn user_result_is(model: Result<UserView, CoreError>, r: Result<User, CoreError>) -> bool {
    match model {
        Ok(x) => r is Ok && r->Ok_0@ == x,
        Err(e) => r == Err::<User, CoreError>(e),
    }
}

pub open spec fn nearby_user_keep(m: DbModel, viewer: u64, distances: Seq<u64>, radius: u64) -> spec_fn(int) -> bool {
    |i: int| m.users[i].location is Some && m.users[i].id != viewer && distances[i] <= radius
}

pub open spec fn user_distance(distances: Seq<u64>) -> spec_fn(int) -> u64 {
    |i: int| distances[i]
}

pub open spec fn no_expiry() -> spec_fn(int) -> i64 {
    |i: int| 0i64
}

pub open spec fn nearby_user_candidates(m: DbModel, viewer: u64, distances: Seq<u64>, radius: u64) -> Seq<Candidate> {
    candidates_upto(nearby_user_keep(m, viewer, distances, radius), user_distance(distances), no_expiry(), m.users.len() as int)
}

pub open spec fn users_at(m: DbModel, picked: Seq<Candidate>) -> Seq<UserView> {
    picked.map_values(|c: Candidate| m.users[c.index as int])
}

fn push_user(db: &mut Db, u: User)
    requires
        old(db)@.wf(),
        u.id == old(db)@.next_id - 1,
        old(db)@.next_id >= 1,
        forall|i: int| 0 <= i < old(db)@.users.len() ==> old(db)@.users[i].id < u.id,
    ensures
        final(db)@ == (DbModel { users: old(db)@.users.push(u@), ..old(db)@ }),
        final(db)@.wf(),
{
    let ghost m = db@;
    let ghost v = u@;
    db.users.push(u);
    proof {
        let n = db@;
        assert(n.users =~= m.users.push(v));
        assert(n == (DbModel { users: n.users, ..m }));
        lemma_users_replaced(m, n.users);
    }
}

fn replace_user(db: &mut Db, i: usize, u: User)
    requires
        old(db)@.wf(),
        i < old(db)@.users.len(),
        u.id == old(db)@.users[i as int].id,
    ensures
        final(db)@ == (DbModel { users: old(db)@.users.update(i as int, u@), ..old(db)@ }),
        final(db)@.wf(),
{
    let ghost m = db@;
    let ghost v = u@;
    db.users.set(i, u);
    proof {
        let n = db@;
        assert(n.users =~= m.users.update(i as int, v));
        assert(n == (DbModel { users: n.users, ..m }));
        lemma_users_replaced(m, n.users);
    }
}

/// Stores a new account whose password is already hashed as `password_hash`.
pub fn create_user_with_hash(db: &mut Db, payload: CreateUser, password_hash: String) -> (r: Result<User, CoreError>)
    requires
        old(db)@.wf(),
    ensures
        final(db)@ == create_user_model(old(db)@, payload, password_hash@).0,
        user_result_is(create_user_model(old(db)@, payload, password_hash@).1, r),
        final(db)@.wf(),
{
    let ghost m = db@;
    let ghost p = payload;
    let id = match db.allocate_id() {
        Ok(id) => id,
        Err(e) => return Err(e),
    };
    let u = User {
        id,
        username: payload.username,
        email: payload.email,
        password: password_hash,
        role: payload.role,
        bio: payload.bio,
        avatar: payload.avatar,
        location: payload.location,
    };
    let out = u.copy();
    push_user(db, u);
    Ok(out)
}

/// Creates an account, storing a salted hash of its password in place of the password.
pub fn create_user(db: &mut Db, payload: CreateUser) -> (r: Result<User, CoreError>)
    requires
        old(db)@.wf(),
    ensures
        r is Err ==> r == Err::<User, CoreError>(CoreError::StorageFailure) && final(db)@ == old(db)@,
        old(db)@.next_id == u64::MAX ==> r is Err,
        r is Ok ==> exists|h: Seq<char>| {
            &&& bcrypt_verifies(payload.password@, h)
            &&& final(db)@ == create_user_model(old(db)@, payload, h).0
            &&& user_result_is(create_user_model(old(db)@, payload, h).1, r)
        },
        final(db)@.wf(),
{
    let hash = match hash_password(payload.password.as_str()) {
        Some(h) => h,
        None => return Err(CoreError::StorageFailure),
    };
    create_user_with_hash(db, payload, hash)
}

/// Creates an account with the plain user role.
pub fn register(db: &mut Db, payload: AuthRegister) -> (r: Result<User, CoreError>)
    requires
        old(db)@.wf(),
    ensures
        r is Err ==> r == Err::<User, CoreError>(CoreError::StorageFailure) && final(db)@ == old(db)@,
        r is Ok ==> exists|h: Seq<char>| {
            &&& bcrypt_verifies(payload.password@, h)
            &&& r->Ok_0@ == new_user(old(db)@.next_id, CreateUser {
                username: payload.username,
                email: payload.email,
                password: payload.password,
                role: UserRole::User,
                bio: payload.bio,
                avatar: payload.avatar,
                location: Some(payload.location),
            }, h)
            &&& final(db)@ == (DbModel {
                next_id: (old(db)@.next_id + 1) as u64,
                users: old(db)@.users.push(r->Ok_0@),
                ..old(db)@
            })
        },
        final(db)@.wf(),
{
    let p = CreateUser {
        username: payload.username,
        email: payload.email,
        password: payload.password,
        role: UserRole::User,
        bio: payload.bio,
        avatar: payload.avatar,
        location: Some(payload.location),
    };
    create_user(db, p)
}

/// All users, in store order.
pub fn get_users(db: &Db) -> (r: Vec<User>)
    ensures
        r@.map_values(|u: User| u@) == db@.users,
{
    let mut r: Vec<User> = Vec::new();
    let mut i: usize = 0;
    while i < db.users.len()
        invariant
            i <= db@.users.len(),
            r@.map_values(|u: User| u@) == db@.users.subrange(0, i as int),
        decreases db@.users.len() - i,
    {
        let ghost before = r@.map_values(|u: User| u@);
        r.push(db.users[i].copy());
        assert(r@.map_values(|u: User| u@) =~= before.push(db@.users[i as int]));
        assert(db@.users.subrange(0, i + 1) =~= db@.users.subrange(0, i as int).push(db@.users[i as int]));
        i = i + 1;
    }
    assert(db@.users.subrange(0, db@.users.len() as int) =~= db@.users);
    r
}

/// The user `id`.
pub fn get_user_by_id(db: &Db, id: u64) -> (r: Result<User, CoreError>)
    requires
        db@.wf(),
    ensures
        user_result_is(user_with_id(db@, id), r),
{
    match find_user(&db.users, id) {
        None => Err(CoreError::NotFound),
        Some(i) => {
            proof { lemma_user_index(db@, id, i as int); }
            Ok(db.users[i].copy())
        },
    }
}

/// The user `user_id`.
pub fn find_user_by_id(db: &Db, user_id: u64) -> (r: Result<User, CoreError>)
    requires
        db@.wf(),
    ensures
        user_result_is(user_with_id(db@, user_id), r),
{
    get_user_by_id(db, user_id)
}

/// The first user with the given email.
pub fn find_user_by_email(db: &Db, email: &String) -> (r: Result<User, CoreError>)
    ensures
        user_result_is(user_by_email_model(db@, email@), r),
{
    let ghost s = db@.users;
    let mut i: usize = 0;
    while i < db.users.len()
        invariant
            s == db@.users,
            i <= s.len(),
            forall|j: int| 0 <= j < i ==> s[j].email != email@,
        decreases s.len() - i,
    {
        if db.users[i].email == *email {
            proof {
                assert(s[i as int].email == email@);
                let k = choose|k: int| 0 <= k < s.len() && s[k].email == email@ && forall|j: int| 0 <= j < k ==> s[j].email != email@;
                if k < i {
                } else if k > i {
                    assert(s[i as int].email != email@);
                }
            }
            return Ok(db.users[i].copy());
        }
        i = i + 1;
    }
    Err(CoreError::NotFound)
}

/// Looks a user up by email when one is given, else by identifier; with neither,
/// the request is invalid.
pub fn find_friend(db: &Db, payload: &FindFriend) -> (r: Result<User, CoreError>)
    requires
        db@.wf(),
    ensures
        user_result_is(find_friend_model(db@, *payload), r),
{
    match &payload.email {
        Some(e) => find_user_by_email(db, e),
        None => match payload.user_id {
            Some(id) => get_user_by_id(db, id),
            None => Err(CoreError::ValidationFailed),
        },
    }
}

/// Position of the first user named by `credential`, by username or email.
pub fn first_named_user(db: &Db, credential: &String) -> (r: Option<usize>)
    ensures
        r is None ==> first_named(db@.users, credential@) is None,
        r matches Some(i) ==> first_named(db@.users, credential@) == Some(i as int) && i < db@.users.len(),
{
    let ghost s = db@.users;
    let mut i: usize = 0;
    while i < db.users.len()
        invariant
            s == db@.users,
            i <= s.len(),
            forall|j: int| 0 <= j < i ==> !names_user(s[j], credential@),
        decreases s.len() - i,
    {
        if db.users[i].username == *credential || db.users[i].email == *credential {
            proof {
                assert(names_user(s[i as int], credential@));
                let k = choose|k: int| 0 <= k < s.len() && names_user(s[k], credential@) && forall|j: int| 0 <= j < k ==> !names_user(s[j], credential@);
                if k > i {
                    assert(!names_user(s[i as int], credential@));
                }
            }
            return Some(i);
        }
        i = i + 1;
    }
    None
}

/// Signs in: the first user named by the credential, if the password matches its
/// stored hash. An unknown credential and a wrong password fail alike.
pub fn login(db: &Db, payload: &AuthLogin) -> (r: Result<User, CoreError>)
    ensures
        user_result_is(login_model(db@, payload.credential@, payload.password@), r),
{
    match first_named_user(db, &payload.credential) {
        None => Err(CoreError::NotFound),
        Some(i) => {
            if password_matches(payload.password.as_str(), db.users[i].password.as_str()) {
                Ok(db.users[i].copy())
            } else {
                Err(CoreError::NotFound)
            }
        },
    }
}

/// Replaces the account fields of user `id`; the password is stored as `password_hash`.
pub fn update_user_with_hash(db: &mut Db, id: u64, payload: UpdateUser, password_hash: String) -> (r: Result<User, CoreError>)
    requires
        old(db)@.wf(),
    ensures
        final(db)@ == update_user_model(old(db)@, id, payload, password_hash@).0,
        user_result_is(update_user_model(old(db)@, id, payload, password_hash@).1, r),
        final(db)@.wf(),
{
    let ghost m = db@;
    let i = match find_user(&db.users, id) {
        None => return Err(CoreError::NotFound),
        Some(i) => i,
    };
    proof { lemma_user_index(m, id, i as int); }
    let u = User {
        id: db.users[i].id,
        username: payload.username,
        email: payload.email,
        password: password_hash,
        role: payload.role,
        bio: payload.bio,
        avatar: payload.avatar,
        location: db.users[i].location,
    };
    let out = u.copy();
    replace_user(db, i, u);
    Ok(out)
}

/// Replaces the account fields of user `id`, storing a salted hash of the new password.
pub fn update_user_by_id(db: &mut Db, id: u64, payload: UpdateUser) -> (r: Result<User, CoreError>)
    requires
        old(db)@.wf(),
    ensures
        !has_user(old(db)@.users, id) ==> r == Err::<User, CoreError>(CoreError::NotFound),
        has_user(old(db)@.users, id) && r is Err ==> r == Err::<User, CoreError>(CoreError::StorageFailure),
        r is Ok ==> exists|h: Seq<char>| {
            &&& bcrypt_verifies(payload.password@, h)
            &&& final(db)@ == update_user_model(old(db)@, id, payload, h).0
            &&& user_result_is(update_user_model(old(db)@, id, payload, h).1, r)
        },
        r is Err ==> final(db)@ == old(db)@,
        final(db)@.wf(),
{
    match find_user(&db.users, id) {
        None => return Err(CoreError::NotFound),
        Some(i) => {
            assert(db@.users[i as int].id == id);
        },
    }
    let hash = match hash_password(payload.password.as_str()) {
        Some(h) => h,
        None => return Err(CoreError::StorageFailure),
    };
    update_user_with_hash(db, id, payload, hash)
}

/// Deletes user `id`. Its messages, stories and edges stay.
pub fn delete_user_by_id(db: &mut Db, id: u64) -> (r: Result<User, CoreError>)
    requires
        old(db)@.wf(),
    ensures
        final(db)@ == delete_user_model(old(db)@, id).0,
        user_result_is(delete_user_model(old(db)@, id).1, r),
        final(db)@.wf(),
{
    let ghost m = db@;
    let i = match find_user(&db.users, id) {
        None => return Err(CoreError::NotFound),
        Some(i) => i,
    };
    proof { lemma_user_index(m, id, i as int); }
    let u = db.users.remove(i);
    proof {
        let n = db@;
        assert(n.users =~= m.users.remove(i as int));
        assert forall|p: int, q: int| 0 <= p < q < n.users.len() implies n.users[p].id != n.users[q].id by {
            let pp = if p < i { p } else { p + 1 };
            let qq = if q < i { q } else { q + 1 };
            assert(n.users[p] == m.users[pp]);
            assert(n.users[q] == m.users[qq]);
        }
        assert forall|p: int| 0 <= p < n.users.len() implies n.users[p].id < n.next_id by {
            let pp = if p < i { p } else { p + 1 };
            assert(n.users[p] == m.users[pp]);
        }
        assert(n == (DbModel { users: n.users, ..m }));
        lemma_users_replaced(m, n.users);
    }
    Ok(u)
}

/// Records where user `user_id` is.
pub fn update_user_location(db: &mut Db, user_id: u64, location: Location) -> (r: Result<User, CoreError>)
    requires
        old(db)@.wf(),
    ensures
        final(db)@ == locate_user_model(old(db)@, user_id, location).0,
        user_result_is(locate_user_model(old(db)@, user_id, location).1, r),
        final(db)@.wf(),
{
    let ghost m = db@;
    let i = match find_user(&db.users, user_id) {
        None => return Err(CoreError::NotFound),
        Some(i) => i,
    };
    proof { lemma_user_index(m, user_id, i as int); }
    let old_user = &db.users[i];
    let u = User {
        id: old_user.id,
        username: copy_text(&old_user.username),
        email: copy_text(&old_user.email),
        password: copy_text(&old_user.password),
        role: old_user.role,
        bio: copy_text(&old_user.bio),
        avatar: copy_opt_text(&old_user.avatar),
        location: Some(location),
    };
    let out = u.copy();
    replace_user(db, i, u);
    Ok(out)
}

/// The users other than `user_id` with a known location within `radius` meters
/// (5000 when not given), nearest first, at most `limit` (50 when not given); a
/// limit below 1 is refused. `distances[i]` is the distance in meters from the
/// query point to user `i`.
pub fn find_nearby_users(db: &Db, user_id: u64, distances: &Vec<u64>, radius: Option<u64>, limit: Option<i64>) -> (r: Result<Vec<User>, CoreError>)
    requires
        db@.wf(),
        distances@.len() == db@.users.len(),
    ensures
        ({
            let lim = match limit { Some(l) => l, None => DEFAULT_NEARBY_USERS };
            let rad = match radius { Some(x) => x, None => DEFAULT_RADIUS_M };
            &&& lim < 1 ==> r == Err::<Vec<User>, CoreError>(CoreError::ValidationFailed)
            &&& lim >= 1 ==> r is Ok && exists|picked: Seq<Candidate>| {
                &&& is_top_ranked(nearby_user_candidates(db@, user_id, distances@, rad), if lim > usize::MAX { usize::MAX as nat } else { lim as nat }, picked)
                &&& r->Ok_0@.map_values(|u: User| u@) == users_at(db@, picked)
            }
        }),
{
    let ghost m = db@;
    let lim: i64 = match limit {
        Some(l) => l,
        None => DEFAULT_NEARBY_USERS,
    };
    if lim < 1 {
        return Err(CoreError::ValidationFailed);
    }
    let cap: usize = if lim as u64 > usize::MAX as u64 { usize::MAX } else { lim as usize };
    let radius = match radius {
        Some(x) => x,
        None => DEFAULT_RADIUS_M,
    };
    let ghost keep = nearby_user_keep(m, user_id, distances@, radius);
    let mut cands: Vec<Candidate> = Vec::new();
    let mut i: usize = 0;
    while i < db.users.len()
        invariant
            m == db@,
            distances@.len() == m.users.len(),
            keep == nearby_user_keep(m, user_id, distances@, radius),
            i <= m.users.len(),
            cands@ == candidates_upto(keep, user_distance(distances@), no_expiry(), i as int),
        decreases m.users.len() - i,
    {
        let u = &db.users[i];
        if u.location.is_some() && u.id != user_id && distances[i] <= radius {
            cands.push(Candidate { distance: distances[i], expires_at: 0, index: i });
            assert(cands@ =~= candidates_upto(keep, user_distance(distances@), no_expiry(), i + 1));
        }
        i = i + 1;
    }
    proof { lemma_candidates(keep, user_distance(distances@), no_expiry(), m.users.len() as int); }
    let picked = top_ranked(&cands, cap);
    proof {
        assert forall|k: int| 0 <= k < picked@.len() implies picked@[k].index < m.users.len() by {
            let q = choose|q: int| 0 <= q < cands@.len() && cands@[q] == picked@[k];
            assert(cands@[q].index < m.users.len());
        }
    }
    let mut r: Vec<User> = Vec::new();
    let mut k: usize = 0;
    while k < picked.len()
        invariant
            m == db@,
            k <= picked@.len(),
            forall|j: int| 0 <= j < picked@.len() ==> picked@[j].index < m.users.len(),
            r@.map_values(|u: User| u@) == users_at(m, picked@.subrange(0, k as int)),
        decreases picked@.len() - k,
    {
        let ghost before = r@.map_values(|u: User| u@);
        let idx = picked[k].index;
        r.push(db.users[idx].copy());
        assert(picked@.subrange(0, k + 1) =~= picked@.subrange(0, k as int).push(picked@[k as int]));
        assert(r@.map_values(|u: User| u@) =~= before.push(m.users[idx as int]));
        assert(users_at(m, picked@.subrange(0, k + 1)) =~= users_at(m, picked@.subrange(0, k as int)).push(m.users[idx as int]));
        k = k + 1;
    }
    assert(picked@.subrange(0, picked@.len() as int) =~= picked@);
    Ok(r)
}

} // verus!
