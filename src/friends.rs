//! The social graph: friend requests, their acceptance and removal, and who is
//! a friend of whom.

use vstd::prelude::*;
use crate::model::{joins, lemma_friends_replaced, CoreError, Db, DbModel, Friend, FriendStatus, User, UserView};

verus! {

pub open spec fn has_edge(s: Seq<Friend>, a: u64, b: u64) -> bool {
    exists|i: int| 0 <= i < s.len() && joins(s[i], a, b)
}

/// An accepted edge joins `a` and `b`, in either direction.
pub open spec fn are_friends_spec(s: Seq<Friend>, a: u64, b: u64) -> bool {
    exists|i: int| 0 <= i < s.len() && joins(s[i], a, b) && s[i].status == FriendStatus::Accepted
}

pub open spec fn edge_index(s: Seq<Friend>, a: u64, b: u64) -> int {
    choose|i: int| 0 <= i < s.len() && joins(s[i], a, b)
}

pub open spec fn has_edge_id(s: Seq<Friend>, id: u64) -> bool {
    exists|i: int| 0 <= i < s.len() && s[i].id == id
}

pub open spec fn edge_id_index(s: Seq<Friend>, id: u64) -> int {
    choose|i: int| 0 <= i < s.len() && s[i].id == id
}

pub open spec fn send_request_model(m: DbModel, from: u64, to: u64) -> (DbModel, Result<Friend, CoreError>) {
    if from == to {
        (m, Err(CoreError::SelfReference))
    } else if has_edge(m.friends, from, to) {
        (m, Err(CoreError::AlreadyExists))
    } else if m.next_id == u64::MAX {
        (m, Err(CoreError::StorageFailure))
    } else {
        let e = Friend { id: m.next_id, status: FriendStatus::Pending, user_id: from, friend_id: to };
        (DbModel { next_id: (m.next_id + 1) as u64, friends: m.friends.push(e), ..m }, Ok(e))
    }
}

pub open spec fn accept_request_model(m: DbModel, edge_id: u64, acting: u64) -> (DbModel, Result<Friend, CoreError>) {
    if has_edge_id(m.friends, edge_id) {
        let i = edge_id_index(m.friends, edge_id);
        let e = m.friends[i];
        if e.friend_id == acting && e.status == FriendStatus::Pending {
            let a = Friend { status: FriendStatus::Accepted, ..e };
            (DbModel { friends: m.friends.update(i, a), ..m }, Ok(a))
        } else {
            (m, Err(CoreError::NotFound))
        }
    } else {
        (m, Err(CoreError::NotFound))
    }
}

pub open spec fn remove_friend_model(m: DbModel, a: u64, b: u64) -> (DbModel, Result<Friend, CoreError>) {
    if has_edge(m.friends, a, b) {
        let i = edge_index(m.friends, a, b);
        (DbModel { friends: m.friends.remove(i), ..m }, Ok(m.friends[i]))
    } else {
        (m, Err(CoreError::NotFound))
    }
}

pub open spec fn other_end(e: Friend, u: u64) -> u64 {
    if e.user_id == u {
        e.friend_id
    } else {
        e.user_id
    }
}

/// The other ends of the accepted edges of `u` among the first `n` edges, in edge order.
pub open spec fn friend_ids_upto(s: Seq<Friend>, u: u64, n: int) -> Seq<u64>
    decreases n,
{
    if n <= 0 {
        Seq::empty()
    } else {
        let prev = friend_ids_upto(s, u, n - 1);
        let e = s[n - 1];
        if e.status == FriendStatus::Accepted && (e.user_id == u || e.friend_id == u) {
            prev.push(other_end(e, u))
        } else {
            prev
        }
    }
}

pub open spec fn friend_ids(s: Seq<Friend>, u: u64) -> Seq<u64> {
    friend_ids_upto(s, u, s.len() as int)
}

pub open spec fn has_user(s: Seq<UserView>, id: u64) -> bool {
    exists|i: int| 0 <= i < s.len() && s[i].id == id
}

pub open spec fn user_index(s: Seq<UserView>, id: u64) -> int {
    choose|i: int| 0 <= i < s.len() && s[i].id == id
}

/// The records of those of `ids` that name a stored user, in the order of `ids`.
pub open spec fn users_with_ids(s: Seq<UserView>, ids: Seq<u64>) -> Seq<UserView>
    decreases ids.len(),
{
    if ids.len() == 0 {
        Seq::empty()
    } else {
        let prev = users_with_ids(s, ids.drop_last());
        let id = ids.last();
        if has_user(s, id) {
            prev.push(s[user_index(s, id)])
        } else {
            prev
        }
    }
}

/// The pending requests addressed to `u` among the first `n` edges, in edge order.
pub open spec fn incoming_upto(s: Seq<Friend>, u: u64, n: int) -> Seq<Friend>
    decreases n,
{
    if n <= 0 {
        Seq::empty()
    } else {
        let prev = incoming_upto(s, u, n - 1);
        let e = s[n - 1];
        if e.friend_id == u && e.status == FriendStatus::Pending {
            prev.push(e)
        } else {
            prev
        }
    }
}

pub fn find_edge(s: &Vec<Friend>, a: u64, b: u64) -> (r: Option<usize>)
    ensures
        r is None ==> !has_edge(s@, a, b),
        r matches Some(i) ==> i < s@.len() && joins(s@[i as int], a, b),
{
    let mut i: usize = 0;
    while i < s.len()
        invariant
            i <= s@.len(),
            forall|j: int| 0 <= j < i ==> !joins(s@[j], a, b),
        decreases s@.len() - i,
    {
        let e = s[i];
        if (e.user_id == a && e.friend_id == b) || (e.user_id == b && e.friend_id == a) {
            return Some(i);
        }
        i = i + 1;
    }
    None
}

pub fn find_edge_by_id(s: &Vec<Friend>, id: u64) -> (r: Option<usize>)
    ensures
        r is None ==> !has_edge_id(s@, id),
        r matches Some(i) ==> i < s@.len() && s@[i as int].id == id,
{
    let mut i: usize = 0;
    while i < s.len()
        invariant
            i <= s@.len(),
            forall|j: int| 0 <= j < i ==> s@[j].id != id,
        decreases s@.len() - i,
    {
        if s[i].id == id {
            return Some(i);
        }
        i = i + 1;
    }
    None
}

pub fn find_user(s: &Vec<User>, id: u64) -> (r: Option<usize>)
    ensures
        r is None ==> !has_user(s@.map_values(|u: User| u@), id),
        r matches Some(i) ==> i < s@.len() && s@[i as int].id == id,
{
    let ghost v = s@.map_values(|u: User| u@);
    let mut i: usize = 0;
    while i < s.len()
        invariant
            i <= s@.len(),
            v == s@.map_values(|u: User| u@),
            forall|j: int| 0 <= j < i ==> v[j].id != id,
        decreases s@.len() - i,
    {
        if s[i].id == id {
            return Some(i);
        }
        i = i + 1;
    }
    None
}

/// With identifiers unique, the user found at `i` is the one the model names.
pub proof fn lemma_user_index(m: DbModel, id: u64, i: int)
    requires
        m.users_wf(),
        0 <= i < m.users.len(),
        m.users[i].id == id,
    ensures
        has_user(m.users, id),
        user_index(m.users, id) == i,
{
    let k = user_index(m.users, id);
    if k != i {
        if k < i {
            assert(m.users[k].id != m.users[i].id);
        } else {
            assert(m.users[i].id != m.users[k].id);
        }
    }
}

/// Whether an accepted edge joins `a` and `b`.
pub fn are_friends(db: &Db, a: u64, b: u64) -> (r: bool)
    ensures
        r == are_friends_spec(db@.friends, a, b),
{
    let mut i: usize = 0;
    while i < db.friends.len()
        invariant
            i <= db.friends@.len(),
            forall|j: int|
                0 <= j < i ==> !(joins(db.friends@[j], a, b) && db.friends@[j].status
                    == FriendStatus::Accepted),
        decreases db.friends@.len() - i,
    {
        let e = db.friends[i];
        if ((e.user_id == a && e.friend_id == b) || (e.user_id == b && e.friend_id == a))
            && e.status == FriendStatus::Accepted {
            return true;
        }
        i = i + 1;
    }
    false
}

/// Creates a pending request from `user_id` to `friend_id`, unless the two are the
/// same user or an edge of any status already joins them.
pub fn send_friend_request(db: &mut Db, user_id: u64, friend_id: u64) -> (r: Result<Friend, CoreError>)
    requires
        old(db)@.wf(),
    ensures
        (final(db)@, r) == send_request_model(old(db)@, user_id, friend_id),
        final(db)@.wf(),
{
    if user_id == friend_id {
        return Err(CoreError::SelfReference);
    }
    if let Some(_) = find_edge(&db.friends, user_id, friend_id) {
        return Err(CoreError::AlreadyExists);
    }
    let id = match db.allocate_id() {
        Ok(id) => id,
        Err(e) => return Err(e),
    };
    let e = Friend { id, status: FriendStatus::Pending, user_id, friend_id };
    db.friends.push(e);
    proof {
        let m = final(db)@;
        assert(m.friends == old(db)@.friends.push(e));
        assert forall|i: int, j: int|
            0 <= i < m.friends.len() && 0 <= j < m.friends.len() && i != j implies {
                &&& m.friends[i].id != m.friends[j].id
                &&& !joins(m.friends[i], m.friends[j].user_id, m.friends[j].friend_id)
            } by {
            if i == m.friends.len() - 1 {
                assert(!joins(old(db)@.friends[j], user_id, friend_id));
            } else if j == m.friends.len() - 1 {
                assert(!joins(old(db)@.friends[i], user_id, friend_id));
            }
        }
    }
    Ok(e)
}

/// Accepts the pending request `request_id`, acting as its recipient `user_id`.
/// An absent edge, one already accepted, and one addressed to someone else all
/// fail alike with `NotFound`.
pub fn accept_friend_request(db: &mut Db, request_id: u64, user_id: u64) -> (r: Result<Friend, CoreError>)
    requires
        old(db)@.wf(),
    ensures
        (final(db)@, r) == accept_request_model(old(db)@, request_id, user_id),
        final(db)@.wf(),
{
    let ghost m = db@;
    match find_edge_by_id(&db.friends, request_id) {
        None => Err(CoreError::NotFound),
        Some(i) => {
            proof {
                assert(m.wf());
                assert(m.friends[i as int].id == request_id);
                assert(has_edge_id(m.friends, request_id));
                let k = edge_id_index(m.friends, request_id);
                if k != i {
                    assert(m.friends[k].id != m.friends[i as int].id);
                }
            }
            let e = db.friends[i];
            if e.friend_id == user_id && e.status == FriendStatus::Pending {
                let a = Friend { status: FriendStatus::Accepted, ..e };
                db.friends.set(i, a);
                proof {
                    let n = final(db)@;
                    assert(n.friends == m.friends.update(i as int, a));
                    assert forall|p: int| 0 <= p < n.friends.len() implies {
                        &&& n.friends[p].id < n.next_id
                        &&& n.friends[p].user_id != n.friends[p].friend_id
                    } by {
                        assert(m.friends[p].id < m.next_id);
                    }
                    assert forall|p: int, q: int|
                        0 <= p < n.friends.len() && 0 <= q < n.friends.len() && p != q implies {
                            &&& n.friends[p].id != n.friends[q].id
                            &&& !joins(n.friends[p], n.friends[q].user_id, n.friends[q].friend_id)
                        } by {
                        assert(m.friends[p].id != m.friends[q].id);
                        assert(!joins(m.friends[p], m.friends[q].user_id, m.friends[q].friend_id));
                    }
                    assert(n == (DbModel { friends: n.friends, ..m }));
                    lemma_friends_replaced(m, n.friends);
                }
                Ok(a)
            } else {
                Err(CoreError::NotFound)
            }
        },
    }
}

/// Deletes the edge that joins the two users, whatever its direction and status.
pub fn delete_friend(db: &mut Db, user_id: u64, friend_id: u64) -> (r: Result<Friend, CoreError>)
    requires
        old(db)@.wf(),
    ensures
        (final(db)@, r) == remove_friend_model(old(db)@, user_id, friend_id),
        final(db)@.wf(),
{
    let ghost m = db@;
    match find_edge(&db.friends, user_id, friend_id) {
        None => Err(CoreError::NotFound),
        Some(i) => {
            proof {
                assert(m.wf());
                assert(has_edge(m.friends, user_id, friend_id));
                let k = edge_index(m.friends, user_id, friend_id);
                if k != i {
                    assert(!joins(m.friends[k], m.friends[i as int].user_id, m.friends[i as int].friend_id));
                }
            }
            let e = db.friends.remove(i);
            proof {
                let n = final(db)@;
                assert(n.friends == m.friends.remove(i as int));
                assert forall|p: int| 0 <= p < n.friends.len() implies {
                    &&& n.friends[p].id < n.next_id
                    &&& n.friends[p].user_id != n.friends[p].friend_id
                } by {
                    let pp = if p < i { p } else { p + 1 };
                    assert(n.friends[p] == m.friends[pp]);
                }
                assert forall|p: int, q: int|
                    0 <= p < n.friends.len() && 0 <= q < n.friends.len() && p != q implies {
                        &&& n.friends[p].id != n.friends[q].id
                        &&& !joins(n.friends[p], n.friends[q].user_id, n.friends[q].friend_id)
                    } by {
                    let pp = if p < i { p } else { p + 1 };
                    let qq = if q < i { q } else { q + 1 };
                    assert(n.friends[p] == m.friends[pp]);
                    assert(n.friends[q] == m.friends[qq]);
                    assert(pp != qq);
                    assert(m.friends[pp].id != m.friends[qq].id);
                }
                assert(n == (DbModel { friends: n.friends, ..m }));
                lemma_friends_replaced(m, n.friends);
            }
            Ok(e)
        },
    }
}

/// The users joined to `user_id` by an accepted edge, in edge order; edges whose
/// other end names no stored user are skipped.
pub fn get_friends(db: &Db, user_id: u64) -> (r: Vec<User>)
    requires
        db@.wf(),
    ensures
        r@.map_values(|u: User| u@) == users_with_ids(db@.users, friend_ids(db@.friends, user_id)),
{
    let ghost m = db@;
    let mut ids: Vec<u64> = Vec::new();
    let mut i: usize = 0;
    while i < db.friends.len()
        invariant
            m == db@,
            i <= db.friends@.len(),
            ids@ == friend_ids_upto(m.friends, user_id, i as int),
        decreases db.friends@.len() - i,
    {
        let e = db.friends[i];
        if e.status == FriendStatus::Accepted && (e.user_id == user_id || e.friend_id == user_id) {
            let other = if e.user_id == user_id { e.friend_id } else { e.user_id };
            ids.push(other);
        }
        i = i + 1;
    }
    let mut r: Vec<User> = Vec::new();
    let mut k: usize = 0;
    while k < ids.len()
        invariant
            m == db@,
            m.wf(),
            k <= ids@.len(),
            ids@ == friend_ids(m.friends, user_id),
            r@.map_values(|u: User| u@) == users_with_ids(m.users, ids@.subrange(0, k as int)),
        decreases ids@.len() - k,
    {
        let id = ids[k];
        let ghost pre = ids@.subrange(0, k as int);
        let ghost nxt = ids@.subrange(0, k + 1);
        assert(nxt.drop_last() == pre);
        match find_user(&db.users, id) {
            Some(j) => {
                proof { lemma_user_index(m, id, j as int); }
                r.push(db.users[j].copy());
                assert(r@.map_values(|u: User| u@) =~= users_with_ids(m.users, pre).push(m.users[j as int]));
            },
            None => {},
        }
        k = k + 1;
    }
    assert(ids@.subrange(0, ids@.len() as int) == ids@);
    r
}

/// The pending requests whose recipient is `user_id`, in edge order.
pub fn get_friend_requests(db: &Db, user_id: u64) -> (r: Vec<Friend>)
    ensures
        r@ == incoming_upto(db@.friends, user_id, db@.friends.len() as int),
{
    let mut r: Vec<Friend> = Vec::new();
    let mut i: usize = 0;
    while i < db.friends.len()
        invariant
            i <= db.friends@.len(),
            r@ == incoming_upto(db@.friends, user_id, i as int),
        decreases db.friends@.len() - i,
    {
        let e = db.friends[i];
        if e.friend_id == user_id && e.status == FriendStatus::Pending {
            r.push(e);
        }
        i = i + 1;
    }
    r
}

/// A request from `a` to `b` blocks any request from `b` back to `a`: whether the
/// first call creates the edge or finds one already there, the second fails with
/// `AlreadyExists`.
pub proof fn lemma_reverse_request_refused(m: DbModel, a: u64, b: u64)
    requires
        m.wf(),
        a != b,
        m.next_id < u64::MAX,
    ensures
        send_request_model(send_request_model(m, a, b).0, b, a).1 == Err::<Friend, CoreError>(
            CoreError::AlreadyExists,
        ),
{
    let m1 = send_request_model(m, a, b).0;
    if has_edge(m.friends, a, b) {
        let i = choose|i: int| 0 <= i < m.friends.len() && joins(m.friends[i], a, b);
        assert(joins(m1.friends[i], b, a));
    } else {
        let k = m.friends.len() as int;
        assert(m1.friends[k].user_id == a && m1.friends[k].friend_id == b);
        assert(joins(m1.friends[k], b, a));
    }
}

/// Accepting the same request twice never accepts it twice: the second call
/// fails with `NotFound`, whatever the first did.
pub proof fn lemma_accept_twice_refused(m: DbModel, request_id: u64, user_id: u64)
    requires
        m.wf(),
    ensures
        accept_request_model(accept_request_model(m, request_id, user_id).0, request_id, user_id).1
            == Err::<Friend, CoreError>(CoreError::NotFound),
{
    let m1 = accept_request_model(m, request_id, user_id).0;
    if has_edge_id(m.friends, request_id) {
        let i = edge_id_index(m.friends, request_id);
        let e = m.friends[i];
        if e.friend_id == user_id && e.status == FriendStatus::Pending {
            assert(m1.friends[i].id == request_id);
            assert(has_edge_id(m1.friends, request_id));
            let k = edge_id_index(m1.friends, request_id);
            if k != i {
                assert(m.friends[k].id == m1.friends[k].id);
                assert(m.friends[k].id != m.friends[i].id);
            }
            assert(m1.friends[k].status == FriendStatus::Accepted);
        }
    }
}

/// Friendship is symmetric in every state of the graph.
pub proof fn lemma_friendship_symmetric(s: Seq<Friend>, a: u64, b: u64)
    ensures
        are_friends_spec(s, a, b) == are_friends_spec(s, b, a),
{
    if are_friends_spec(s, a, b) {
        let i = choose|i: int|
            0 <= i < s.len() && joins(s[i], a, b) && s[i].status == FriendStatus::Accepted;
        assert(joins(s[i], b, a));
    }
    if are_friends_spec(s, b, a) {
        let i = choose|i: int|
            0 <= i < s.len() && joins(s[i], b, a) && s[i].status == FriendStatus::Accepted;
        assert(joins(s[i], a, b));
    }
}

/// Some record of `s` has identifier `id`.
pub open spec fn lists_user(s: Seq<UserView>, id: u64) -> bool {
    exists|k: int| 0 <= k < s.len() && s[k].id == id
}

proof fn lemma_friend_ids_upto(s: Seq<Friend>, u: u64, n: int, b: u64)
    requires
        0 <= n <= s.len(),
        b != u,
    ensures
        friend_ids_upto(s, u, n).contains(b) <==> exists|i: int|
            0 <= i < n && joins(s[i], u, b) && s[i].status == FriendStatus::Accepted,
    decreases n,
{
    if n > 0 {
        lemma_friend_ids_upto(s, u, n - 1, b);
        let prev = friend_ids_upto(s, u, n - 1);
        let e = s[n - 1];
        if e.status == FriendStatus::Accepted && (e.user_id == u || e.friend_id == u) {
            let cur = prev.push(other_end(e, u));
            if cur.contains(b) {
                let k = choose|k: int| 0 <= k < cur.len() && cur[k] == b;
                if k < prev.len() {
                    assert(prev[k] == b);
                } else {
                    assert(joins(e, u, b));
                }
            }
            if exists|i: int| 0 <= i < n && joins(s[i], u, b) && s[i].status == FriendStatus::Accepted {
                let i = choose|i: int| 0 <= i < n && joins(s[i], u, b) && s[i].status == FriendStatus::Accepted;
                if i < n - 1 {
                    let k = choose|k: int| 0 <= k < prev.len() && prev[k] == b;
                    assert(cur[k] == b);
                } else {
                    assert(cur[cur.len() - 1] == b);
                }
            }
        } else {
            if exists|i: int| 0 <= i < n && joins(s[i], u, b) && s[i].status == FriendStatus::Accepted {
                let i = choose|i: int| 0 <= i < n && joins(s[i], u, b) && s[i].status == FriendStatus::Accepted;
                assert(i < n - 1);
            }
        }
    }
}

proof fn lemma_users_with_ids(s: Seq<UserView>, ids: Seq<u64>, b: u64)
    ensures
        lists_user(users_with_ids(s, ids), b) <==> ids.contains(b) && has_user(s, b),
    decreases ids.len(),
{
    if ids.len() > 0 {
        let rest = ids.drop_last();
        lemma_users_with_ids(s, rest, b);
        let prev = users_with_ids(s, rest);
        let id = ids.last();
        assert(ids =~= rest.push(id));
        if rest.contains(b) {
            let k = choose|k: int| 0 <= k < rest.len() && rest[k] == b;
            assert(ids[k] == b);
        }
        if ids.contains(b) && !rest.contains(b) {
            let k = choose|k: int| 0 <= k < ids.len() && ids[k] == b;
            if k < rest.len() {
                assert(rest[k] == b);
            }
            assert(id == b);
        }
        if has_user(s, id) {
            let cur = prev.push(s[user_index(s, id)]);
            assert(s[user_index(s, id)].id == id);
            if lists_user(cur, b) {
                let k = choose|k: int| 0 <= k < cur.len() && cur[k].id == b;
                if k < prev.len() {
                    assert(prev[k].id == b);
                } else {
                    assert(id == b);
                    assert(ids[ids.len() - 1] == b);
                }
            }
            if lists_user(prev, b) {
                let k = choose|k: int| 0 <= k < prev.len() && prev[k].id == b;
                assert(cur[k].id == b);
            }
            if id == b {
                assert(cur[cur.len() - 1].id == b);
            }
        } else {
            if ids.contains(b) && has_user(s, b) && !rest.contains(b) {
                assert(id == b);
            }
        }
    }
}

/// The friends listing is symmetric: of two stored users, each lists the other
/// exactly when they are friends, whichever of them sent the request.
pub proof fn lemma_friend_listing_symmetric(m: DbModel, a: u64, b: u64)
    requires
        a != b,
        has_user(m.users, a),
        has_user(m.users, b),
    ensures
        lists_user(users_with_ids(m.users, friend_ids(m.friends, a)), b) == are_friends_spec(m.friends, a, b),
        lists_user(users_with_ids(m.users, friend_ids(m.friends, a)), b)
            == lists_user(users_with_ids(m.users, friend_ids(m.friends, b)), a),
{
    lemma_friend_ids_upto(m.friends, a, m.friends.len() as int, b);
    lemma_friend_ids_upto(m.friends, b, m.friends.len() as int, a);
    lemma_users_with_ids(m.users, friend_ids(m.friends, a), b);
    lemma_users_with_ids(m.users, friend_ids(m.friends, b), a);
    lemma_friendship_symmetric(m.friends, a, b);
}

} // verus!
