//! Groups: creation, renaming, membership changes and deletion, with the creator
//! holding elevated rights and every member free to leave.

use vstd::prelude::*;
use vstd::string::*;
use crate::model::{
    contains_id, copy_ids, copy_text, lemma_groups_replaced, no_dup_ids, position_of_id,
    CoreError, Db, DbModel, Group, GroupView,
};

verus! {

pub struct CreateGroup {
    pub name: String,
    pub members: Vec<u64>,
}

pub struct UpdateGroup {
    pub name: String,
}

pub struct AddGroupMembers {
    pub members: Vec<u64>,
}

/// A group name holds 3 to 50 characters.
pub open spec fn group_name_ok(name: Seq<char>) -> bool {
    3 <= name.len() <= 50
}

pub open spec fn has_group(s: Seq<GroupView>, id: u64) -> bool {
    exists|i: int| 0 <= i < s.len() && s[i].id == id
}

pub open spec fn group_index(s: Seq<GroupView>, id: u64) -> int {
    choose|i: int| 0 <= i < s.len() && s[i].id == id
}

/// `acc`, then each id of `xs` that is not yet present, once, in order of first occurrence.
pub open spec fn merge_ids(acc: Seq<u64>, xs: Seq<u64>) -> Seq<u64>
    decreases xs.len(),
{
    if xs.len() == 0 {
        acc
    } else {
        let prev = merge_ids(acc, xs.drop_last());
        if prev.contains(xs.last()) {
            prev
        } else {
            prev.push(xs.last())
        }
    }
}

pub open spec fn member_index(members: Seq<u64>, x: u64) -> int {
    choose|k: int| 0 <= k < members.len() && members[k] == x
}

/// `user` may see the group: it exists and holds `user`.
pub open spec fn visible_group(m: DbModel, group_id: u64, user: u64) -> bool {
    has_group(m.groups, group_id) && m.groups[group_index(m.groups, group_id)].members.contains(user)
}

pub open spec fn create_group_model(m: DbModel, name: Seq<char>, members: Seq<u64>, creator: u64) -> (DbModel, Result<GroupView, CoreError>) {
    if !group_name_ok(name) {
        (m, Err(CoreError::ValidationFailed))
    } else if m.next_id == u64::MAX {
        (m, Err(CoreError::StorageFailure))
    } else {
        let g = GroupView {
            id: m.next_id,
            name,
            creator_id: creator,
            members: merge_ids(seq![creator], members),
        };
        (DbModel { next_id: (m.next_id + 1) as u64, groups: m.groups.push(g), ..m }, Ok(g))
    }
}

pub open spec fn update_group_model(m: DbModel, group_id: u64, name: Seq<char>, user: u64) -> (DbModel, Result<GroupView, CoreError>) {
    if !group_name_ok(name) {
        (m, Err(CoreError::ValidationFailed))
    } else if !visible_group(m, group_id, user) {
        (m, Err(CoreError::NotFound))
    } else {
        let i = group_index(m.groups, group_id);
        let g = m.groups[i];
        if g.creator_id != user {
            (m, Err(CoreError::Forbidden))
        } else {
            let h = GroupView { name, ..g };
            (DbModel { groups: m.groups.update(i, h), ..m }, Ok(h))
        }
    }
}

pub open spec fn add_members_model(m: DbModel, group_id: u64, members: Seq<u64>, user: u64) -> (DbModel, Result<GroupView, CoreError>) {
    if !has_group(m.groups, group_id) || m.groups[group_index(m.groups, group_id)].creator_id != user {
        (m, Err(CoreError::NotFound))
    } else {
        let i = group_index(m.groups, group_id);
        let g = m.groups[i];
        let h = GroupView { members: merge_ids(g.members, members), ..g };
        (DbModel { groups: m.groups.update(i, h), ..m }, Ok(h))
    }
}

pub open spec fn remove_member_model(m: DbModel, group_id: u64, member: u64, user: u64) -> (DbModel, Result<GroupView, CoreError>) {
    if !visible_group(m, group_id, member) {
        (m, Err(CoreError::NotFound))
    } else {
        let i = group_index(m.groups, group_id);
        let g = m.groups[i];
        if g.creator_id != user && member != user {
            (m, Err(CoreError::Forbidden))
        } else if g.members.len() <= 1 {
            (m, Err(CoreError::ValidationFailed))
        } else if g.creator_id == member {
            (m, Err(CoreError::ValidationFailed))
        } else {
            let h = GroupView { members: g.members.remove(member_index(g.members, member)), ..g };
            (DbModel { groups: m.groups.update(i, h), ..m }, Ok(h))
        }
    }
}

pub open spec fn delete_group_model(m: DbModel, group_id: u64, user: u64) -> (DbModel, Result<GroupView, CoreError>) {
    if !has_group(m.groups, group_id) || m.groups[group_index(m.groups, group_id)].creator_id != user {
        (m, Err(CoreError::NotFound))
    } else {
        let i = group_index(m.groups, group_id);
        (DbModel { groups: m.groups.remove(i), ..m }, Ok(m.groups[i]))
    }
}

/// The groups that hold `user` among the first `n`, in store order.
pub open spec fn groups_of_upto(s: Seq<GroupView>, user: u64, n: int) -> Seq<GroupView>
    decreases n,
{
    if n <= 0 {
        Seq::empty()
    } else {
        let prev = groups_of_upto(s, user, n - 1);
        if s[n - 1].members.contains(user) {
            prev.push(s[n - 1])
        } else {
            prev
        }
    }
}

pub proof fn lemma_merge_ids(acc: Seq<u64>, xs: Seq<u64>)
    requires
        no_dup_ids(acc),
    ensures
        no_dup_ids(merge_ids(acc, xs)),
        forall|x: u64| acc.contains(x) ==> merge_ids(acc, xs).contains(x),
        forall|x: u64| merge_ids(acc, xs).contains(x) ==> acc.contains(x) || xs.contains(x),
    decreases xs.len(),
{
    if xs.len() > 0 {
        lemma_merge_ids(acc, xs.drop_last());
        let prev = merge_ids(acc, xs.drop_last());
        assert forall|x: u64| merge_ids(acc, xs).contains(x) implies acc.contains(x) || xs.contains(x) by {
            if prev.contains(x) {
                if xs.drop_last().contains(x) {
                    let k = choose|k: int| 0 <= k < xs.drop_last().len() && xs.drop_last()[k] == x;
                    assert(xs[k] == x);
                }
            } else {
                assert(x == xs.last());
                assert(xs[xs.len() - 1] == x);
            }
        }
        assert forall|x: u64| acc.contains(x) implies merge_ids(acc, xs).contains(x) by {
            assert(prev.contains(x));
            if !prev.contains(xs.last()) {
                let k = choose|k: int| 0 <= k < prev.len() && prev[k] == x;
                assert(prev.push(xs.last())[k] == x);
            }
        }
    }
}

pub fn find_group(s: &Vec<Group>, id: u64) -> (r: Option<usize>)
    ensures
        r is None ==> !has_group(s@.map_values(|g: Group| g@), id),
        r matches Some(i) ==> i < s@.len() && s@[i as int].id == id,
{
    let ghost v = s@.map_values(|g: Group| g@);
    let mut i: usize = 0;
    while i < s.len()
        invariant
            i <= s@.len(),
            v == s@.map_values(|g: Group| g@),
            forall|j: int| 0 <= j < i ==> v[j].id != id,
        decreases s@.len() - i,
    {
        if s[i].id == id {
            return Some(i);
        }
        i = i + 1;
    }
    None
}

pub proof fn lemma_group_index(m: DbModel, id: u64, i: int)
    requires
        m.groups_wf(),
        0 <= i < m.groups.len(),
        m.groups[i].id == id,
    ensures
        has_group(m.groups, id),
        group_index(m.groups, id) == i,
{
    let k = group_index(m.groups, id);
    if k != i {
        if k < i {
            assert(m.groups[k].id != m.groups[i].id);
        } else {
            assert(m.groups[i].id != m.groups[k].id);
        }
    }
}

/// Appends to `acc` each id of `xs` not yet present, in order.
fn merge_into(acc: &mut Vec<u64>, xs: &Vec<u64>)
    ensures
        final(acc)@ == merge_ids(old(acc)@, xs@),
{
    let ghost start = acc@;
    let mut k: usize = 0;
    while k < xs.len()
        invariant
            k <= xs@.len(),
            acc@ == merge_ids(start, xs@.subrange(0, k as int)),
        decreases xs@.len() - k,
    {
        let x = xs[k];
        assert(xs@.subrange(0, k + 1).drop_last() == xs@.subrange(0, k as int));
        assert(xs@.subrange(0, k + 1).last() == x);
        if !contains_id(acc, x) {
            acc.push(x);
        }
        k = k + 1;
    }
    assert(xs@.subrange(0, xs@.len() as int) == xs@);
}

/// Whether `name` is an acceptable group name.
pub fn valid_group_name(name: &String) -> (r: bool)
    ensures
        r == group_name_ok(name@),
{
    let n = name.as_str().unicode_len();
    3 <= n && n <= 50
}

/// Creates a group named `payload.name`, with the creator first and then each
/// listed member once.
pub fn create_group(db: &mut Db, payload: CreateGroup, creator_id: u64) -> (r: Result<Group, CoreError>)
    requires
        old(db)@.wf(),
    ensures
        final(db)@ == create_group_model(old(db)@, payload.name@, payload.members@, creator_id).0,
        match create_group_model(old(db)@, payload.name@, payload.members@, creator_id).1 {
            Ok(g) => r is Ok && r->Ok_0@ == g,
            Err(e) => r == Err::<Group, CoreError>(e),
        },
        final(db)@.wf(),
{
    let ghost m = db@;
    if !valid_group_name(&payload.name) {
        return Err(CoreError::ValidationFailed);
    }
    let id = match db.allocate_id() {
        Ok(id) => id,
        Err(e) => return Err(e),
    };
    let mut members: Vec<u64> = Vec::new();
    members.push(creator_id);
    assert(members@ == seq![creator_id]);
    merge_into(&mut members, &payload.members);
    proof {
        assert(no_dup_ids(seq![creator_id]));
        assert(seq![creator_id].contains(creator_id)) by {
            assert(seq![creator_id][0] == creator_id);
        }
        lemma_merge_ids(seq![creator_id], payload.members@);
    }
    let g = Group { id, name: payload.name, creator_id, members };
    let out = g.copy();
    db.groups.push(g);
    proof {
        let n = db@;
        assert(n.groups =~= m.groups.push(out@));
        assert(n == (DbModel { next_id: (m.next_id + 1) as u64, groups: n.groups, ..m }));
        let m1 = DbModel { next_id: (m.next_id + 1) as u64, ..m };
        assert(m1.wf());
        lemma_groups_replaced(m1, n.groups);
    }
    Ok(out)
}

/// Renames a group; only its creator may, and the name must be acceptable.
pub fn update_group(db: &mut Db, group_id: u64, payload: UpdateGroup, user_id: u64) -> (r: Result<Group, CoreError>)
    requires
        old(db)@.wf(),
    ensures
        final(db)@ == update_group_model(old(db)@, group_id, payload.name@, user_id).0,
        match update_group_model(old(db)@, group_id, payload.name@, user_id).1 {
            Ok(g) => r is Ok && r->Ok_0@ == g,
            Err(e) => r == Err::<Group, CoreError>(e),
        },
        final(db)@.wf(),
{
    let ghost m = db@;
    if !valid_group_name(&payload.name) {
        return Err(CoreError::ValidationFailed);
    }
    let i = match find_group(&db.groups, group_id) {
        None => return Err(CoreError::NotFound),
        Some(i) => i,
    };
    proof { lemma_group_index(m, group_id, i as int); }
    if !contains_id(&db.groups[i].members, user_id) {
        return Err(CoreError::NotFound);
    }
    if db.groups[i].creator_id != user_id {
        return Err(CoreError::Forbidden);
    }
    let h = Group {
        id: db.groups[i].id,
        name: payload.name,
        creator_id: db.groups[i].creator_id,
        members: copy_ids(&db.groups[i].members),
    };
    let out = h.copy();
    db.groups.set(i, h);
    proof {
        let n = db@;
        assert(n.groups =~= m.groups.update(i as int, out@));
        assert(n == (DbModel { groups: n.groups, ..m }));
        lemma_groups_replaced(m, n.groups);
    }
    Ok(out)
}

/// Adds members to a group, each once; only the creator may.
pub fn add_group_members(db: &mut Db, group_id: u64, payload: AddGroupMembers, user_id: u64) -> (r: Result<Group, CoreError>)
    requires
        old(db)@.wf(),
    ensures
        final(db)@ == add_members_model(old(db)@, group_id, payload.members@, user_id).0,
        match add_members_model(old(db)@, group_id, payload.members@, user_id).1 {
            Ok(g) => r is Ok && r->Ok_0@ == g,
            Err(e) => r == Err::<Group, CoreError>(e),
        },
        final(db)@.wf(),
{
    let ghost m = db@;
    let i = match find_group(&db.groups, group_id) {
        None => return Err(CoreError::NotFound),
        Some(i) => i,
    };
    proof { lemma_group_index(m, group_id, i as int); }
    if db.groups[i].creator_id != user_id {
        return Err(CoreError::NotFound);
    }
    let mut members = copy_ids(&db.groups[i].members);
    merge_into(&mut members, &payload.members);
    proof {
        lemma_merge_ids(m.groups[i as int].members, payload.members@);
    }
    let h = Group {
        id: db.groups[i].id,
        name: copy_text(&db.groups[i].name),
        creator_id: db.groups[i].creator_id,
        members,
    };
    let out = h.copy();
    db.groups.set(i, h);
    proof {
        let n = db@;
        assert(n.groups =~= m.groups.update(i as int, out@));
        assert(n == (DbModel { groups: n.groups, ..m }));
        lemma_groups_replaced(m, n.groups);
    }
    Ok(out)
}

/// Removes `member_id` from a group. The creator may remove anyone, a member only
/// itself; the last member and the creator always stay.
pub fn remove_group_member(db: &mut Db, group_id: u64, member_id: u64, user_id: u64) -> (r: Result<Group, CoreError>)
    requires
        old(db)@.wf(),
    ensures
        final(db)@ == remove_member_model(old(db)@, group_id, member_id, user_id).0,
        match remove_member_model(old(db)@, group_id, member_id, user_id).1 {
            Ok(g) => r is Ok && r->Ok_0@ == g,
            Err(e) => r == Err::<Group, CoreError>(e),
        },
        final(db)@.wf(),
{
    let ghost m = db@;
    let i = match find_group(&db.groups, group_id) {
        None => return Err(CoreError::NotFound),
        Some(i) => i,
    };
    proof { lemma_group_index(m, group_id, i as int); }
    let k = match position_of_id(&db.groups[i].members, member_id) {
        None => return Err(CoreError::NotFound),
        Some(k) => k,
    };
    let ghost g = m.groups[i as int];
    proof {
        assert(g.members.contains(member_id));
        let c = member_index(g.members, member_id);
        if c != k {
            if c < k {
                assert(g.members[c] != g.members[k as int]);
            } else {
                assert(g.members[k as int] != g.members[c]);
            }
        }
    }
    let is_creator = db.groups[i].creator_id == user_id;
    let is_self_remove = member_id == user_id;
    if !is_creator && !is_self_remove {
        return Err(CoreError::Forbidden);
    }
    if db.groups[i].members.len() <= 1 {
        return Err(CoreError::ValidationFailed);
    }
    if db.groups[i].creator_id == member_id {
        return Err(CoreError::ValidationFailed);
    }
    let mut members = copy_ids(&db.groups[i].members);
    members.remove(k);
    let h = Group {
        id: db.groups[i].id,
        name: copy_text(&db.groups[i].name),
        creator_id: db.groups[i].creator_id,
        members,
    };
    let out = h.copy();
    db.groups.set(i, h);
    proof {
        let n = db@;
        let nm = g.members.remove(k as int);
        assert(out@.members == nm);
        assert forall|p: int, q: int| 0 <= p < q < nm.len() implies nm[p] != nm[q] by {
            let pp = if p < k { p } else { p + 1 };
            let qq = if q < k { q } else { q + 1 };
            assert(nm[p] == g.members[pp]);
            assert(nm[q] == g.members[qq]);
        }
        let ci = choose|ci: int| 0 <= ci < g.members.len() && g.members[ci] == g.creator_id;
        if ci < k {
            assert(nm[ci] == g.creator_id);
        } else {
            assert(ci != k);
            assert(nm[ci - 1] == g.creator_id);
        }
        assert(nm.contains(g.creator_id));
        assert(n.groups =~= m.groups.update(i as int, out@));
        assert(n == (DbModel { groups: n.groups, ..m }));
        lemma_groups_replaced(m, n.groups);
    }
    Ok(out)
}

/// Deletes a group; only its creator may.
pub fn delete_group(db: &mut Db, group_id: u64, user_id: u64) -> (r: Result<Group, CoreError>)
    requires
        old(db)@.wf(),
    ensures
        final(db)@ == delete_group_model(old(db)@, group_id, user_id).0,
        match delete_group_model(old(db)@, group_id, user_id).1 {
            Ok(g) => r is Ok && r->Ok_0@ == g,
            Err(e) => r == Err::<Group, CoreError>(e),
        },
        final(db)@.wf(),
{
    let ghost m = db@;
    let i = match find_group(&db.groups, group_id) {
        None => return Err(CoreError::NotFound),
        Some(i) => i,
    };
    proof { lemma_group_index(m, group_id, i as int); }
    if db.groups[i].creator_id != user_id {
        return Err(CoreError::NotFound);
    }
    let g = db.groups.remove(i);
    proof {
        let n = db@;
        assert(n.groups =~= m.groups.remove(i as int));
        assert forall|p: int, q: int| 0 <= p < q < n.groups.len() implies n.groups[p].id != n.groups[q].id by {
            let pp = if p < i { p } else { p + 1 };
            let qq = if q < i { q } else { q + 1 };
            assert(n.groups[p] == m.groups[pp]);
            assert(n.groups[q] == m.groups[qq]);
        }
        assert forall|p: int| 0 <= p < n.groups.len() implies {
            &&& n.groups[p].id < n.next_id
            &&& n.groups[p].members.contains(n.groups[p].creator_id)
            &&& no_dup_ids(n.groups[p].members)
        } by {
            let pp = if p < i { p } else { p + 1 };
            assert(n.groups[p] == m.groups[pp]);
        }
        assert(n == (DbModel { groups: n.groups, ..m }));
        lemma_groups_replaced(m, n.groups);
    }
    Ok(g)
}

/// Whether `user_id` may see the content of group `group_id`: the group exists and
/// holds the user.
pub fn can_view_group_content(db: &Db, user_id: u64, group_id: u64) -> (r: bool)
    requires
        db@.wf(),
    ensures
        r == visible_group(db@, group_id, user_id),
{
    match find_group(&db.groups, group_id) {
        None => false,
        Some(i) => {
            proof { lemma_group_index(db@, group_id, i as int); }
            contains_id(&db.groups[i].members, user_id)
        },
    }
}

/// The group `group_id`, if `user_id` is one of its members.
pub fn get_group_by_id(db: &Db, group_id: u64, user_id: u64) -> (r: Result<Group, CoreError>)
    requires
        db@.wf(),
    ensures
        visible_group(db@, group_id, user_id) ==> r is Ok && r->Ok_0@ == db@.groups[group_index(db@.groups, group_id)],
        !visible_group(db@, group_id, user_id) ==> r == Err::<Group, CoreError>(CoreError::NotFound),
{
    let i = match find_group(&db.groups, group_id) {
        None => return Err(CoreError::NotFound),
        Some(i) => i,
    };
    proof { lemma_group_index(db@, group_id, i as int); }
    if !contains_id(&db.groups[i].members, user_id) {
        return Err(CoreError::NotFound);
    }
    Ok(db.groups[i].copy())
}

/// The groups that hold `user_id`, in store order.
pub fn get_user_groups(db: &Db, user_id: u64) -> (r: Vec<Group>)
    ensures
        r@.map_values(|g: Group| g@) == groups_of_upto(db@.groups, user_id, db@.groups.len() as int),
{
    let ghost v = db@.groups;
    let mut r: Vec<Group> = Vec::new();
    let mut i: usize = 0;
    while i < db.groups.len()
        invariant
            v == db@.groups,
            i <= v.len(),
            r@.map_values(|g: Group| g@) == groups_of_upto(v, user_id, i as int),
        decreases v.len() - i,
    {
        if contains_id(&db.groups[i].members, user_id) {
            let ghost before = r@.map_values(|g: Group| g@);
            r.push(db.groups[i].copy());
            assert(r@.map_values(|g: Group| g@) =~= before.push(v[i as int]));
        }
        i = i + 1;
    }
    r
}

/// The creator and the last member always stay: an attempt to remove the creator
/// fails whoever makes it, and so does one on a group of one member, with
/// `ValidationFailed` when the actor is the creator or the member itself. The
/// store is left as it was.
pub proof fn lemma_creator_and_last_member_stay(m: DbModel, group_id: u64, member_id: u64, user_id: u64)
    requires
        m.wf(),
        has_group(m.groups, group_id),
    ensures
        ({
            let g = m.groups[group_index(m.groups, group_id)];
            let out = remove_member_model(m, group_id, member_id, user_id);
            &&& member_id == g.creator_id ==> out.1 is Err && out.0 == m
            &&& g.members.len() <= 1 ==> out.1 is Err && out.0 == m
            &&& g.members.len() <= 1 && (user_id == g.creator_id || user_id == member_id)
                && g.members.contains(member_id) ==> out.1 == Err::<GroupView, CoreError>(
                CoreError::ValidationFailed,
            )
        }),
{
    let i = group_index(m.groups, group_id);
    let g = m.groups[i];
    assert(g.members.contains(g.creator_id));
    if g.members.len() <= 1 && g.members.contains(member_id) {
        let a = choose|a: int| 0 <= a < g.members.len() && g.members[a] == member_id;
        let c = choose|c: int| 0 <= c < g.members.len() && g.members[c] == g.creator_id;
        assert(a == 0 && c == 0);
    }
}

/// A group created by `u1` listing `u2` (with or without `u1` itself) holds
/// exactly `u1` then `u2`. Then `u2` cannot remove `u1`; `u1` can remove `u2`,
/// leaving only itself; and `u1` cannot then leave, being the last member.
pub proof fn lemma_two_member_group(m: DbModel, name: Seq<char>, u1: u64, u2: u64, listed: Seq<u64>)
    requires
        m.wf(),
        u1 != u2,
        listed == seq![u2] || listed == seq![u1, u2],
        group_name_ok(name),
        m.next_id < u64::MAX,
    ensures
        ({
            let (m1, r1) = create_group_model(m, name, listed, u1);
            let g = r1->Ok_0;
            let (m2, r2) = remove_member_model(m1, g.id, u1, u2);
            let (m3, r3) = remove_member_model(m1, g.id, u2, u1);
            let (m4, r4) = remove_member_model(m3, g.id, u1, u1);
            &&& r1 is Ok && g.creator_id == u1 && g.members == seq![u1, u2] && g.name == name
            &&& r2 is Err && m2 == m1
            &&& r3 is Ok && r3->Ok_0.members == seq![u1]
            &&& r4 == Err::<GroupView, CoreError>(CoreError::ValidationFailed)
        }),
{
    let (m1, r1) = create_group_model(m, name, listed, u1);
    let g = r1->Ok_0;
    let s1 = seq![u1];
    assert(s1.contains(u1)) by { assert(s1[0] == u1); }
    assert(!s1.contains(u2)) by {
        if s1.contains(u2) {
            let k = choose|k: int| 0 <= k < s1.len() && s1[k] == u2;
        }
    }
    if listed == seq![u2] {
        assert(listed.drop_last() =~= Seq::<u64>::empty());
        assert(merge_ids(s1, Seq::<u64>::empty()) == s1);
        assert(listed.last() == u2);
        assert(merge_ids(s1, listed) == s1.push(u2));
    } else {
        assert(listed.drop_last() =~= seq![u1]);
        assert(seq![u1].drop_last() =~= Seq::<u64>::empty());
        assert(merge_ids(s1, Seq::<u64>::empty()) == s1);
        assert(seq![u1].last() == u1);
        assert(merge_ids(s1, seq![u1]) == s1);
        assert(listed.last() == u2);
        assert(merge_ids(s1, listed) == s1.push(u2));
    }
    assert(s1.push(u2) =~= seq![u1, u2]);
    let last = m.groups.len() as int;
    assert(m1.groups[last] == g);
    assert forall|k: int| 0 <= k < m1.groups.len() && m1.groups[k].id == g.id implies k == last by {
        if k < last {
            assert(m.groups[k].id < m.next_id);
        }
    }
    assert(has_group(m1.groups, g.id));
    assert(group_index(m1.groups, g.id) == last);
    assert(g.members[0] == u1 && g.members[1] == u2);
    assert(g.members.contains(u1));
    assert(g.members.contains(u2));
    assert(member_index(g.members, u2) == 1);
    assert(g.members.remove(1) =~= seq![u1]);
    let (m3, r3) = remove_member_model(m1, g.id, u2, u1);
    let h = r3->Ok_0;
    assert(m3.groups == m1.groups.update(last, h));
    assert(m3.groups[last] == h);
    assert forall|k: int| 0 <= k < m3.groups.len() && m3.groups[k].id == g.id implies k == last by {
        if k < last {
            assert(m3.groups[k] == m.groups[k]);
            assert(m.groups[k].id < m.next_id);
        }
    }
    assert(has_group(m3.groups, g.id));
    assert(group_index(m3.groups, g.id) == last);
    assert(h.members.contains(u1)) by { assert(h.members[0] == u1); }
}

} // verus!
