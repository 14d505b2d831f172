//! Stories: geotagged posts that expire a day after creation, listed for friends,
//! found by proximity, and read by identifier.

use vstd::prelude::*;
use crate::clock::now_millis;
use crate::friends::{are_friends, are_friends_spec};
use crate::media::{is_allowed_type, media_for_upload, Media};
use crate::messages::uploaded_media;
use crate::model::{
    lemma_stories_replaced, CoreError, Db, DbModel, Location, MediaView, Story, StoryView,
};
use crate::ranking::{
    candidate_at, candidates_upto, is_top_ranked, lemma_candidates, lemma_top_ranked_all,
    lemma_top_ranked_keeps, precedes_count, top_ranked, Candidate,
};

verus! {

/// How long a story stays visible, in milliseconds.
pub const STORY_LIFETIME_MS: i64 = 86400000;

/// Most stories in a proximity listing.
pub const NEARBY_CAP: usize = 50;

/// Search radius, in meters, when none is given.
pub const DEFAULT_RADIUS_M: u64 = 5000;

pub struct CreateStory {
    pub media: Media,
    pub location: Location,
}

/// A story has expired once the time is past its expiry.
pub open spec fn expired(s: StoryView, now: i64) -> bool {
    now > s.expires_at
}

pub open spec fn story_expiry(m: DbModel) -> spec_fn(int) -> i64 {
    |i: int| m.stories[i].expires_at
}

pub open spec fn zero_distance() -> spec_fn(int) -> u64 {
    |i: int| 0u64
}

/// A story that a friends listing shows: unexpired and posted by a friend of `viewer`.
pub open spec fn friend_story_keep(m: DbModel, viewer: u64, now: i64) -> spec_fn(int) -> bool {
    |i: int| !expired(m.stories[i], now) && are_friends_spec(m.friends, viewer, m.stories[i].user_id)
}

pub open spec fn friend_candidates(m: DbModel, viewer: u64, now: i64) -> Seq<Candidate> {
    candidates_upto(friend_story_keep(m, viewer, now), zero_distance(), story_expiry(m), m.stories.len() as int)
}

/// A story that a proximity listing shows: unexpired and within `radius` meters.
pub open spec fn nearby_story_keep(m: DbModel, distances: Seq<u64>, radius: u64, now: i64) -> spec_fn(int) -> bool {
    |i: int| !expired(m.stories[i], now) && distances[i] <= radius
}

pub open spec fn distance_of(distances: Seq<u64>) -> spec_fn(int) -> u64 {
    |i: int| distances[i]
}

pub open spec fn nearby_candidates(m: DbModel, distances: Seq<u64>, radius: u64, now: i64) -> Seq<Candidate> {
    candidates_upto(nearby_story_keep(m, distances, radius, now), distance_of(distances), story_expiry(m), m.stories.len() as int)
}

pub open spec fn stories_at(m: DbModel, picked: Seq<Candidate>) -> Seq<StoryView> {
    picked.map_values(|c: Candidate| m.stories[c.index as int])
}

pub open spec fn radius_or_default(radius: Option<u64>) -> u64 {
    match radius {
        Some(r) => r,
        None => DEFAULT_RADIUS_M,
    }
}

pub open spec fn create_story_model(m: DbModel, user: u64, location: Location, media: MediaView, now: i64) -> (DbModel, Result<StoryView, CoreError>) {
    if now > i64::MAX - STORY_LIFETIME_MS {
        (m, Err(CoreError::ValidationFailed))
    } else if m.next_id == u64::MAX {
        (m, Err(CoreError::StorageFailure))
    } else {
        let s = StoryView {
            id: m.next_id,
            user_id: user,
            location,
            media,
            expires_at: (now + STORY_LIFETIME_MS) as i64,
        };
        (DbModel { next_id: (m.next_id + 1) as u64, stories: m.stories.push(s), ..m }, Ok(s))
    }
}

pub open spec fn has_story(s: Seq<StoryView>, id: u64) -> bool {
    exists|i: int| 0 <= i < s.len() && s[i].id == id
}

pub open spec fn story_index(s: Seq<StoryView>, id: u64) -> int {
    choose|i: int| 0 <= i < s.len() && s[i].id == id
}

/// `viewer` may read the story: it is the owner's, a friend's, or unexpired.
pub open spec fn may_view_story(m: DbModel, viewer: u64, s: StoryView, now: i64) -> bool {
    s.user_id == viewer || are_friends_spec(m.friends, viewer, s.user_id) || !expired(s, now)
}

pub open spec fn story_by_id_model(m: DbModel, story_id: u64, viewer: u64, now: i64) -> Result<StoryView, CoreError> {
    if !has_story(m.stories, story_id) {
        Err(CoreError::NotFound)
    } else {
        let s = m.stories[story_index(m.stories, story_id)];
        if may_view_story(m, viewer, s, now) {
            Ok(s)
        } else {
            Err(CoreError::NotFound)
        }
    }
}

pub open spec fn delete_story_model(m: DbModel, story_id: u64, user: u64) -> (DbModel, Result<StoryView, CoreError>) {
    if !has_story(m.stories, story_id) || m.stories[story_index(m.stories, story_id)].user_id != user {
        (m, Err(CoreError::NotFound))
    } else {
        let i = story_index(m.stories, story_id);
        (DbModel { stories: m.stories.remove(i), ..m }, Ok(m.stories[i]))
    }
}

/// `r` is the outcome that the model gives.
pub open spec fn story_result_is(model: Result<StoryView, CoreError>, r: Result<Story, CoreError>) -> bool {
    match model {
        Ok(x) => r is Ok && r->Ok_0@ == x,
        Err(e) => r == Err::<Story, CoreError>(e),
    }
}

fn find_story(db: &Db, id: u64) -> (r: Option<usize>)
    requires
        db@.wf(),
    ensures
        r is None ==> !has_story(db@.stories, id),
        r matches Some(i) ==> i < db@.stories.len() && db@.stories[i as int].id == id
            && has_story(db@.stories, id) && story_index(db@.stories, id) == i,
{
    let ghost m = db@;
    let mut i: usize = 0;
    while i < db.stories.len()
        invariant
            m == db@,
            m.wf(),
            i <= m.stories.len(),
            forall|j: int| 0 <= j < i ==> m.stories[j].id != id,
        decreases m.stories.len() - i,
    {
        if db.stories[i].id == id {
            proof {
                assert(m.stories[i as int].id == id);
                assert(has_story(m.stories, id));
                let k = story_index(m.stories, id);
                if k != i {
                    if k < i {
                        assert(m.stories[k].id != m.stories[i as int].id);
                    } else {
                        assert(m.stories[i as int].id != m.stories[k].id);
                    }
                }
            }
            return Some(i);
        }
        i = i + 1;
    }
    None
}

fn stories_for(db: &Db, picked: &Vec<Candidate>) -> (r: Vec<Story>)
    requires
        forall|i: int| 0 <= i < picked@.len() ==> picked@[i].index < db@.stories.len(),
    ensures
        r@.map_values(|s: Story| s@) == stories_at(db@, picked@),
{
    let mut r: Vec<Story> = Vec::new();
    let mut k: usize = 0;
    while k < picked.len()
        invariant
            k <= picked@.len(),
            forall|i: int| 0 <= i < picked@.len() ==> picked@[i].index < db@.stories.len(),
            r@.map_values(|s: Story| s@) == stories_at(db@, picked@.subrange(0, k as int)),
        decreases picked@.len() - k,
    {
        let ghost before = r@.map_values(|s: Story| s@);
        let idx = picked[k].index;
        r.push(db.stories[idx].copy());
        assert(picked@.subrange(0, k + 1) =~= picked@.subrange(0, k as int).push(picked@[k as int]));
        assert(r@.map_values(|s: Story| s@) =~= before.push(db@.stories[idx as int]));
        assert(stories_at(db@, picked@.subrange(0, k + 1)) =~= stories_at(db@, picked@.subrange(0, k as int)).push(db@.stories[idx as int]));
        k = k + 1;
    }
    assert(picked@.subrange(0, picked@.len() as int) =~= picked@);
    r
}

/// Creates a story of `user_id` at time `now`, visible until a day later.
pub fn create_story_at(db: &mut Db, user_id: u64, payload: CreateStory, now: i64) -> (r: Result<Story, CoreError>)
    requires
        old(db)@.wf(),
    ensures
        final(db)@ == create_story_model(old(db)@, user_id, payload.location, payload.media@, now).0,
        match create_story_model(old(db)@, user_id, payload.location, payload.media@, now).1 {
            Ok(x) => r is Ok && r->Ok_0@ == x,
            Err(e) => r == Err::<Story, CoreError>(e),
        },
        final(db)@.wf(),
{
    let ghost m = db@;
    if now > i64::MAX - STORY_LIFETIME_MS {
        return Err(CoreError::ValidationFailed);
    }
    let id = match db.allocate_id() {
        Ok(id) => id,
        Err(e) => return Err(e),
    };
    let story = Story {
        id,
        user_id,
        location: payload.location,
        media: payload.media,
        expires_at: now + STORY_LIFETIME_MS,
    };
    let out = story.copy();
    db.stories.push(story);
    proof {
        let n = db@;
        assert(n.stories =~= m.stories.push(out@));
        let m1 = DbModel { next_id: (m.next_id + 1) as u64, ..m };
        assert(n == (DbModel { stories: n.stories, ..m1 }));
        lemma_stories_replaced(m1, n.stories);
    }
    Ok(out)
}

/// Creates a story of `user_id` now, visible for a day.
pub fn create_story(db: &mut Db, user_id: u64, payload: CreateStory) -> (r: Result<Story, CoreError>)
    requires
        old(db)@.wf(),
    ensures
        exists|now: i64| {
            &&& final(db)@ == create_story_model(old(db)@, user_id, payload.location, payload.media@, now).0
            &&& match create_story_model(old(db)@, user_id, payload.location, payload.media@, now).1 {
                Ok(x) => r is Ok && r->Ok_0@ == x,
                Err(e) => r == Err::<Story, CoreError>(e),
            }
        },
        final(db)@.wf(),
{
    let now = now_millis();
    create_story_at(db, user_id, payload, now)
}

/// Creates a story at `location` around an object just uploaded under `url`, at time `now`.
pub fn create_story_with_media_at(db: &mut Db, user_id: u64, content_type: &str, url: String, location: Location, now: i64) -> (r: Result<Story, CoreError>)
    requires
        old(db)@.wf(),
        is_allowed_type(content_type@),
    ensures
        final(db)@ == create_story_model(old(db)@, user_id, location, uploaded_media(content_type@, url@), now).0,
        match create_story_model(old(db)@, user_id, location, uploaded_media(content_type@, url@), now).1 {
            Ok(x) => r is Ok && r->Ok_0@ == x,
            Err(e) => r == Err::<Story, CoreError>(e),
        },
        final(db)@.wf(),
{
    let media = media_for_upload(content_type, url);
    create_story_at(db, user_id, CreateStory { media, location }, now)
}

/// Creates a story at `location` around an object just uploaded under `url`, now.
pub fn create_story_with_media(db: &mut Db, user_id: u64, content_type: &str, url: String, location: Location) -> (r: Result<Story, CoreError>)
    requires
        old(db)@.wf(),
        is_allowed_type(content_type@),
    ensures
        exists|now: i64| {
            &&& final(db)@ == create_story_model(old(db)@, user_id, location, uploaded_media(content_type@, url@), now).0
            &&& match create_story_model(old(db)@, user_id, location, uploaded_media(content_type@, url@), now).1 {
                Ok(x) => r is Ok && r->Ok_0@ == x,
                Err(e) => r == Err::<Story, CoreError>(e),
            }
        },
        final(db)@.wf(),
{
    let now = now_millis();
    create_story_with_media_at(db, user_id, content_type, url, location, now)
}

/// Every unexpired story of the friends of `user_id` at time `now`, latest expiry
/// first.
pub fn friend_stories_at(db: &Db, user_id: u64, now: i64) -> (r: Vec<Story>)
    requires
        db@.wf(),
    ensures
        exists|picked: Seq<Candidate>| {
            &&& is_top_ranked(friend_candidates(db@, user_id, now), friend_candidates(db@, user_id, now).len(), picked)
            &&& r@.map_values(|s: Story| s@) == stories_at(db@, picked)
        },
{
    let ghost m = db@;
    let ghost keep = friend_story_keep(m, user_id, now);
    let mut cands: Vec<Candidate> = Vec::new();
    let mut i: usize = 0;
    while i < db.stories.len()
        invariant
            m == db@,
            keep == friend_story_keep(m, user_id, now),
            i <= m.stories.len(),
            cands@ == candidates_upto(keep, zero_distance(), story_expiry(m), i as int),
        decreases m.stories.len() - i,
    {
        let s = &db.stories[i];
        if now <= s.expires_at && are_friends(db, user_id, s.user_id) {
            cands.push(Candidate { distance: 0, expires_at: s.expires_at, index: i });
            assert(cands@ =~= candidates_upto(keep, zero_distance(), story_expiry(m), i + 1));
        }
        i = i + 1;
    }
    proof { lemma_candidates(keep, zero_distance(), story_expiry(m), m.stories.len() as int); }
    let picked = top_ranked(&cands, cands.len());
    proof {
        assert forall|k: int| 0 <= k < picked@.len() implies picked@[k].index < m.stories.len() by {
            let q = choose|q: int| 0 <= q < cands@.len() && cands@[q] == picked@[k];
            assert(cands@[q].index < m.stories.len());
        }
    }
    stories_for(db, &picked)
}

/// Every unexpired story of the friends of `user_id` now, latest expiry first.
pub fn get_friend_stories(db: &Db, user_id: u64) -> (r: Vec<Story>)
    requires
        db@.wf(),
    ensures
        exists|now: i64, picked: Seq<Candidate>| {
            &&& is_top_ranked(friend_candidates(db@, user_id, now), friend_candidates(db@, user_id, now).len(), picked)
            &&& r@.map_values(|s: Story| s@) == stories_at(db@, picked)
        },
{
    let now = now_millis();
    friend_stories_at(db, user_id, now)
}

/// The unexpired stories within `radius` meters (5000 when not given) at time
/// `now`, nearest first, then latest expiry first, at most 50. `distances[i]` is
/// the distance in meters from the query point to story `i`.
pub fn nearby_stories_at(db: &Db, distances: &Vec<u64>, radius: Option<u64>, now: i64) -> (r: Vec<Story>)
    requires
        db@.wf(),
        distances@.len() == db@.stories.len(),
    ensures
        exists|picked: Seq<Candidate>| {
            &&& is_top_ranked(nearby_candidates(db@, distances@, radius_or_default(radius), now), NEARBY_CAP as nat, picked)
            &&& r@.map_values(|s: Story| s@) == stories_at(db@, picked)
        },
{
    let ghost m = db@;
    let radius = match radius {
        Some(r) => r,
        None => DEFAULT_RADIUS_M,
    };
    let ghost keep = nearby_story_keep(m, distances@, radius, now);
    let mut cands: Vec<Candidate> = Vec::new();
    let mut i: usize = 0;
    while i < db.stories.len()
        invariant
            m == db@,
            distances@.len() == m.stories.len(),
            keep == nearby_story_keep(m, distances@, radius, now),
            i <= m.stories.len(),
            cands@ == candidates_upto(keep, distance_of(distances@), story_expiry(m), i as int),
        decreases m.stories.len() - i,
    {
        let s = &db.stories[i];
        if now <= s.expires_at && distances[i] <= radius {
            cands.push(Candidate { distance: distances[i], expires_at: s.expires_at, index: i });
            assert(cands@ =~= candidates_upto(keep, distance_of(distances@), story_expiry(m), i + 1));
        }
        i = i + 1;
    }
    proof { lemma_candidates(keep, distance_of(distances@), story_expiry(m), m.stories.len() as int); }
    let picked = top_ranked(&cands, NEARBY_CAP);
    proof {
        assert forall|k: int| 0 <= k < picked@.len() implies picked@[k].index < m.stories.len() by {
            let q = choose|q: int| 0 <= q < cands@.len() && cands@[q] == picked@[k];
            assert(cands@[q].index < m.stories.len());
        }
    }
    stories_for(db, &picked)
}

/// The unexpired stories within `radius` meters now, nearest first, at most 50.
pub fn get_nearby_stories(db: &Db, distances: &Vec<u64>, radius: Option<u64>) -> (r: Vec<Story>)
    requires
        db@.wf(),
        distances@.len() == db@.stories.len(),
    ensures
        exists|now: i64, picked: Seq<Candidate>| {
            &&& is_top_ranked(nearby_candidates(db@, distances@, radius_or_default(radius), now), NEARBY_CAP as nat, picked)
            &&& r@.map_values(|s: Story| s@) == stories_at(db@, picked)
        },
{
    let now = now_millis();
    nearby_stories_at(db, distances, radius, now)
}

/// Whether `viewer` may read `story` at time `now`: it is the owner's, a friend's,
/// or unexpired.
pub fn can_view_story(db: &Db, viewer: u64, story: &Story, now: i64) -> (r: bool)
    ensures
        r == may_view_story(db@, viewer, story@, now),
{
    story.user_id == viewer || are_friends(db, viewer, story.user_id) || now <= story.expires_at
}

/// The story `story_id` as `user_id` may read it at time `now`.
pub fn story_by_id_at(db: &Db, story_id: u64, user_id: u64, now: i64) -> (r: Result<Story, CoreError>)
    requires
        db@.wf(),
    ensures
        story_result_is(story_by_id_model(db@, story_id, user_id, now), r),
{
    let i = match find_story(db, story_id) {
        None => return Err(CoreError::NotFound),
        Some(i) => i,
    };
    let s = &db.stories[i];
    if can_view_story(db, user_id, s, now) {
        Ok(s.copy())
    } else {
        Err(CoreError::NotFound)
    }
}

/// The story `story_id` as `user_id` may read it now.
pub fn get_story_by_id(db: &Db, story_id: u64, user_id: u64) -> (r: Result<Story, CoreError>)
    requires
        db@.wf(),
    ensures
        exists|now: i64| story_result_is(#[trigger] story_by_id_model(db@, story_id, user_id, now), r),
{
    let now = now_millis();
    story_by_id_at(db, story_id, user_id, now)
}

/// Deletes a story; only its owner may. The deleted story is returned, so that the
/// caller can release its media object.
pub fn delete_story(db: &mut Db, story_id: u64, user_id: u64) -> (r: Result<Story, CoreError>)
    requires
        old(db)@.wf(),
    ensures
        final(db)@ == delete_story_model(old(db)@, story_id, user_id).0,
        match delete_story_model(old(db)@, story_id, user_id).1 {
            Ok(x) => r is Ok && r->Ok_0@ == x,
            Err(e) => r == Err::<Story, CoreError>(e),
        },
        final(db)@.wf(),
{
    let ghost m = db@;
    let i = match find_story(db, story_id) {
        None => return Err(CoreError::NotFound),
        Some(i) => i,
    };
    if db.stories[i].user_id != user_id {
        return Err(CoreError::NotFound);
    }
    let s = db.stories.remove(i);
    proof {
        let n = db@;
        assert(n.stories =~= m.stories.remove(i as int));
        assert forall|p: int, q: int| 0 <= p < q < n.stories.len() implies n.stories[p].id != n.stories[q].id by {
            let pp = if p < i { p } else { p + 1 };
            let qq = if q < i { q } else { q + 1 };
            assert(n.stories[p] == m.stories[pp]);
            assert(n.stories[q] == m.stories[qq]);
        }
        assert forall|p: int| 0 <= p < n.stories.len() implies n.stories[p].id < n.next_id by {
            let pp = if p < i { p } else { p + 1 };
            assert(n.stories[p] == m.stories[pp]);
        }
        assert(n == (DbModel { stories: n.stories, ..m }));
        lemma_stories_replaced(m, n.stories);
    }
    Ok(s)
}

/// Expiry alone decides whether a story can be listed, whoever owns it. The
/// friends listing holds a friend's story exactly while it is unexpired. The
/// proximity listing never holds an expired story, and holds an unexpired one
/// within the radius whenever fewer than 50 candidates rank before it. Its owner
/// reads a story by identifier at any time.
pub proof fn lemma_expiry_decides_visibility(m: DbModel, distances: Seq<u64>, radius: u64, viewer: u64, now: i64, i: int)
    requires
        m.wf(),
        m.stories.len() <= usize::MAX,
        distances.len() == m.stories.len(),
        0 <= i < m.stories.len(),
    ensures
        forall|picked: Seq<Candidate>|
            #![trigger is_top_ranked(friend_candidates(m, viewer, now), friend_candidates(m, viewer, now).len(), picked)]
            is_top_ranked(friend_candidates(m, viewer, now), friend_candidates(m, viewer, now).len(), picked)
                && are_friends_spec(m.friends, viewer, m.stories[i].user_id) ==> (picked.contains(
                candidate_at(zero_distance(), story_expiry(m), i),
            ) <==> !expired(m.stories[i], now)),
        forall|picked: Seq<Candidate>|
            #![trigger is_top_ranked(nearby_candidates(m, distances, radius, now), NEARBY_CAP as nat, picked)]
            is_top_ranked(nearby_candidates(m, distances, radius, now), NEARBY_CAP as nat, picked)
                && !expired(m.stories[i], now) && distances[i] <= radius && precedes_count(
                nearby_candidates(m, distances, radius, now),
                candidate_at(distance_of(distances), story_expiry(m), i),
            ) < NEARBY_CAP ==> picked.contains(candidate_at(distance_of(distances), story_expiry(m), i)),
        forall|picked: Seq<Candidate>, k: int|
            is_top_ranked(nearby_candidates(m, distances, radius, now), NEARBY_CAP as nat, picked)
                && 0 <= k < picked.len() ==> !expired(#[trigger] m.stories[picked[k].index as int], now),
        forall|picked: Seq<Candidate>, k: int|
            is_top_ranked(friend_candidates(m, viewer, now), friend_candidates(m, viewer, now).len(), picked)
                && 0 <= k < picked.len() ==> !expired(#[trigger] m.stories[picked[k].index as int], now),
        story_by_id_model(m, m.stories[i].id, m.stories[i].user_id, now) == Ok::<StoryView, CoreError>(m.stories[i]),
{
    let n = m.stories.len() as int;
    let nk = nearby_story_keep(m, distances, radius, now);
    let fk = friend_story_keep(m, viewer, now);
    let nc = nearby_candidates(m, distances, radius, now);
    let fc = friend_candidates(m, viewer, now);
    lemma_candidates(nk, distance_of(distances), story_expiry(m), n);
    lemma_candidates(fk, zero_distance(), story_expiry(m), n);
    assert forall|picked: Seq<Candidate>|
        is_top_ranked(fc, fc.len(), picked) && are_friends_spec(m.friends, viewer, m.stories[i].user_id)
        implies (picked.contains(candidate_at(zero_distance(), story_expiry(m), i)) <==> !expired(m.stories[i], now)) by {
        let ci = candidate_at(zero_distance(), story_expiry(m), i);
        lemma_top_ranked_all(fc, fc.len(), picked);
        if picked.contains(ci) {
            let k = choose|k: int| 0 <= k < picked.len() && picked[k] == ci;
            assert(fc.contains(ci));
        }
        if !expired(m.stories[i], now) {
            assert(fk(i));
            assert(fc.contains(ci));
        }
    }
    assert forall|picked: Seq<Candidate>|
        is_top_ranked(nc, NEARBY_CAP as nat, picked) && !expired(m.stories[i], now) && distances[i] <= radius
            && precedes_count(nc, candidate_at(distance_of(distances), story_expiry(m), i)) < NEARBY_CAP
        implies picked.contains(candidate_at(distance_of(distances), story_expiry(m), i)) by {
        assert(nk(i));
        lemma_top_ranked_keeps(nc, NEARBY_CAP as nat, picked, candidate_at(distance_of(distances), story_expiry(m), i));
    }
    assert forall|picked: Seq<Candidate>, k: int|
        is_top_ranked(nc, NEARBY_CAP as nat, picked)
            && 0 <= k < picked.len() implies !expired(#[trigger] m.stories[picked[k].index as int], now) by {
        let q = choose|q: int| 0 <= q < nc.len() && nc[q] == picked[k];
        assert(nk(nc[q].index as int));
    }
    assert forall|picked: Seq<Candidate>, k: int|
        is_top_ranked(fc, fc.len(), picked)
            && 0 <= k < picked.len() implies !expired(#[trigger] m.stories[picked[k].index as int], now) by {
        let q = choose|q: int| 0 <= q < fc.len() && fc[q] == picked[k];
        assert(fk(fc[q].index as int));
    }
    let id = m.stories[i].id;
    assert(has_story(m.stories, id));
    let k = story_index(m.stories, id);
    if k != i {
        if k < i {
            assert(m.stories[k].id != m.stories[i].id);
        } else {
            assert(m.stories[i].id != m.stories[k].id);
        }
    }
}

/// A story created at `now` belongs to its creator, keeps its place and media, and
/// expires a day later. Within the radius it is a candidate of the proximity
/// listing exactly until then, and its owner reads it at any later time.
pub proof fn lemma_created_story(m: DbModel, user: u64, location: Location, media: MediaView, now: i64, distances: Seq<u64>, radius: u64, later: i64)
    requires
        m.wf(),
        m.next_id < u64::MAX,
        now <= i64::MAX - STORY_LIFETIME_MS,
        m.stories.len() < usize::MAX,
        distances.len() == m.stories.len() + 1,
        distances[m.stories.len() as int] <= radius,
    ensures
        ({
            let (m1, r) = create_story_model(m, user, location, media, now);
            let s = r->Ok_0;
            let i = m.stories.len() as int;
            &&& r is Ok && s.user_id == user && s.location == location && s.media == media
            &&& s.expires_at == now + STORY_LIFETIME_MS
            &&& story_by_id_model(m1, s.id, user, later) == Ok::<StoryView, CoreError>(s)
            &&& nearby_candidates(m1, distances, radius, later).contains(
                candidate_at(distance_of(distances), story_expiry(m1), i),
            ) <==> later <= s.expires_at
        }),
{
    let (m1, r) = create_story_model(m, user, location, media, now);
    let s = r->Ok_0;
    let i = m.stories.len() as int;
    assert(m1.stories[i] == s);
    assert forall|k: int| 0 <= k < m1.stories.len() && m1.stories[k].id == s.id implies k == i by {
        if k < i {
            assert(m.stories[k].id < m.next_id);
        }
    }
    assert(has_story(m1.stories, s.id));
    assert(story_index(m1.stories, s.id) == i);
    let nk = nearby_story_keep(m1, distances, radius, later);
    lemma_candidates(nk, distance_of(distances), story_expiry(m1), m1.stories.len() as int);
}

} // verus!
