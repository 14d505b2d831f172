//! Records of the store, their mathematical views, and the store itself.

use vstd::prelude::*;
use crate::media::{Media, MediaType};

verus! {

/// Failures of the core operations.
#[derive(Clone, Copy, Debug, PartialEq, Eq, Structural)]
pub enum CoreError {
    /// The entity is absent, or the caller may not see it.
    NotFound,
    /// The caller is known but lacks the right to act on the entity.
    Forbidden,
    /// The target of the operation is the actor itself.
    SelfReference,
    /// The relationship exists already.
    AlreadyExists,
    /// A semantic rule of the data would be broken.
    ValidationFailed,
    /// The store could not complete the write.
    StorageFailure,
}

#[derive(Clone, Copy, Debug, PartialEq, Eq, Structural)]
pub enum UserRole {
    User,
    Admin,
}

#[derive(Clone, Copy, Debug, PartialEq, Eq, Structural)]
pub enum FriendStatus {
    Pending,
    Accepted,
}

/// A geographic point, in millionths of a degree.
#[derive(Clone, Copy, Debug, PartialEq, Eq, Structural)]
pub struct Location {
    pub longitude_e6: i64,
    pub latitude_e6: i64,
}

pub struct MediaView {
    pub media_type: MediaType,
    pub url: Seq<char>,
    pub duration: Option<u32>,
}

impl View for Media {
    type V = MediaView;

    open spec fn view(&self) -> MediaView {
        MediaView { media_type: self.media_type, url: self.url@, duration: self.duration }
    }
}

pub open spec fn opt_text(o: Option<String>) -> Option<Seq<char>> {
    match o {
        Some(s) => Some(s@),
        None => None,
    }
}

pub open spec fn opt_media(o: Option<Media>) -> Option<MediaView> {
    match o {
        Some(m) => Some(m@),
        None => None,
    }
}

#[derive(Debug)]
pub struct User {
    pub id: u64,
    pub username: String,
    pub email: String,
    pub password: String,
    pub role: UserRole,
    pub bio: String,
    pub avatar: Option<String>,
    pub location: Option<Location>,
}

pub struct UserView {
    pub id: u64,
    pub username: Seq<char>,
    pub email: Seq<char>,
    pub password: Seq<char>,
    pub role: UserRole,
    pub bio: Seq<char>,
    pub avatar: Option<Seq<char>>,
    pub location: Option<Location>,
}

impl View for User {
    type V = UserView;

    open spec fn view(&self) -> UserView {
        UserView {
            id: self.id,
            username: self.username@,
            email: self.email@,
            password: self.password@,
            role: self.role,
            bio: self.bio@,
            avatar: opt_text(self.avatar),
            location: self.location,
        }
    }
}

/// A friendship edge, directed from the requester `user_id` to the recipient `friend_id`.
#[derive(Clone, Copy, Debug, PartialEq, Eq, Structural)]
pub struct Friend {
    pub id: u64,
    pub status: FriendStatus,
    pub user_id: u64,
    pub friend_id: u64,
}

#[derive(Debug)]
pub struct Group {
    pub id: u64,
    pub name: String,
    pub creator_id: u64,
    pub members: Vec<u64>,
}

pub struct GroupView {
    pub id: u64,
    pub name: Seq<char>,
    pub creator_id: u64,
    pub members: Seq<u64>,
}

impl View for Group {
    type V = GroupView;

    open spec fn view(&self) -> GroupView {
        GroupView {
            id: self.id,
            name: self.name@,
            creator_id: self.creator_id,
            members: self.members@,
        }
    }
}

#[derive(Debug)]
pub struct Message {
    pub id: u64,
    pub content: String,
    pub sender_id: u64,
    /// A user for a direct message, a group for a group message.
    pub recipient_id: u64,
    pub is_group: bool,
    pub media: Option<Media>,
    pub read: bool,
}

pub struct MessageView {
    pub id: u64,
    pub content: Seq<char>,
    pub sender_id: u64,
    pub recipient_id: u64,
    pub is_group: bool,
    pub media: Option<MediaView>,
    pub read: bool,
}

impl View for Message {
    type V = MessageView;

    open spec fn view(&self) -> MessageView {
        MessageView {
            id: self.id,
            content: self.content@,
            sender_id: self.sender_id,
            recipient_id: self.recipient_id,
            is_group: self.is_group,
            media: opt_media(self.media),
            read: self.read,
        }
    }
}

/// A geotagged post; `expires_at` is in milliseconds since the epoch.
#[derive(Debug)]
pub struct Story {
    pub id: u64,
    pub user_id: u64,
    pub location: Location,
    pub media: Media,
    pub expires_at: i64,
}

pub struct StoryView {
    pub id: u64,
    pub user_id: u64,
    pub location: Location,
    pub media: MediaView,
    pub expires_at: i64,
}

impl View for Story {
    type V = StoryView;

    open spec fn view(&self) -> StoryView {
        StoryView {
            id: self.id,
            user_id: self.user_id,
            location: self.location,
            media: self.media@,
            expires_at: self.expires_at,
        }
    }
}

pub fn copy_text(s: &String) -> (r: String)
    ensures
        r@ == s@,
{
    s.clone()
}

pub fn copy_opt_text(o: &Option<String>) -> (r: Option<String>)
    ensures
        opt_text(r) == opt_text(*o),
{
    match o {
        Some(s) => Some(copy_text(s)),
        None => None,
    }
}

pub fn copy_ids(v: &Vec<u64>) -> (r: Vec<u64>)
    ensures
        r@ == v@,
{
    let mut r: Vec<u64> = Vec::new();
    let mut i: usize = 0;
    while i < v.len()
        invariant
            i <= v@.len(),
            r@ == v@.subrange(0, i as int),
        decreases v@.len() - i,
    {
        r.push(v[i]);
        i = i + 1;
    }
    assert(v@.subrange(0, v@.len() as int) == v@);
    r
}

impl Media {
    pub fn copy(&self) -> (r: Media)
        ensures
            r@ == self@,
    {
        Media { media_type: self.media_type, url: copy_text(&self.url), duration: self.duration }
    }
}

pub fn copy_opt_media(o: &Option<Media>) -> (r: Option<Media>)
    ensures
        opt_media(r) == opt_media(*o),
{
    match o {
        Some(m) => Some(m.copy()),
        None => None,
    }
}

impl User {
    pub fn copy(&self) -> (r: User)
        ensures
            r@ == self@,
    {
        User {
            id: self.id,
            username: copy_text(&self.username),
            email: copy_text(&self.email),
            password: copy_text(&self.password),
            role: self.role,
            bio: copy_text(&self.bio),
            avatar: copy_opt_text(&self.avatar),
            location: self.location,
        }
    }
}

impl Group {
    pub fn copy(&self) -> (r: Group)
        ensures
            r@ == self@,
    {
        Group {
            id: self.id,
            name: copy_text(&self.name),
            creator_id: self.creator_id,
            members: copy_ids(&self.members),
        }
    }
}

impl Message {
    pub fn copy(&self) -> (r: Message)
        ensures
            r@ == self@,
    {
        Message {
            id: self.id,
            content: copy_text(&self.content),
            sender_id: self.sender_id,
            recipient_id: self.recipient_id,
            is_group: self.is_group,
            media: copy_opt_media(&self.media),
            read: self.read,
        }
    }
}

impl Story {
    pub fn copy(&self) -> (r: Story)
        ensures
            r@ == self@,
    {
        Story {
            id: self.id,
            user_id: self.user_id,
            location: self.location,
            media: self.media.copy(),
            expires_at: self.expires_at,
        }
    }
}

/// The state of the store, as mathematical values.
pub struct DbModel {
    pub next_id: u64,
    pub users: Seq<UserView>,
    pub friends: Seq<Friend>,
    pub groups: Seq<GroupView>,
    pub messages: Seq<MessageView>,
    pub stories: Seq<StoryView>,
}

/// The store: one collection per kind of record, and the next identifier to hand out.
pub struct Db {
    pub next_id: u64,
    pub users: Vec<User>,
    pub friends: Vec<Friend>,
    pub groups: Vec<Group>,
    pub messages: Vec<Message>,
    pub stories: Vec<Story>,
}

impl View for Db {
    type V = DbModel;

    open spec fn view(&self) -> DbModel {
        DbModel {
            next_id: self.next_id,
            users: self.users@.map_values(|u: User| u@),
            friends: self.friends@,
            groups: self.groups@.map_values(|g: Group| g@),
            messages: self.messages@.map_values(|m: Message| m@),
            stories: self.stories@.map_values(|s: Story| s@),
        }
    }
}

/// An edge joins `a` and `b`, in one direction or the other.
pub open spec fn joins(e: Friend, a: u64, b: u64) -> bool {
    (e.user_id == a && e.friend_id == b) || (e.user_id == b && e.friend_id == a)
}

pub open spec fn no_dup_ids(s: Seq<u64>) -> bool {
    forall|i: int, j: int| 0 <= i < j < s.len() ==> s[i] != s[j]
}

impl DbModel {
    pub open spec fn users_wf(self) -> bool {
        &&& forall|i: int| 0 <= i < self.users.len() ==> self.users[i].id < self.next_id
        &&& forall|i: int, j: int|
            0 <= i < j < self.users.len() ==> self.users[i].id != self.users[j].id
    }

    pub open spec fn friends_wf(self) -> bool {
        &&& forall|i: int|
            0 <= i < self.friends.len() ==> {
                &&& self.friends[i].id < self.next_id
                &&& self.friends[i].user_id != self.friends[i].friend_id
            }
        &&& forall|i: int, j: int|
            #![trigger self.friends[i], self.friends[j]]
            0 <= i < self.friends.len() && 0 <= j < self.friends.len() && i != j ==> {
                &&& self.friends[i].id != self.friends[j].id
                &&& !joins(self.friends[i], self.friends[j].user_id, self.friends[j].friend_id)
            }
    }

    pub open spec fn groups_wf(self) -> bool {
        &&& forall|i: int|
            0 <= i < self.groups.len() ==> {
                &&& self.groups[i].id < self.next_id
                &&& self.groups[i].members.contains(self.groups[i].creator_id)
                &&& no_dup_ids(self.groups[i].members)
            }
        &&& forall|i: int, j: int|
            0 <= i < j < self.groups.len() ==> self.groups[i].id != self.groups[j].id
    }

    pub open spec fn messages_wf(self) -> bool {
        &&& forall|i: int| 0 <= i < self.messages.len() ==> self.messages[i].id < self.next_id
        &&& forall|i: int, j: int|
            0 <= i < j < self.messages.len() ==> self.messages[i].id != self.messages[j].id
    }

    pub open spec fn stories_wf(self) -> bool {
        &&& forall|i: int| 0 <= i < self.stories.len() ==> self.stories[i].id < self.next_id
        &&& forall|i: int, j: int|
            0 <= i < j < self.stories.len() ==> self.stories[i].id != self.stories[j].id
    }

    /// Identifiers are unique within each collection and below `next_id`; edges join
    /// two distinct users, at most one per pair; a group holds its creator and no
    /// member twice.
    pub open spec fn wf(self) -> bool {
        &&& self.users_wf()
        &&& self.friends_wf()
        &&& self.groups_wf()
        &&& self.messages_wf()
        &&& self.stories_wf()
    }
}

/// Replacing the edges by a well-formed sequence keeps the store well formed.
pub proof fn lemma_friends_replaced(m: DbModel, f: Seq<Friend>)
    requires
        m.wf(),
        (DbModel { friends: f, ..m }).friends_wf(),
    ensures
        (DbModel { friends: f, ..m }).wf(),
{
}

/// Replacing the groups by a well-formed sequence keeps the store well formed.
pub proof fn lemma_groups_replaced(m: DbModel, g: Seq<GroupView>)
    requires
        m.wf(),
        (DbModel { groups: g, ..m }).groups_wf(),
    ensures
        (DbModel { groups: g, ..m }).wf(),
{
}

/// Replacing the messages by a well-formed sequence keeps the store well formed.
pub proof fn lemma_messages_replaced(m: DbModel, s: Seq<MessageView>)
    requires
        m.wf(),
        (DbModel { messages: s, ..m }).messages_wf(),
    ensures
        (DbModel { messages: s, ..m }).wf(),
{
}

/// Replacing the stories by a well-formed sequence keeps the store well formed.
pub proof fn lemma_stories_replaced(m: DbModel, s: Seq<StoryView>)
    requires
        m.wf(),
        (DbModel { stories: s, ..m }).stories_wf(),
    ensures
        (DbModel { stories: s, ..m }).wf(),
{
}

/// Replacing the users by a well-formed sequence keeps the store well formed.
pub proof fn lemma_users_replaced(m: DbModel, s: Seq<UserView>)
    requires
        m.wf(),
        (DbModel { users: s, ..m }).users_wf(),
    ensures
        (DbModel { users: s, ..m }).wf(),
{
}

/// Whether `x` occurs in `v`.
pub fn contains_id(v: &Vec<u64>, x: u64) -> (r: bool)
    ensures
        r == v@.contains(x),
{
    let mut i: usize = 0;
    while i < v.len()
        invariant
            i <= v@.len(),
            forall|j: int| 0 <= j < i ==> v@[j] != x,
        decreases v@.len() - i,
    {
        if v[i] == x {
            assert(v@[i as int] == x);
            return true;
        }
        i = i + 1;
    }
    false
}

/// Where `x` first occurs in `v`.
pub fn position_of_id(v: &Vec<u64>, x: u64) -> (r: Option<usize>)
    ensures
        r is None ==> !v@.contains(x),
        r matches Some(i) ==> i < v@.len() && v@[i as int] == x,
{
    let mut i: usize = 0;
    while i < v.len()
        invariant
            i <= v@.len(),
            forall|j: int| 0 <= j < i ==> v@[j] != x,
        decreases v@.len() - i,
    {
        if v[i] == x {
            return Some(i);
        }
        i = i + 1;
    }
    None
}

impl Db {
    pub fn new() -> (r: Db)
        ensures
            r@.wf(),
            r@.next_id == 1,
            r@.users.len() == 0,
            r@.friends.len() == 0,
            r@.groups.len() == 0,
            r@.messages.len() == 0,
            r@.stories.len() == 0,
    {
        let r = Db {
            next_id: 1,
            users: Vec::new(),
            friends: Vec::new(),
            groups: Vec::new(),
            messages: Vec::new(),
            stories: Vec::new(),
        };
        assert(r@.users =~= Seq::empty());
        assert(r@.groups =~= Seq::empty());
        assert(r@.messages =~= Seq::empty());
        assert(r@.stories =~= Seq::empty());
        r
    }

    /// Hands out a fresh identifier, or fails once identifiers are exhausted.
    pub fn allocate_id(&mut self) -> (r: Result<u64, CoreError>)
        ensures
            old(self).next_id == u64::MAX ==> r == Err::<u64, CoreError>(CoreError::StorageFailure)
                && *final(self) == *old(self),
            old(self).next_id < u64::MAX ==> r == Ok::<u64, CoreError>(old(self).next_id)
                && final(self)@ == (DbModel { next_id: (old(self).next_id + 1) as u64, ..old(self)@ }),
    {
        if self.next_id == u64::MAX {
            return Err(CoreError::StorageFailure);
        }
        let id = self.next_id;
        self.next_id = self.next_id + 1;
        Ok(id)
    }
}

} // verus!
