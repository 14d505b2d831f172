//! Direct and group messages: sending, paginated listing newest first, and
//! deletion by the sender.

use vstd::prelude::*;
use vstd::string::*;
use crate::friends::{are_friends, are_friends_spec};
use crate::groups::{find_group, lemma_group_index, visible_group};
use crate::media::{duration_of, is_allowed_type, media_for_upload, media_type_of, Media};
use crate::model::{
    contains_id, lemma_messages_replaced, opt_media, CoreError, Db, DbModel, MediaView, Message,
    MessageView,
};

verus! {

/// Longest accepted message text, in characters.
pub const MAX_CONTENT_CHARS: usize = 1000;

/// Page size when none is asked for.
pub const DEFAULT_PAGE_LIMIT: i64 = 50;

pub struct CreateMessage {
    pub content: String,
    pub media: Option<Media>,
}

/// Paging of a message listing; `limit` defaults to 50 and `offset` to 0.
#[derive(Clone, Copy, Debug)]
pub struct MessageQueryParams {
    pub limit: Option<i64>,
    pub offset: Option<i64>,
}

/// The text sent along with an uploaded media object.
pub struct MediaQueryParams {
    pub text_content: Option<String>,
}

/// Which conversation a listing reads.
#[derive(Clone, Copy, Debug, PartialEq, Eq, Structural)]
pub enum Thread {
    /// The direct messages exchanged by two users, in either direction.
    Direct(u64, u64),
    /// The messages sent to a group.
    Group(u64),
}

pub open spec fn in_thread(msg: MessageView, t: Thread) -> bool {
    match t {
        Thread::Direct(a, b) => !msg.is_group && ((msg.sender_id == a && msg.recipient_id == b) || (
        msg.sender_id == b && msg.recipient_id == a)),
        Thread::Group(g) => msg.is_group && msg.recipient_id == g,
    }
}

/// The messages of thread `t`, newest first.
pub open spec fn newest_first(s: Seq<MessageView>, t: Thread) -> Seq<MessageView>
    decreases s.len(),
{
    if s.len() == 0 {
        Seq::empty()
    } else {
        let rest = newest_first(s.subrange(1, s.len() as int), t);
        if in_thread(s[0], t) {
            rest.push(s[0])
        } else {
            rest
        }
    }
}

/// Where a page starts: past the end for a negative offset.
pub open spec fn page_start(len: nat, offset: Option<i64>) -> nat {
    match offset {
        None => 0,
        Some(o) => if o < 0 || o >= len { len } else { o as nat },
    }
}

/// Where a page ends: a limit of 0 reads to the end, a negative one counts as its magnitude.
pub open spec fn page_end(len: nat, params: MessageQueryParams) -> nat {
    let start = page_start(len, params.offset);
    let lim: int = match params.limit {
        None => DEFAULT_PAGE_LIMIT as int,
        Some(l) => if l < 0 { -l } else { l as int },
    };
    if lim == 0 || start + lim >= len { len } else { (start + lim) as nat }
}

pub open spec fn page(s: Seq<MessageView>, params: MessageQueryParams) -> Seq<MessageView> {
    s.subrange(page_start(s.len(), params.offset) as int, page_end(s.len(), params) as int)
}

pub open spec fn content_ok(content: Seq<char>) -> bool {
    content.len() <= MAX_CONTENT_CHARS
}

pub open spec fn add_message(m: DbModel, msg: MessageView) -> DbModel {
    DbModel { next_id: (m.next_id + 1) as u64, messages: m.messages.push(msg), ..m }
}

pub open spec fn send_direct_model(m: DbModel, sender: u64, recipient: u64, content: Seq<char>, media: Option<MediaView>) -> (DbModel, Result<MessageView, CoreError>) {
    if !content_ok(content) {
        (m, Err(CoreError::ValidationFailed))
    } else if sender == recipient {
        (m, Err(CoreError::SelfReference))
    } else if !are_friends_spec(m.friends, sender, recipient) {
        (m, Err(CoreError::Forbidden))
    } else if m.next_id == u64::MAX {
        (m, Err(CoreError::StorageFailure))
    } else {
        let msg = MessageView {
            id: m.next_id,
            content,
            sender_id: sender,
            recipient_id: recipient,
            is_group: false,
            media,
            read: false,
        };
        (add_message(m, msg), Ok(msg))
    }
}

pub open spec fn send_group_model(m: DbModel, sender: u64, group_id: u64, content: Seq<char>, media: Option<MediaView>) -> (DbModel, Result<MessageView, CoreError>) {
    if !content_ok(content) {
        (m, Err(CoreError::ValidationFailed))
    } else if !visible_group(m, group_id, sender) {
        (m, Err(CoreError::Forbidden))
    } else if m.next_id == u64::MAX {
        (m, Err(CoreError::StorageFailure))
    } else {
        let msg = MessageView {
            id: m.next_id,
            content,
            sender_id: sender,
            recipient_id: group_id,
            is_group: true,
            media,
            read: true,
        };
        (add_message(m, msg), Ok(msg))
    }
}

pub open spec fn has_message(s: Seq<MessageView>, id: u64) -> bool {
    exists|i: int| 0 <= i < s.len() && s[i].id == id
}

pub open spec fn message_index(s: Seq<MessageView>, id: u64) -> int {
    choose|i: int| 0 <= i < s.len() && s[i].id == id
}

pub open spec fn delete_message_model(m: DbModel, message_id: u64, user: u64) -> (DbModel, Result<MessageView, CoreError>) {
    if !has_message(m.messages, message_id) || m.messages[message_index(m.messages, message_id)].sender_id != user {
        (m, Err(CoreError::NotFound))
    } else {
        let i = message_index(m.messages, message_id);
        (DbModel { messages: m.messages.remove(i), ..m }, Ok(m.messages[i]))
    }
}

pub open spec fn text_or_empty(t: Option<String>) -> Seq<char> {
    match t {
        Some(s) => s@,
        None => Seq::empty(),
    }
}

pub open spec fn uploaded_media(content_type: Seq<char>, url: Seq<char>) -> MediaView {
    MediaView { media_type: media_type_of(content_type), url, duration: duration_of(content_type) }
}

fn collect_thread(db: &Db, t: Thread) -> (r: Vec<Message>)
    ensures
        r@.map_values(|x: Message| x@) == newest_first(db@.messages, t),
{
    let ghost s = db@.messages;
    let n = db.messages.len();
    let mut r: Vec<Message> = Vec::new();
    let mut i: usize = n;
    while i > 0
        invariant
            s == db@.messages,
            n == s.len(),
            i <= n,
            r@.map_values(|x: Message| x@) == newest_first(s.subrange(i as int, n as int), t),
        decreases i,
    {
        let ghost tail = s.subrange(i - 1, n as int);
        assert(tail.subrange(1, tail.len() as int) =~= s.subrange(i as int, n as int));
        assert(tail[0] == s[i - 1]);
        let msg = &db.messages[i - 1];
        let keep = match t {
            Thread::Direct(a, b) => !msg.is_group && ((msg.sender_id == a && msg.recipient_id == b)
                || (msg.sender_id == b && msg.recipient_id == a)),
            Thread::Group(g) => msg.is_group && msg.recipient_id == g,
        };
        if keep {
            let ghost before = r@.map_values(|x: Message| x@);
            r.push(msg.copy());
            assert(r@.map_values(|x: Message| x@) =~= before.push(s[i - 1]));
        }
        i = i - 1;
    }
    assert(s.subrange(0, n as int) =~= s);
    r
}

fn page_bounds(len: usize, params: MessageQueryParams) -> (r: (usize, usize))
    ensures
        r.0 == page_start(len as nat, params.offset),
        r.1 == page_end(len as nat, params),
{
    let start: usize = match params.offset {
        None => 0,
        Some(o) => if o < 0 || o as u64 >= len as u64 { len } else { o as usize },
    };
    let lim: u64 = match params.limit {
        None => DEFAULT_PAGE_LIMIT as u64,
        Some(l) => if l < 0 {
            if l == i64::MIN { 9223372036854775808u64 } else { (-l) as u64 }
        } else {
            l as u64
        },
    };
    let end: usize = if lim == 0 || lim >= (len - start) as u64 { len } else { start + lim as usize };
    (start, end)
}

fn take_page(v: Vec<Message>, params: MessageQueryParams) -> (r: Vec<Message>)
    ensures
        r@.map_values(|x: Message| x@) == page(v@.map_values(|x: Message| x@), params),
{
    let ghost s = v@.map_values(|x: Message| x@);
    let (start, end) = page_bounds(v.len(), params);
    let mut r: Vec<Message> = Vec::new();
    let mut i: usize = start;
    while i < end
        invariant
            s == v@.map_values(|x: Message| x@),
            start <= i <= end,
            end <= v@.len(),
            r@.map_values(|x: Message| x@) == s.subrange(start as int, i as int),
        decreases end - i,
    {
        let ghost before = r@.map_values(|x: Message| x@);
        r.push(v[i].copy());
        assert(r@.map_values(|x: Message| x@) =~= before.push(s[i as int]));
        assert(s.subrange(start as int, i + 1) =~= s.subrange(start as int, i as int).push(s[i as int]));
        i = i + 1;
    }
    r
}

/// The direct messages exchanged by `user_id` and `recipient_id`, newest first,
/// one page of them.
pub fn get_direct_messages(db: &Db, user_id: u64, recipient_id: u64, params: MessageQueryParams) -> (r: Vec<Message>)
    ensures
        r@.map_values(|x: Message| x@) == page(newest_first(db@.messages, Thread::Direct(user_id, recipient_id)), params),
{
    let all = collect_thread(db, Thread::Direct(user_id, recipient_id));
    take_page(all, params)
}

/// The messages of a group, newest first, one page of them; only a member may read them.
pub fn get_group_messages(db: &Db, user_id: u64, group_id: u64, params: MessageQueryParams) -> (r: Result<Vec<Message>, CoreError>)
    requires
        db@.wf(),
    ensures
        !visible_group(db@, group_id, user_id) ==> r == Err::<Vec<Message>, CoreError>(CoreError::NotFound),
        visible_group(db@, group_id, user_id) ==> r is Ok && r->Ok_0@.map_values(|x: Message| x@)
            == page(newest_first(db@.messages, Thread::Group(group_id)), params),
{
    let i = match find_group(&db.groups, group_id) {
        None => return Err(CoreError::NotFound),
        Some(i) => i,
    };
    proof { lemma_group_index(db@, group_id, i as int); }
    if !contains_id(&db.groups[i].members, user_id) {
        return Err(CoreError::NotFound);
    }
    let all = collect_thread(db, Thread::Group(group_id));
    Ok(take_page(all, params))
}

fn push_message(db: &mut Db, msg: Message)
    requires
        old(db)@.wf(),
        msg.id == old(db)@.next_id - 1,
        old(db)@.next_id >= 1,
        forall|i: int| 0 <= i < old(db)@.messages.len() ==> old(db)@.messages[i].id < msg.id,
    ensures
        final(db)@ == (DbModel { messages: old(db)@.messages.push(msg@), ..old(db)@ }),
        final(db)@.wf(),
{
    let ghost m = db@;
    let ghost v = msg@;
    db.messages.push(msg);
    proof {
        let n = db@;
        assert(n.messages =~= m.messages.push(v));
        assert(n == (DbModel { messages: n.messages, ..m }));
        lemma_messages_replaced(m, n.messages);
    }
}

/// Sends a direct message; the two users must be distinct and friends.
pub fn send_direct_message(db: &mut Db, user_id: u64, recipient_id: u64, payload: CreateMessage) -> (r: Result<Message, CoreError>)
    requires
        old(db)@.wf(),
    ensures
        final(db)@ == send_direct_model(old(db)@, user_id, recipient_id, payload.content@, opt_media(payload.media)).0,
        match send_direct_model(old(db)@, user_id, recipient_id, payload.content@, opt_media(payload.media)).1 {
            Ok(x) => r is Ok && r->Ok_0@ == x,
            Err(e) => r == Err::<Message, CoreError>(e),
        },
        final(db)@.wf(),
{
    let ghost m = db@;
    if payload.content.as_str().unicode_len() > MAX_CONTENT_CHARS {
        return Err(CoreError::ValidationFailed);
    }
    if user_id == recipient_id {
        return Err(CoreError::SelfReference);
    }
    if !are_friends(db, user_id, recipient_id) {
        return Err(CoreError::Forbidden);
    }
    let id = match db.allocate_id() {
        Ok(id) => id,
        Err(e) => return Err(e),
    };
    let msg = Message {
        id,
        content: payload.content,
        sender_id: user_id,
        recipient_id,
        is_group: false,
        media: payload.media,
        read: false,
    };
    let out = msg.copy();
    push_message(db, msg);
    Ok(out)
}

/// Sends a message to a group; the sender must be one of its members. An absent
/// group and a group without the sender fail alike with `Forbidden`.
pub fn send_group_message(db: &mut Db, user_id: u64, group_id: u64, payload: CreateMessage) -> (r: Result<Message, CoreError>)
    requires
        old(db)@.wf(),
    ensures
        final(db)@ == send_group_model(old(db)@, user_id, group_id, payload.content@, opt_media(payload.media)).0,
        match send_group_model(old(db)@, user_id, group_id, payload.content@, opt_media(payload.media)).1 {
            Ok(x) => r is Ok && r->Ok_0@ == x,
            Err(e) => r == Err::<Message, CoreError>(e),
        },
        final(db)@.wf(),
{
    let ghost m = db@;
    if payload.content.as_str().unicode_len() > MAX_CONTENT_CHARS {
        return Err(CoreError::ValidationFailed);
    }
    let i = match find_group(&db.groups, group_id) {
        None => return Err(CoreError::Forbidden),
        Some(i) => i,
    };
    proof { lemma_group_index(m, group_id, i as int); }
    if !contains_id(&db.groups[i].members, user_id) {
        return Err(CoreError::Forbidden);
    }
    let id = match db.allocate_id() {
        Ok(id) => id,
        Err(e) => return Err(e),
    };
    let msg = Message {
        id,
        content: payload.content,
        sender_id: user_id,
        recipient_id: group_id,
        is_group: true,
        media: payload.media,
        read: true,
    };
    let out = msg.copy();
    push_message(db, msg);
    Ok(out)
}

/// The text of a media message: the one given, or none.
pub fn text_content_of(params: MediaQueryParams) -> (r: String)
    ensures
        r@ == text_or_empty(params.text_content),
{
    match params.text_content {
        Some(t) => t,
        None => String::new(),
    }
}

/// Sends a direct message that carries an object just uploaded under `url`.
pub fn send_direct_message_with_media(db: &mut Db, user_id: u64, recipient_id: u64, content_type: &str, url: String, params: MediaQueryParams) -> (r: Result<Message, CoreError>)
    requires
        old(db)@.wf(),
        is_allowed_type(content_type@),
    ensures
        final(db)@ == send_direct_model(old(db)@, user_id, recipient_id, text_or_empty(params.text_content), Some(uploaded_media(content_type@, url@))).0,
        match send_direct_model(old(db)@, user_id, recipient_id, text_or_empty(params.text_content), Some(uploaded_media(content_type@, url@))).1 {
            Ok(x) => r is Ok && r->Ok_0@ == x,
            Err(e) => r == Err::<Message, CoreError>(e),
        },
        final(db)@.wf(),
{
    let media = media_for_upload(content_type, url);
    let content = text_content_of(params);
    send_direct_message(db, user_id, recipient_id, CreateMessage { content, media: Some(media) })
}

/// Sends a group message that carries an object just uploaded under `url`.
pub fn send_group_message_with_media(db: &mut Db, user_id: u64, group_id: u64, content_type: &str, url: String, params: MediaQueryParams) -> (r: Result<Message, CoreError>)
    requires
        old(db)@.wf(),
        is_allowed_type(content_type@),
    ensures
        final(db)@ == send_group_model(old(db)@, user_id, group_id, text_or_empty(params.text_content), Some(uploaded_media(content_type@, url@))).0,
        match send_group_model(old(db)@, user_id, group_id, text_or_empty(params.text_content), Some(uploaded_media(content_type@, url@))).1 {
            Ok(x) => r is Ok && r->Ok_0@ == x,
            Err(e) => r == Err::<Message, CoreError>(e),
        },
        final(db)@.wf(),
{
    let media = media_for_upload(content_type, url);
    let content = text_content_of(params);
    send_group_message(db, user_id, group_id, CreateMessage { content, media: Some(media) })
}

/// Deletes a message; only its sender may. The deleted message is returned, so
/// that the caller can release its media object.
pub fn delete_message(db: &mut Db, message_id: u64, user_id: u64) -> (r: Result<Message, CoreError>)
    requires
        old(db)@.wf(),
    ensures
        final(db)@ == delete_message_model(old(db)@, message_id, user_id).0,
        match delete_message_model(old(db)@, message_id, user_id).1 {
            Ok(x) => r is Ok && r->Ok_0@ == x,
            Err(e) => r == Err::<Message, CoreError>(e),
        },
        final(db)@.wf(),
{
    let ghost m = db@;
    let mut i: usize = 0;
    while i < db.messages.len()
        invariant
            m == db@,
            i <= m.messages.len(),
            forall|j: int| 0 <= j < i ==> m.messages[j].id != message_id,
        ensures
            m == db@,
            i <= m.messages.len(),
            forall|j: int| 0 <= j < i ==> m.messages[j].id != message_id,
            i < m.messages.len() ==> m.messages[i as int].id == message_id,
        decreases m.messages.len() - i,
    {
        if db.messages[i].id == message_id {
            break;
        }
        i = i + 1;
    }
    if i == db.messages.len() {
        return Err(CoreError::NotFound);
    }
    proof {
        assert(m.messages[i as int].id == message_id);
        assert(has_message(m.messages, message_id));
        let k = message_index(m.messages, message_id);
        if k != i {
            if k < i {
                assert(m.messages[k].id != m.messages[i as int].id);
            } else {
                assert(m.messages[i as int].id != m.messages[k].id);
            }
        }
    }
    if db.messages[i].sender_id != user_id {
        return Err(CoreError::NotFound);
    }
    let msg = db.messages.remove(i);
    proof {
        let n = db@;
        assert(n.messages =~= m.messages.remove(i as int));
        assert forall|p: int, q: int| 0 <= p < q < n.messages.len() implies n.messages[p].id != n.messages[q].id by {
            let pp = if p < i { p } else { p + 1 };
            let qq = if q < i { q } else { q + 1 };
            assert(n.messages[p] == m.messages[pp]);
            assert(n.messages[q] == m.messages[qq]);
        }
        assert forall|p: int| 0 <= p < n.messages.len() implies n.messages[p].id < n.next_id by {
            let pp = if p < i { p } else { p + 1 };
            assert(n.messages[p] == m.messages[pp]);
        }
        assert(n == (DbModel { messages: n.messages, ..m }));
        lemma_messages_replaced(m, n.messages);
    }
    Ok(msg)
}

/// Appending a message puts it first in its thread and leaves other threads as they were.
pub proof fn lemma_newest_first_push(s: Seq<MessageView>, x: MessageView, t: Thread)
    ensures
        newest_first(s.push(x), t) == if in_thread(x, t) {
            seq![x] + newest_first(s, t)
        } else {
            newest_first(s, t)
        },
    decreases s.len(),
{
    let q = s.push(x);
    if s.len() == 0 {
        let e = q.subrange(1, q.len() as int);
        assert(e.len() == 0);
        assert(newest_first(e, t) == Seq::<MessageView>::empty());
        assert(newest_first(s, t) == Seq::<MessageView>::empty());
        assert(q[0] == x);
        assert(newest_first(q, t) == if in_thread(x, t) { newest_first(e, t).push(x) } else { newest_first(e, t) });
        assert(seq![x] + Seq::<MessageView>::empty() =~= seq![x]);
        assert(Seq::<MessageView>::empty().push(x) =~= seq![x]);
    } else {
        let tail = s.subrange(1, s.len() as int);
        lemma_newest_first_push(tail, x, t);
        assert(q.subrange(1, q.len() as int) =~= tail.push(x));
        assert(q[0] == s[0]);
        let rq = newest_first(tail.push(x), t);
        let rs = newest_first(tail, t);
        assert(newest_first(q, t) == if in_thread(s[0], t) { rq.push(s[0]) } else { rq });
        assert(newest_first(s, t) == if in_thread(s[0], t) { rs.push(s[0]) } else { rs });
        if in_thread(x, t) {
            if in_thread(s[0], t) {
                assert((seq![x] + rs).push(s[0]) =~= seq![x] + rs.push(s[0]));
            }
        }
    }
}

pub open spec fn default_page() -> MessageQueryParams {
    MessageQueryParams { limit: None, offset: None }
}

/// A direct message that was sent heads the recipient's listing of the thread,
/// newest first, unread and carrying what was sent; when it was the only message
/// of the thread, deleting it by its sender empties the listing again.
pub proof fn lemma_sent_message_listed_then_deleted(m: DbModel, u1: u64, u2: u64, content: Seq<char>, media: Option<MediaView>)
    requires
        m.wf(),
        send_direct_model(m, u1, u2, content, media).1 is Ok,
    ensures
        ({
            let m1 = send_direct_model(m, u1, u2, content, media).0;
            let msg = send_direct_model(m, u1, u2, content, media).1->Ok_0;
            let listed = page(newest_first(m1.messages, Thread::Direct(u2, u1)), default_page());
            &&& msg.content == content && msg.sender_id == u1 && msg.recipient_id == u2
            &&& !msg.is_group && !msg.read && msg.media == media
            &&& listed.len() >= 1 && listed[0] == msg
            &&& newest_first(m.messages, Thread::Direct(u2, u1)).len() == 0 ==> {
                &&& delete_message_model(m1, msg.id, u1).1 == Ok::<MessageView, CoreError>(msg)
                &&& page(newest_first(delete_message_model(m1, msg.id, u1).0.messages, Thread::Direct(u2, u1)), default_page()).len() == 0
            }
        }),
{
    let m1 = send_direct_model(m, u1, u2, content, media).0;
    let msg = send_direct_model(m, u1, u2, content, media).1->Ok_0;
    let t = Thread::Direct(u2, u1);
    assert(m1.messages == m.messages.push(msg));
    lemma_newest_first_push(m.messages, msg, t);
    assert(in_thread(msg, t));
    let th = newest_first(m1.messages, t);
    assert(th[0] == msg);
    assert(page(th, default_page())[0] == th[0]);
    if newest_first(m.messages, t).len() == 0 {
        let last = m.messages.len() as int;
        assert(m1.messages[last].id == msg.id);
        assert(has_message(m1.messages, msg.id));
        let k = message_index(m1.messages, msg.id);
        if k != last {
            assert(m1.messages[k] == m.messages[k]);
            assert(m.messages[k].id < m.next_id);
        }
        assert(m1.messages.remove(last) =~= m.messages);
    }
}

} // verus!
