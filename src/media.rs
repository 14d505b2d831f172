//! Media kinds, the allow-list of content types and the size limits of uploads.

use vstd::prelude::*;
use vstd::string::*;

verus! {

broadcast use vstd::string::group_string_axioms;

/// Largest accepted video, in bytes.
pub const MAX_VIDEO_SIZE: usize = 10485760;

/// Largest accepted image, in bytes.
pub const MAX_IMAGE_SIZE: usize = 5242880;

/// Length in seconds recorded for every uploaded video.
pub const VIDEO_DURATION_SECS: u32 = 10;

#[derive(Clone, Copy, Debug, PartialEq, Eq, Structural)]
pub enum MediaType {
    Image,
    Video,
}

/// A stored media object: its kind, where it lives, and for a video its length.
#[derive(Debug)]
pub struct Media {
    pub media_type: MediaType,
    pub url: String,
    pub duration: Option<u32>,
}

pub open spec fn starts_with_spec(s: Seq<char>, p: Seq<char>) -> bool {
    p.len() <= s.len() && s.subrange(0, p.len() as int) == p
}

pub open spec fn is_image_type(ct: Seq<char>) -> bool {
    starts_with_spec(ct, "image/"@)
}

pub open spec fn is_video_type(ct: Seq<char>) -> bool {
    starts_with_spec(ct, "video/"@)
}

/// The content types that may be uploaded, with the file extension of each.
pub open spec fn extension_of(ct: Seq<char>) -> Seq<char> {
    if ct == "image/jpeg"@ {
        "jpg"@
    } else if ct == "image/png"@ {
        "png"@
    } else if ct == "image/gif"@ {
        "gif"@
    } else if ct == "image/webp"@ {
        "webp"@
    } else if ct == "video/mp4"@ {
        "mp4"@
    } else if ct == "video/webm"@ {
        "webm"@
    } else if ct == "video/ogg"@ {
        "ogv"@
    } else if ct == "video/avi"@ {
        "avi"@
    } else if ct == "video/mov"@ {
        "mov"@
    } else {
        "bin"@
    }
}

pub open spec fn is_allowed_type(ct: Seq<char>) -> bool {
    extension_of(ct) != "bin"@
}

pub open spec fn size_error_of(ct: Seq<char>, size: nat) -> Option<Seq<char>> {
    if is_video_type(ct) && size > MAX_VIDEO_SIZE {
        Some("Videos must be under 10MB (approximately 10 seconds)"@)
    } else if is_image_type(ct) && size > MAX_IMAGE_SIZE {
        Some("Images must be under 5MB"@)
    } else {
        None
    }
}

pub open spec fn media_type_of(ct: Seq<char>) -> MediaType {
    if is_image_type(ct) {
        MediaType::Image
    } else {
        MediaType::Video
    }
}

pub open spec fn duration_of(ct: Seq<char>) -> Option<u32> {
    if is_video_type(ct) {
        Some(VIDEO_DURATION_SECS)
    } else {
        None
    }
}

/// Whether `a` and `b` hold the same characters.
pub fn same_text(a: &str, b: &str) -> (r: bool)
    ensures
        r == (a@ == b@),
{
    let n = a.unicode_len();
    if n != b.unicode_len() {
        return false;
    }
    let mut i: usize = 0;
    while i < n
        invariant
            n == a@.len(),
            n == b@.len(),
            i <= n,
            a@.subrange(0, i as int) == b@.subrange(0, i as int),
        decreases n - i,
    {
        if a.get_char(i) != b.get_char(i) {
            return false;
        }
        assert(a@.subrange(0, i + 1) == a@.subrange(0, i as int).push(a@[i as int]));
        assert(b@.subrange(0, i + 1) == b@.subrange(0, i as int).push(b@[i as int]));
        i = i + 1;
    }
    assert(a@ == a@.subrange(0, n as int));
    assert(b@ == b@.subrange(0, n as int));
    true
}

/// Whether `s` begins with `p`.
pub fn starts_with(s: &str, p: &str) -> (r: bool)
    ensures
        r == starts_with_spec(s@, p@),
{
    let n = p.unicode_len();
    if n > s.unicode_len() {
        return false;
    }
    let head = s.substring_char(0, n);
    same_text(head, p)
}

/// The file extension used to store an object of the given content type.
pub fn file_extension_from_type(content_type: &str) -> (r: &'static str)
    ensures
        r@ == extension_of(content_type@),
{
    if same_text(content_type, "image/jpeg") {
        "jpg"
    } else if same_text(content_type, "image/png") {
        "png"
    } else if same_text(content_type, "image/gif") {
        "gif"
    } else if same_text(content_type, "image/webp") {
        "webp"
    } else if same_text(content_type, "video/mp4") {
        "mp4"
    } else if same_text(content_type, "video/webm") {
        "webm"
    } else if same_text(content_type, "video/ogg") {
        "ogv"
    } else if same_text(content_type, "video/avi") {
        "avi"
    } else if same_text(content_type, "video/mov") {
        "mov"
    } else {
        "bin"
    }
}

/// Rejects a video over 10 MB and an image over 5 MB; other sizes and types pass.
pub fn validate_file_size(content_type: &str, size: usize) -> (r: Result<(), String>)
    ensures
        match size_error_of(content_type@, size as nat) {
            None => r is Ok,
            Some(msg) => r is Err && r->Err_0@ == msg,
        },
{
    if starts_with(content_type, "video/") && size > MAX_VIDEO_SIZE {
        return Err("Videos must be under 10MB (approximately 10 seconds)".to_string());
    }
    if starts_with(content_type, "image/") && size > MAX_IMAGE_SIZE {
        return Err("Images must be under 5MB".to_string());
    }
    Ok(())
}

/// Accepts exactly the content types of the allow-list.
pub fn validate_content_type(content_type: &str) -> (r: Result<(), String>)
    ensures
        r is Ok <==> is_allowed_type(content_type@),
        r is Err ==> r->Err_0@ == "Unsupported content type: "@ + content_type@,
{
    let ext = file_extension_from_type(content_type);
    if same_text(ext, "bin") {
        let mut msg = "Unsupported content type: ".to_string();
        msg.append(content_type);
        Err(msg)
    } else {
        Ok(())
    }
}

/// `key` is the part of `url` after its last `/`, or all of it when there is none.
pub open spec fn is_last_segment(url: Seq<char>, key: Seq<char>) -> bool {
    &&& key.len() <= url.len()
    &&& key == url.subrange(url.len() - key.len(), url.len() as int)
    &&& !key.contains('/')
    &&& key.len() < url.len() ==> url[url.len() - key.len() - 1] == '/'
}

/// The name under which the object that `url` points to is stored.
pub fn object_key_from_url(url: &str) -> (r: &str)
    ensures
        is_last_segment(url@, r@),
{
    let n = url.unicode_len();
    let mut k: usize = n;
    while k > 0
        invariant
            n == url@.len(),
            k <= n,
            forall|j: int| k <= j < n ==> url@[j] != '/',
        ensures
            k <= n,
            forall|j: int| k <= j < n ==> url@[j] != '/',
            k == 0 || url@[k - 1] == '/',
        decreases k,
    {
        if url.get_char(k - 1) == '/' {
            break;
        }
        k = k - 1;
    }
    let r = url.substring_char(k, n);
    proof {
        if r@.contains('/') {
            let j = choose|j: int| 0 <= j < r@.len() && r@[j] == '/';
            assert(url@[k + j] == '/');
        }
    }
    r
}

/// The kind and length of the media built from an upload of the given content type.
pub fn media_for_upload(content_type: &str, url: String) -> (r: Media)
    ensures
        r.media_type == media_type_of(content_type@),
        r.url@ == url@,
        r.duration == duration_of(content_type@),
{
    let media_type = if starts_with(content_type, "image/") {
        MediaType::Image
    } else {
        MediaType::Video
    };
    let duration = if starts_with(content_type, "video/") {
        Some(VIDEO_DURATION_SECS)
    } else {
        None
    };
    Media { media_type, url, duration }
}

/// Checks an upload before it is stored: first its content type, then its size.
pub fn check_upload(content_type: &str, size: usize) -> (r: Result<(), String>)
    ensures
        !is_allowed_type(content_type@) ==> r is Err && r->Err_0@ == "Unsupported content type: "@
            + content_type@,
        is_allowed_type(content_type@) ==> match size_error_of(content_type@, size as nat) {
            None => r is Ok,
            Some(msg) => r is Err && r->Err_0@ == msg,
        },
{
    match validate_content_type(content_type) {
        Err(e) => Err(e),
        Ok(()) => validate_file_size(content_type, size),
    }
}

/// A UUID in hyphenated form: 36 characters, each a lowercase hex digit or `-`.
pub open spec fn is_hyphenated_uuid(s: Seq<char>) -> bool {
    &&& s.len() == 36
    &&& forall|i: int|
        0 <= i < s.len() ==> ('0' <= #[trigger] s[i] <= '9' || 'a' <= s[i] <= 'f' || s[i] == '-')
}

/// Relies on uuid's `Uuid::new_v4` and its `Display` form (lowercase hyphenated
/// hex): a random identifier written as 36 characters, each a lowercase hex digit
/// or `-`.
#[verifier::external_body]
fn random_uuid_text() -> (r: String)
    ensures
        is_hyphenated_uuid(r@),
{
    uuid::Uuid::new_v4().to_string()
}

/// The name of an object stored under identifier `id_text` with the given content type.
pub fn object_key_for(id_text: &str, content_type: &str) -> (r: String)
    ensures
        r@ == id_text@ + "."@ + extension_of(content_type@),
{
    let mut r = id_text.to_string();
    r.append(".");
    r.append(file_extension_from_type(content_type));
    r
}

/// A fresh object name for an upload of the given content type: a random
/// identifier, a dot, and the extension of the type.
pub fn new_object_key(content_type: &str) -> (r: String)
    ensures
        exists|id: Seq<char>| is_hyphenated_uuid(id) && r@ == id + "."@ + extension_of(content_type@),
        !r@.contains('/'),
{
    let id = random_uuid_text();
    let r = object_key_for(id.as_str(), content_type);
    proof {
        lemma_extension_has_no_slash(content_type@);
        reveal_strlit(".");
        if r@.contains('/') {
            let k = choose|k: int| 0 <= k < r@.len() && r@[k] == '/';
            let n = id@.len() as int;
            if k < n {
                assert(r@[k] == id@[k]);
            } else if k == n {
                assert(r@[k] == '.');
            } else {
                assert(r@[k] == extension_of(content_type@)[k - n - 1]);
            }
        }
    }
    r
}

/// No file extension holds a `/`.
pub proof fn lemma_extension_has_no_slash(ct: Seq<char>)
    ensures
        !extension_of(ct).contains('/'),
{
    reveal_strlit("jpg");
    reveal_strlit("png");
    reveal_strlit("gif");
    reveal_strlit("webp");
    reveal_strlit("mp4");
    reveal_strlit("webm");
    reveal_strlit("ogv");
    reveal_strlit("avi");
    reveal_strlit("mov");
    reveal_strlit("bin");
    let e = extension_of(ct);
    if e.contains('/') {
        let k = choose|k: int| 0 <= k < e.len() && e[k] == '/';
        assert(e[k] != '/');
    }
}

/// Where an object is reached: the endpoint, the bucket and the object name,
/// joined by `/`.
pub fn object_url(endpoint: &str, bucket: &str, key: &str) -> (r: String)
    ensures
        r@ == endpoint@ + "/"@ + bucket@ + "/"@ + key@,
{
    let mut r = endpoint.to_string();
    r.append("/");
    r.append(bucket);
    r.append("/");
    r.append(key);
    r
}

/// The object name that a stored URL ends with is the one it was built from.
pub proof fn lemma_key_of_url(endpoint: Seq<char>, bucket: Seq<char>, key: Seq<char>)
    requires
        !key.contains('/'),
    ensures
        ({
            let url = endpoint + "/"@ + bucket + "/"@ + key;
            forall|k: Seq<char>| is_last_segment(url, k) ==> k == key
        }),
{
    let url = endpoint + "/"@ + bucket + "/"@ + key;
    reveal_strlit("/");
    assert(url[url.len() - key.len() - 1] == '/');
    assert(url.subrange(url.len() - key.len(), url.len() as int) =~= key);
    assert forall|k: Seq<char>| is_last_segment(url, k) implies k == key by {
        if k.len() < key.len() {
            let p = url.len() - k.len() - 1;
            assert(url[p] == '/');
            let q = p - (url.len() - key.len());
            assert(key[q] == url[p]);
            assert(key.contains('/'));
        } else if k.len() > key.len() {
            let p = url.len() - key.len() - 1;
            let q = p - (url.len() - k.len());
            assert(k[q] == url[p]);
            assert(k.contains('/'));
        } else {
            assert(k =~= key);
        }
    }
}

} // verus!
