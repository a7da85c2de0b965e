//! Cowork, the being's home UI over HTTP: who may use it, which workspace
//! paths it serves, how a directory listing is ordered, and which file
//! events reach the browser.
use vstd::prelude::*;
use crate::numbers::{decimal, u64_to_string};
use crate::paths::{components_of, is_rooted, is_under_root, path_components, under_root};
use crate::platform::TargetOs;
use crate::text::{chars_of, push_char, views, same_text};

verus! {

/// A change in the workspace, as pushed to the browser.
#[derive(Clone, Debug)]
pub struct FileEvent {
    /// `file-created`, `file-changed` or `file-deleted`.
    pub event_type: String,
    /// The path relative to the workspace, with `/` separators.
    pub path: String,
}

/// The `path` query parameter of the file endpoints.
#[derive(Clone, Debug)]
pub struct PathQuery {
    pub path: Option<String>,
}

/// An entry of the file tree.
#[derive(Debug)]
pub struct FileEntry {
    pub path: String,
    pub name: String,
    pub is_dir: bool,
    pub size: u64,
    pub mtime: u64,
    pub children: Option<Vec<FileEntry>>,
}

/// An HTTP refusal of the Cowork API.
#[derive(Clone, Copy, Debug, PartialEq, Eq, Structural)]
pub enum CoworkRefusal {
    BadRequest,
    Unauthorized,
    Forbidden,
    NotFound,
    Conflict,
    PayloadTooLarge,
}

impl CoworkRefusal {
    /// The HTTP status code.
    pub fn status(&self) -> (r: u16)
        ensures
            *self == CoworkRefusal::BadRequest ==> r == 400,
            *self == CoworkRefusal::Unauthorized ==> r == 401,
            *self == CoworkRefusal::Forbidden ==> r == 403,
            *self == CoworkRefusal::NotFound ==> r == 404,
            *self == CoworkRefusal::Conflict ==> r == 409,
            *self == CoworkRefusal::PayloadTooLarge ==> r == 413,
    {
        match self {
            CoworkRefusal::BadRequest => 400,
            CoworkRefusal::Unauthorized => 401,
            CoworkRefusal::Forbidden => 403,
            CoworkRefusal::NotFound => 404,
            CoworkRefusal::Conflict => 409,
            CoworkRefusal::PayloadTooLarge => 413,
        }
    }
}

/// The Cowork bearer token: `PORTAL_TOKEN` when set and non-empty, else
/// `LOOM_TOKEN` likewise, else none.
pub fn cowork_token(portal_token: Option<String>, loom_token: Option<String>) -> (r: Option<String>)
    ensures
        (portal_token matches Some(t) && t@.len() > 0) ==> r == portal_token,
        !(portal_token matches Some(t) && t@.len() > 0) && (loom_token matches Some(t) && t@.len()
            > 0) ==> r == loom_token,
        !(portal_token matches Some(t) && t@.len() > 0) && !(loom_token matches Some(t) && t@.len()
            > 0) ==> r is None,
{
    if let Some(t) = &portal_token {
        if !t.as_str().is_empty() {
            return portal_token;
        }
    }
    if let Some(t) = &loom_token {
        if !t.as_str().is_empty() {
            return loom_token;
        }
    }
    None
}

/// The request is allowed: no token is configured, or its `Authorization`
/// header is exactly `Bearer <token>`.
pub fn check_auth(token: &str, authorization: Option<&str>) -> (r: Result<(), CoworkRefusal>)
    ensures
        r is Ok <==> (token@.len() == 0 || (authorization matches Some(a) && a@ == "Bearer "@
            + token@)),
        r is Err ==> r == Err::<(), CoworkRefusal>(CoworkRefusal::Unauthorized),
{
    if token.is_empty() {
        return Ok(());
    }
    let mut expected = String::from_str("Bearer ");
    expected.append(token);
    let given = match authorization {
        Some(a) => String::from_str(a),
        None => String::new(),
    };
    proof {
        reveal_strlit("Bearer ");
        if authorization is None {
            assert(expected@.len() >= 7);
        }
    }
    if given == expected {
        Ok(())
    } else {
        Err(CoworkRefusal::Unauthorized)
    }
}

/// The WebSocket upgrade is allowed: no token is configured, or the
/// `token` query parameter equals it.
pub fn ws_authorized(token: &str, provided: Option<&str>) -> (r: bool)
    ensures
        r == (token@.len() == 0 || (match provided {
            Some(p) => p@,
            None => Seq::<char>::empty(),
        }) == token@),
{
    if token.is_empty() {
        return true;
    }
    let given = match provided {
        Some(p) => String::from_str(p),
        None => String::new(),
    };
    let t = String::from_str(token);
    given == t
}

/// `p` without a Windows `\\?\` verbatim prefix (on Windows only).
pub open spec fn strip_unc_spec(p: Seq<char>, os: TargetOs) -> Seq<char> {
    if os is Windows && p.len() >= 4 && p.take(4) == seq!['\\', '\\', '?', '\\'] {
        p.skip(4)
    } else {
        p
    }
}

/// Strip Windows `\\?\` UNC prefix for consistent path comparison.
pub fn strip_unc_prefix(p: &str, os: &TargetOs) -> (r: String)
    ensures
        r@ == strip_unc_spec(p@, *os),
{
    let cs = chars_of(p);
    if os.is_windows() && cs.len() >= 4 && cs[0] == '\\' && cs[1] == '\\' && cs[2] == '?' && cs[3]
        == '\\' {
        assert(cs@.take(4) =~= seq!['\\', '\\', '?', '\\']);
        assert(cs@.subrange(4, cs@.len() as int) =~= cs@.skip(4));
        return crate::text::string_of_range(&cs, 4, cs.len());
    }
    proof {
        if os is Windows && cs@.len() >= 4 && cs@.take(4) == seq!['\\', '\\', '?', '\\'] {
            assert(cs@.take(4)[0] == '\\' && cs@.take(4)[1] == '\\' && cs@.take(4)[2] == '?'
                && cs@.take(4)[3] == '\\');
        }
    }
    p.to_owned()
}

/// Whether `path` lies under `root`, component by component (`Path::starts_with`).
pub fn path_starts_with(path: &str, root: &str) -> (r: bool)
    ensures
        r == under_root(is_rooted(path@), path_components(path@), root@),
{
    let names = components_of(path);
    let cs = chars_of(path);
    let rooted = cs.len() > 0 && cs[0] == '/';
    is_under_root(rooted, &names, root)
}

/// How `safe_path` treats a relative path: the workspace itself for `` and
/// `.`; otherwise the path joined to the workspace must be checked.
pub fn is_workspace_itself(rel: &str) -> (r: bool)
    ensures
        r == (rel@.len() == 0 || rel@ == "."@),
{
    let cs = chars_of(rel);
    proof {
        reveal_strlit(".");
        if rel@ == "."@ {
            assert(cs@[0] == '.');
        }
    }
    let r = cs.len() == 0 || (cs.len() == 1 && cs[0] == '.');
    proof {
        if cs@.len() == 1 && cs@[0] == '.' {
            assert(cs@ =~= "."@);
        }
    }
    r
}

/// The verdict on a checked path: served when, with its canonical spelling
/// `check`, it lies under the canonical workspace `ws_canon`; forbidden otherwise.
pub fn safe_path_verdict(check: &str, ws_canon: &str) -> (r: Result<(), CoworkRefusal>)
    ensures
        r is Ok <==> under_root(is_rooted(check@), path_components(check@), ws_canon@),
        r is Err ==> r == Err::<(), CoworkRefusal>(CoworkRefusal::Forbidden),
{
    if path_starts_with(check, ws_canon) {
        Ok(())
    } else {
        Err(CoworkRefusal::Forbidden)
    }
}

/// A directory entry is listed unless its name starts with `.`.
pub fn is_listed(name: &str) -> (r: bool)
    ensures
        r == !(name@.len() > 0 && name@[0] == '.'),
{
    let cs = chars_of(name);
    !(cs.len() > 0 && cs[0] == '.')
}

/// `s` with `\` replaced by `/`.
pub open spec fn forward_slashes(s: Seq<char>) -> Seq<char> {
    s.map_values(|c: char| if c == '\\' {
        '/'
    } else {
        c
    })
}

/// A path as the browser sees it: `\` separators become `/`.
pub fn to_forward_slashes(s: &str) -> (r: String)
    ensures
        r@ == forward_slashes(s@),
{
    let cs = chars_of(s);
    let mut out = String::new();
    let mut i: usize = 0;
    while i < cs.len()
        invariant
            i <= cs.len(),
            cs@ == s@,
            out@ == forward_slashes(cs@.take(i as int)),
        decreases cs.len() - i,
    {
        let c = if cs[i] == '\\' {
            '/'
        } else {
            cs[i]
        };
        push_char(&mut out, c);
        assert(forward_slashes(cs@.take(i + 1)) =~= forward_slashes(cs@.take(i as int)).push(c));
        i += 1;
    }
    assert(cs@.take(cs@.len() as int) =~= cs@);
    out
}

/// The text `str::to_lowercase` makes of `s`.
pub uninterp spec fn unicode_lowercase(s: Seq<char>) -> Seq<char>;

/// `str::to_lowercase`: `s` in Unicode lowercase; named by [`unicode_lowercase`].
#[verifier::external_body]
fn lowercase(s: &str) -> (r: String)
    ensures
        r@ == unicode_lowercase(s@),
{
    s.to_lowercase()
}

/// `a` sorts strictly before `b` by code point, lexicographically (the
/// order of `str`).
pub open spec fn text_less(a: Seq<char>, b: Seq<char>) -> bool
    decreases a.len(),
{
    if a.len() == 0 {
        b.len() > 0
    } else if b.len() == 0 {
        false
    } else if a[0] != b[0] {
        (a[0] as u32) < (b[0] as u32)
    } else {
        text_less(a.drop_first(), b.drop_first())
    }
}

/// The sort key of a listing entry: directories first, then the name in lowercase.
pub struct EntryKey {
    pub is_dir: bool,
    pub lower_name: String,
}

/// Entry key `a` sorts strictly before `b`.
pub open spec fn key_less(a: EntryKey, b: EntryKey) -> bool {
    (a.is_dir && !b.is_dir) || (a.is_dir == b.is_dir && text_less(a.lower_name@, b.lower_name@))
}

/// Entries `i` and `j` of `keys` are in listing order: by key, ties kept in
/// their original order.
pub open spec fn listed_before(keys: Seq<EntryKey>, i: int, j: int) -> bool {
    key_less(keys[i], keys[j]) || (!key_less(keys[j], keys[i]) && i < j)
}

/// `order` lists every index of `keys` once, in listing order.
pub open spec fn is_listing_order(keys: Seq<EntryKey>, order: Seq<usize>) -> bool {
    &&& order.len() == keys.len()
    &&& forall|i: int| 0 <= i < order.len() ==> order[i] < keys.len()
    &&& forall|i: int, j: int|
        0 <= i < j < order.len() ==> listed_before(keys, order[i] as int, order[j] as int)
}

/// Whether `a` sorts strictly before `b` (see [`text_less`]).
pub(crate) fn less_text(a: &Vec<char>, b: &Vec<char>) -> (r: bool)
    ensures
        r == text_less(a@, b@),
{
    let mut i: usize = 0;
    assert(a@.skip(0) =~= a@);
    assert(b@.skip(0) =~= b@);
    while i < a.len() && i < b.len() && a[i] == b[i]
        invariant
            i <= a.len(),
            i <= b.len(),
            text_less(a@, b@) == text_less(a@.skip(i as int), b@.skip(i as int)),
        decreases a.len() - i,
    {
        proof {
            crate::text::lemma_skip_drop_first(a@, i as int);
            crate::text::lemma_skip_drop_first(b@, i as int);
        }
        i += 1;
    }
    proof {
        if i < a.len() {
            crate::text::lemma_skip_drop_first(a@, i as int);
        }
        if i < b.len() {
            crate::text::lemma_skip_drop_first(b@, i as int);
        }
    }
    if i == a.len() {
        i < b.len()
    } else if i == b.len() {
        false
    } else {
        (a[i] as u32) < (b[i] as u32)
    }
}

/// Whether key `a` sorts strictly before key `b`.
fn less_key(a: &EntryKey, b: &EntryKey) -> (r: bool)
    ensures
        r == key_less(*a, *b),
{
    if a.is_dir != b.is_dir {
        return a.is_dir;
    }
    let ac = chars_of(a.lower_name.as_str());
    let bc = chars_of(b.lower_name.as_str());
    less_text(&ac, &bc)
}

pub(crate) proof fn lemma_text_less_irreflexive(a: Seq<char>)
    ensures
        !text_less(a, a),
    decreases a.len(),
{
    if a.len() > 0 {
        lemma_text_less_irreflexive(a.drop_first());
    }
}

pub(crate) proof fn lemma_text_less_asymmetric(a: Seq<char>, b: Seq<char>)
    ensures
        text_less(a, b) ==> !text_less(b, a),
    decreases a.len(),
{
    if a.len() > 0 && b.len() > 0 && a[0] == b[0] {
        lemma_text_less_asymmetric(a.drop_first(), b.drop_first());
    }
}

pub(crate) proof fn lemma_text_less_transitive(a: Seq<char>, b: Seq<char>, c: Seq<char>)
    ensures
        text_less(a, b) && text_less(b, c) ==> text_less(a, c),
    decreases a.len(),
{
    if a.len() > 0 && b.len() > 0 && c.len() > 0 && a[0] == b[0] && b[0] == c[0] {
        lemma_text_less_transitive(a.drop_first(), b.drop_first(), c.drop_first());
    }
}

pub(crate) proof fn lemma_text_less_total(a: Seq<char>, b: Seq<char>)
    ensures
        a != b ==> text_less(a, b) || text_less(b, a),
    decreases a.len(),
{
    if a.len() > 0 && b.len() > 0 && a[0] == b[0] {
        lemma_text_less_total(a.drop_first(), b.drop_first());
        if a.drop_first() == b.drop_first() {
            assert(a =~= seq![a[0]] + a.drop_first());
            assert(b =~= seq![b[0]] + b.drop_first());
        }
    } else if a.len() > 0 && b.len() > 0 {
        vstd::utf8::char_u32_cast(a[0], a[0] as u32);
        vstd::utf8::char_u32_cast(b[0], b[0] as u32);
    } else if a.len() == 0 && b.len() == 0 {
        assert(a =~= b);
    }
}

proof fn lemma_listed_before_order(keys: Seq<EntryKey>, i: int, j: int, k: int)
    requires
        0 <= i < keys.len(),
        0 <= j < keys.len(),
        0 <= k < keys.len(),
    ensures
        i != j ==> listed_before(keys, i, j) || listed_before(keys, j, i),
        listed_before(keys, i, j) ==> !listed_before(keys, j, i),
        listed_before(keys, i, j) && listed_before(keys, j, k) ==> listed_before(keys, i, k),
{
    lemma_text_less_asymmetric(keys[i].lower_name@, keys[j].lower_name@);
    lemma_text_less_asymmetric(keys[j].lower_name@, keys[i].lower_name@);
    lemma_text_less_asymmetric(keys[i].lower_name@, keys[k].lower_name@);
    lemma_text_less_asymmetric(keys[k].lower_name@, keys[i].lower_name@);
    lemma_text_less_asymmetric(keys[j].lower_name@, keys[k].lower_name@);
    lemma_text_less_asymmetric(keys[k].lower_name@, keys[j].lower_name@);
    lemma_text_less_transitive(keys[i].lower_name@, keys[j].lower_name@, keys[k].lower_name@);
    lemma_text_less_transitive(keys[k].lower_name@, keys[j].lower_name@, keys[i].lower_name@);
    lemma_text_less_transitive(keys[j].lower_name@, keys[i].lower_name@, keys[k].lower_name@);
    lemma_text_less_transitive(keys[j].lower_name@, keys[k].lower_name@, keys[i].lower_name@);
    lemma_text_less_transitive(keys[i].lower_name@, keys[k].lower_name@, keys[j].lower_name@);
    lemma_text_less_transitive(keys[k].lower_name@, keys[i].lower_name@, keys[j].lower_name@);
    lemma_text_less_irreflexive(keys[i].lower_name@);
    lemma_text_less_irreflexive(keys[j].lower_name@);
    lemma_text_less_total(keys[i].lower_name@, keys[j].lower_name@);
    lemma_text_less_total(keys[j].lower_name@, keys[k].lower_name@);
    lemma_text_less_total(keys[i].lower_name@, keys[k].lower_name@);
}

/// The order in which a directory listing shows its entries: directories
/// first, then by lowercase name; entries that compare equal keep their
/// order (a stable sort).
pub fn listing_order(keys: &Vec<EntryKey>) -> (r: Vec<usize>)
    ensures
        is_listing_order(keys@, r@),
{
    let mut order: Vec<usize> = Vec::new();
    let mut n: usize = 0;
    while n < keys.len()
        invariant
            n <= keys@.len(),
            order@.len() == n,
            forall|i: int| 0 <= i < order@.len() ==> order@[i] < n,
            forall|i: int, j: int|
                0 <= i < j < order@.len() ==> order@[i] != order@[j],
            forall|i: int, j: int|
                0 <= i < j < order@.len() ==> listed_before(keys@, order@[i] as int, order@[j] as int),
        decreases keys.len() - n,
    {
        // Insert `n` after every entry that is listed before it.
        let mut pos: usize = order.len();
        while pos > 0 && less_key(&keys[n], &keys[order[pos - 1]])
            invariant
                pos <= order@.len(),
                n < keys@.len(),
                forall|i: int| 0 <= i < order@.len() ==> order@[i] < n,
                forall|i: int| pos <= i < order@.len() ==> key_less(keys@[n as int], keys@[order@[i] as int]),
            decreases pos,
        {
            pos -= 1;
        }
        let ghost before = order@;
        proof {
            assert forall|i: int| 0 <= i < pos implies listed_before(keys@, before[i] as int, n as int) by {
                lemma_listed_before_order(keys@, before[i] as int, n as int, before[pos - 1] as int);
                lemma_listed_before_order(keys@, before[pos - 1] as int, n as int, before[i] as int);
                lemma_listed_before_order(keys@, before[i] as int, before[pos - 1] as int, n as int);
                if i < pos - 1 {
                    assert(listed_before(keys@, before[i] as int, before[pos - 1] as int));
                }
            }
        }
        order.insert(pos, n);
        proof {
            assert forall|i: int, j: int|
                0 <= i < j < order@.len() implies listed_before(keys@, order@[i] as int, order@[j] as int) by {
                if j == pos {
                    assert(order@[i] == before[i]);
                } else if i == pos {
                    assert(order@[j] == before[j - 1]);
                    assert(key_less(keys@[n as int], keys@[before[j - 1] as int]));
                } else if i < pos && j > pos {
                    assert(order@[i] == before[i] && order@[j] == before[j - 1]);
                } else if j < pos {
                    assert(order@[i] == before[i] && order@[j] == before[j]);
                } else {
                    assert(order@[i] == before[i - 1] && order@[j] == before[j - 1]);
                }
            }
            assert forall|i: int, j: int| 0 <= i < j < order@.len() implies order@[i] != order@[j] by {
                if i != pos && j != pos {
                    let bi = if i < pos { i } else { i - 1 };
                    let bj = if j < pos { j } else { j - 1 };
                    assert(order@[i] == before[bi] && order@[j] == before[bj]);
                }
            }
        }
        n += 1;
    }
    order
}

/// The sort key of an entry named `name`.
pub fn entry_key(is_dir: bool, name: &str) -> (r: EntryKey)
    ensures
        r.is_dir == is_dir,
        r.lower_name@ == unicode_lowercase(name@),
{
    EntryKey { is_dir, lower_name: lowercase(name) }
}

/// The `Content-Type` the file endpoint serves a binary file with, by its
/// (case-sensitive) extension; `None` serves the file as UTF-8 text.
pub open spec fn media_type_spec(ext: Seq<char>) -> Option<Seq<char>> {
    if ext == "png"@ {
        Some("image/png"@)
    } else if ext == "jpg"@ || ext == "jpeg"@ {
        Some("image/jpeg"@)
    } else if ext == "gif"@ {
        Some("image/gif"@)
    } else if ext == "svg"@ {
        Some("image/svg+xml"@)
    } else if ext == "webp"@ {
        Some("image/webp"@)
    } else if ext == "pdf"@ {
        Some("application/pdf"@)
    } else if ext == "mp3"@ {
        Some("audio/mpeg"@)
    } else if ext == "wav"@ {
        Some("audio/wav"@)
    } else if ext == "ogg"@ {
        Some("audio/ogg"@)
    } else if ext == "m4a"@ {
        Some("audio/mp4"@)
    } else if ext == "mp4"@ {
        Some("video/mp4"@)
    } else if ext == "webm"@ {
        Some("video/webm"@)
    } else {
        None
    }
}


/// The media type of a served file (see [`media_type_spec`]).
pub fn media_type(ext: &str) -> (r: Option<&'static str>)
    ensures
        match media_type_spec(ext@) {
            Some(m) => r matches Some(s) && s@ == m,
            None => r is None,
        },
{
    if same_text(ext, "png") {
        Some("image/png")
    } else if same_text(ext, "jpg") || same_text(ext, "jpeg") {
        Some("image/jpeg")
    } else if same_text(ext, "gif") {
        Some("image/gif")
    } else if same_text(ext, "svg") {
        Some("image/svg+xml")
    } else if same_text(ext, "webp") {
        Some("image/webp")
    } else if same_text(ext, "pdf") {
        Some("application/pdf")
    } else if same_text(ext, "mp3") {
        Some("audio/mpeg")
    } else if same_text(ext, "wav") {
        Some("audio/wav")
    } else if same_text(ext, "ogg") {
        Some("audio/ogg")
    } else if same_text(ext, "m4a") {
        Some("audio/mp4")
    } else if same_text(ext, "mp4") {
        Some("video/mp4")
    } else if same_text(ext, "webm") {
        Some("video/webm")
    } else {
        None
    }
}

/// Where a deleted file goes inside `.trash`: its name, a dot, the Unix time.
pub fn trash_name(file_name: &str, unix_secs: u64) -> (r: String)
    ensures
        r@ == file_name@ + "."@ + decimal(unix_secs as nat),
{
    let mut s = file_name.to_owned();
    s.append(".");
    s.append(u64_to_string(unix_secs).as_str());
    s
}

/// The relative path of an uploaded file: its name under `base` (or at the top).
pub fn upload_path(base: &str, file_name: &str) -> (r: String)
    ensures
        base@.len() == 0 ==> r@ == file_name@,
        base@.len() > 0 ==> r@ == base@ + "/"@ + file_name@,
{
    if base.is_empty() {
        file_name.to_owned()
    } else {
        let mut s = base.to_owned();
        s.append("/");
        s.append(file_name);
        s
    }
}

/// A body of `len` bytes may be stored when it is at most `max_file_size`.
pub fn check_size(len: usize, max_file_size: usize) -> (r: Result<(), CoworkRefusal>)
    ensures
        len <= max_file_size ==> r is Ok,
        len > max_file_size ==> r == Err::<(), CoworkRefusal>(CoworkRefusal::PayloadTooLarge),
{
    if len > max_file_size {
        Err(CoworkRefusal::PayloadTooLarge)
    } else {
        Ok(())
    }
}

/// A rename goes ahead when the source exists and the target does not.
pub fn rename_check(source_exists: bool, target_exists: bool) -> (r: Result<(), CoworkRefusal>)
    ensures
        !source_exists ==> r == Err::<(), CoworkRefusal>(CoworkRefusal::NotFound),
        source_exists && target_exists ==> r == Err::<(), CoworkRefusal>(CoworkRefusal::Conflict),
        source_exists && !target_exists ==> r is Ok,
{
    if !source_exists {
        Err(CoworkRefusal::NotFound)
    } else if target_exists {
        Err(CoworkRefusal::Conflict)
    } else {
        Ok(())
    }
}

/// What happened to a watched path.
#[derive(Clone, Copy, Debug, PartialEq, Eq, Structural)]
pub enum WatchKind {
    Create,
    Modify,
    Remove,
    Other,
}

/// The event type pushed for a change, if any.
pub fn event_type(kind: WatchKind) -> (r: Option<&'static str>)
    ensures
        kind == WatchKind::Create ==> (r matches Some(s) && s@ == "file-created"@),
        kind == WatchKind::Modify ==> (r matches Some(s) && s@ == "file-changed"@),
        kind == WatchKind::Remove ==> (r matches Some(s) && s@ == "file-deleted"@),
        kind == WatchKind::Other ==> r is None,
{
    match kind {
        WatchKind::Create => Some("file-created"),
        WatchKind::Modify => Some("file-changed"),
        WatchKind::Remove => Some("file-deleted"),
        WatchKind::Other => None,
    }
}

/// `s` starts with `p`.
pub open spec fn starts_with(s: Seq<char>, p: Seq<char>) -> bool {
    s.len() >= p.len() && s.take(p.len() as int) == p
}

/// Whether `s` starts with the text `p`.
fn has_prefix(s: &Vec<char>, p: &str) -> (r: bool)
    ensures
        r == starts_with(s@, p@),
{
    let pc = chars_of(p);
    if s.len() < pc.len() {
        return false;
    }
    let mut i: usize = 0;
    while i < pc.len()
        invariant
            i <= pc.len() <= s.len(),
            pc@ == p@,
            forall|k: int| 0 <= k < i ==> s@[k] == pc@[k],
        decreases pc.len() - i,
    {
        if s[i] != pc[i] {
            assert(s@.take(pc@.len() as int)[i as int] != pc@[i as int]);
            return false;
        }
        i += 1;
    }
    assert(s@.take(pc@.len() as int) =~= pc@);
    true
}

/// Changes under `.trash` and `.being` are not pushed.
pub fn is_watched(rel: &str) -> (r: bool)
    ensures
        r == !(starts_with(rel@, ".trash"@) || starts_with(rel@, ".being"@)),
{
    let cs = chars_of(rel);
    !(has_prefix(&cs, ".trash") || has_prefix(&cs, ".being"))
}

/// Milliseconds within which a second change of the same path is dropped.
pub const DEBOUNCE_MS: u64 = 300;

/// Whether a change of a path at `now_ms` is pushed, given when the path
/// last changed (`last_ms`): not within `DEBOUNCE_MS` of it.
pub fn passes_debounce(last_ms: Option<u64>, now_ms: u64) -> (r: bool)
    ensures
        r == match last_ms {
            Some(l) => !(now_ms >= l && now_ms - l < DEBOUNCE_MS),
            None => true,
        },
{
    match last_ms {
        Some(l) => !(now_ms >= l && now_ms - l < DEBOUNCE_MS),
        None => true,
    }
}

} // verus!
