//! Workspace search (`portal_search`): which lines of a file match a
//! regular expression, which files are searched at all, and the JSON text
//! of the matches. Walking the directory tree and reading files is the
//! caller's.
use vstd::prelude::*;
use crate::callback::{lossy_string, utf8_lossy};
use crate::file_tools::{lines_of, lines_vec};
use crate::json_text::{json_quoted, json_string};
use crate::numbers::{decimal, u64_to_string};
use crate::paths::{logical_resolution, resolve_path_logical, PathError};
use crate::text::views;

verus! {

/// Matches reported when the call names no limit.
pub const DEFAULT_MAX_MATCHES: u64 = 200;

/// The most matches a call may ask for.
pub const MAX_MATCHES_CAP: u64 = 2000;

/// The most characters of a matching line reported.
pub const MAX_LINE_CHARS: usize = 2000;

#[verifier::external_type_specification]
#[verifier::external_body]
pub struct ExRegex(regex::Regex);

#[verifier::external_type_specification]
#[verifier::external_body]
pub struct ExRegexError(regex::Error);

/// Whether `pattern` is a regular expression the `regex` crate accepts.
pub uninterp spec fn regex_compiles(pattern: Seq<char>) -> bool;

/// Whether the regular expression `pattern` matches somewhere in `text`,
/// as the `regex` crate decides it.
pub uninterp spec fn regex_finds(pattern: Seq<char>, text: Seq<char>) -> bool;

/// A compiled search pattern, with the text it was compiled from.
pub struct LinePattern {
    source: String,
    re: regex::Regex,
}

impl LinePattern {
    /// The text the pattern was compiled from.
    pub closed spec fn source(&self) -> Seq<char> {
        self.source@
    }
}

/// `regex::Regex::new`: compiles `pattern` (whether it compiles is named
/// by [`regex_compiles`]); the error when it does not.
#[verifier::external_body]
fn compile_regex(pattern: &str) -> (r: Result<LinePattern, regex::Error>)
    ensures
        match r {
            Ok(p) => regex_compiles(pattern@) && p.source() == pattern@,
            Err(_) => !regex_compiles(pattern@),
        },
{
    match regex::Regex::new(pattern) {
        Ok(re) => Ok(LinePattern { source: pattern.to_string(), re }),
        Err(e) => Err(e),
    }
}

/// `regex::Regex::is_match`: whether the compiled pattern matches somewhere
/// in `text` (named by [`regex_finds`] over the pattern's text).
#[verifier::external_body]
fn pattern_matches(p: &LinePattern, text: &str) -> (r: bool)
    ensures
        r == regex_finds(p.source(), text@),
{
    p.re.is_match(text)
}

/// The `Display` text of a `regex::Error`. Nothing is stated of it: it is
/// a message for people.
#[verifier::external_body]
fn regex_error_text(e: &regex::Error) -> (r: String) {
    format!("{}", e)
}

/// Why a search is refused.
#[derive(Debug)]
pub enum SearchError {
    MissingPattern,
    InvalidRegex(String),
}

impl SearchError {
    /// The error's message.
    pub fn message(&self) -> (r: String)
        ensures
            match self {
                SearchError::MissingPattern => r@ == "Missing 'pattern' argument"@,
                SearchError::InvalidRegex(e) => r@ == "Invalid regex: "@ + e@,
            },
    {
        match self {
            SearchError::MissingPattern => String::from_str("Missing 'pattern' argument"),
            SearchError::InvalidRegex(e) => {
                let mut m = String::from_str("Invalid regex: ");
                m.append(e.as_str());
                m
            },
        }
    }
}

/// The pattern of a search: required, and it must compile.
pub fn search_pattern(pattern: Option<&str>) -> (r: Result<LinePattern, SearchError>)
    ensures
        match pattern {
            None => r matches Err(SearchError::MissingPattern),
            Some(p) => if regex_compiles(p@) {
                r matches Ok(lp) && lp.source() == p@
            } else {
                r matches Err(SearchError::InvalidRegex(_))
            },
        },
{
    let p = match pattern {
        Some(p) => p,
        None => {
            return Err(SearchError::MissingPattern);
        },
    };
    match compile_regex(p) {
        Ok(lp) => Ok(lp),
        Err(e) => Err(SearchError::InvalidRegex(regex_error_text(&e))),
    }
}

/// How many matches a search reports: the request's count (200 when it
/// names none), at most 2000.
pub fn max_matches(requested: Option<u64>) -> (r: usize)
    ensures
        r == (match requested {
            Some(n) => if n < MAX_MATCHES_CAP {
                n
            } else {
                MAX_MATCHES_CAP
            },
            None => DEFAULT_MAX_MATCHES,
        }),
{
    let n = match requested {
        Some(n) => n,
        None => DEFAULT_MAX_MATCHES,
    };
    if n < MAX_MATCHES_CAP {
        n as usize
    } else {
        MAX_MATCHES_CAP as usize
    }
}

/// A file is searched unless it is a directory, larger than
/// `max_file_bytes`, or holds a NUL byte (binary).
pub fn should_search(is_dir: bool, len: u64, max_file_bytes: usize, bytes: &[u8]) -> (r: bool)
    ensures
        r == (!is_dir && len <= max_file_bytes && !bytes@.contains(0u8)),
{
    if is_dir || len > max_file_bytes as u64 {
        return false;
    }
    let mut i: usize = 0;
    while i < bytes.len()
        invariant
            i <= bytes@.len(),
            forall|k: int| 0 <= k < i ==> bytes@[k] != 0u8,
        decreases bytes.len() - i,
    {
        if bytes[i] == 0 {
            assert(bytes@[i as int] == 0u8);
            return false;
        }
        i = i + 1;
    }
    true
}

/// The directory a search walks: the request's `path` (the workspace root
/// itself when it names none), resolved against the workspace root.
pub fn search_root(workspace_root: &str, path: Option<&str>) -> (r: Result<String, PathError>)
    ensures
        ({
            let p = match path {
                Some(p) => p@,
                None => "."@,
            };
            match logical_resolution(workspace_root@, p) {
                Ok(t) => r matches Ok(s) && s@ == t,
                Err(None) => r matches Err(PathError::Traversal { path }) && path@ == p,
                Err(Some(resolved)) => r matches Err(PathError::OutsideWorkspace { path, resolved: res })
                    && path@ == p && res@ == resolved,
            }
        }),
{
    let p = match path {
        Some(p) => p,
        None => ".",
    };
    resolve_path_logical(workspace_root, p)
}

/// One match: the file (relative to the workspace), the 1-based line number
/// and the line's first 2000 characters.
#[derive(Debug)]
pub struct GrepMatch {
    pub path: String,
    pub line: usize,
    pub text: String,
}

/// At most the first `n` characters of `s`.
pub open spec fn first_chars(s: Seq<char>, n: nat) -> Seq<char> {
    if s.len() <= n {
        s
    } else {
        s.take(n as int)
    }
}

/// The matching lines of `ls`, in order: line number and shown text.
pub open spec fn matching_lines(ls: Seq<Seq<char>>, pattern: Seq<char>) -> Seq<(nat, Seq<char>)>
    decreases ls.len(),
{
    if ls.len() == 0 {
        Seq::empty()
    } else {
        let before = matching_lines(ls.drop_last(), pattern);
        if regex_finds(pattern, ls.last()) {
            before.push((ls.len(), first_chars(ls.last(), MAX_LINE_CHARS as nat)))
        } else {
            before
        }
    }
}

/// The matches a file adds: the first ones among its matching lines, until
/// `max` matches are reported in all.
pub open spec fn file_matches(text: Seq<char>, pattern: Seq<char>, room: nat) -> Seq<(nat, Seq<char>)> {
    let m = matching_lines(lines_of(text), pattern);
    if m.len() <= room {
        m
    } else {
        m.take(room as int)
    }
}

/// The view of a match.
pub open spec fn match_view(m: GrepMatch) -> (Seq<char>, nat, Seq<char>) {
    (m.path@, m.line as nat, m.text@)
}

/// The views of the matches.
pub open spec fn match_views(ms: Seq<GrepMatch>) -> Seq<(Seq<char>, nat, Seq<char>)> {
    ms.map_values(|m: GrepMatch| match_view(m))
}

/// Adds the matches of the file `rel` with contents `bytes` (decoded as
/// UTF-8, each invalid sequence replaced) to `out`, until `out` holds `max`.
pub fn grep_file(rel: &str, bytes: &[u8], pattern: &LinePattern, max: usize, out: &mut Vec<GrepMatch>)
    ensures
        ({
            let room: nat = if old(out)@.len() >= max {
                0
            } else {
                (max - old(out)@.len()) as nat
            };
            match_views(final(out)@) == match_views(old(out)@) + file_matches(
                utf8_lossy(bytes@),
                pattern.source(),
                room,
            ).map_values(|m: (nat, Seq<char>)| (rel@, m.0, m.1))
        }),
        old(out)@.len() <= max ==> final(out)@.len() <= max,
{
    let text = lossy_string(bytes);
    let cs = crate::text::chars_of(text.as_str());
    let ls = lines_vec(&cs);
    let ghost start = out@;
    let ghost room: nat = if start.len() >= max {
        0
    } else {
        (max - start.len()) as nat
    };
    let ghost pat = pattern.source();
    let mut i: usize = 0;
    proof {
        assert(views(ls@).take(0) =~= Seq::<Seq<char>>::empty());
        assert(views(ls@).take(ls@.len() as int) =~= views(ls@));
        assert(match_views(out@) =~= match_views(start) + Seq::<(nat, Seq<char>)>::empty().map_values(
            |m: (nat, Seq<char>)| (rel@, m.0, m.1),
        ));
    }
    while i < ls.len()
        invariant
            i <= ls@.len(),
            views(ls@) == lines_of(utf8_lossy(bytes@)),
            views(ls@).take(ls@.len() as int) == views(ls@),
            pat == pattern.source(),
            room == (if start.len() >= max {
                0
            } else {
                (max - start.len()) as nat
            }),
            out@.len() >= start.len(),
            out@.len() - start.len() <= room,
            out@.len() - start.len() == (if matching_lines(views(ls@).take(i as int), pat).len()
                <= room {
                matching_lines(views(ls@).take(i as int), pat).len()
            } else {
                room
            }),
            match_views(out@) == match_views(start) + (if matching_lines(views(ls@).take(i as int), pat).len()
                <= room {
                matching_lines(views(ls@).take(i as int), pat)
            } else {
                matching_lines(views(ls@).take(i as int), pat).take(room as int)
            }).map_values(|m: (nat, Seq<char>)| (rel@, m.0, m.1)),
        ensures
            match_views(out@) == match_views(start) + file_matches(utf8_lossy(bytes@), pat, room).map_values(
                |m: (nat, Seq<char>)| (rel@, m.0, m.1),
            ),
        decreases ls.len() - i,
    {
        if out.len() >= max {
            proof {
                let ml = matching_lines(views(ls@).take(i as int), pat);
                let full = matching_lines(views(ls@), pat);
                lemma_matching_mono(views(ls@), pat, i as int);
                assert(ml.len() >= room);
                assert(full.take(room as int) =~= ml.take(room as int));
                if ml.len() == room {
                    assert(ml.take(room as int) =~= ml);
                }
                if full.len() <= room {
                    assert(full.take(room as int) =~= full);
                }
            }
            break;
        }
        let line = ls[i].as_str();
        let hit = pattern_matches(pattern, line);
        proof {
            assert(views(ls@).take(i + 1).drop_last() =~= views(ls@).take(i as int));
            assert(views(ls@).take(i + 1).last() == ls@[i as int]@);
        }
        if hit {
            let shown = crate::text::prefix_chars(line, MAX_LINE_CHARS);
            let m = GrepMatch { path: rel.to_owned(), line: i + 1, text: shown };
            let ghost before = out@;
            out.push(m);
            proof {
                let ml = matching_lines(views(ls@).take(i as int), pat);
                let ml2 = matching_lines(views(ls@).take(i + 1), pat);
                assert(ml2 == ml.push(((i + 1) as nat, first_chars(ls@[i as int]@, MAX_LINE_CHARS as nat))));
                assert(ml.len() < room);
                assert(match_views(out@) =~= match_views(before).push(match_view(m)));
                assert(match_views(out@) =~= match_views(start) + ml2.map_values(
                    |m: (nat, Seq<char>)| (rel@, m.0, m.1),
                ));
            }
        }
        i = i + 1;
    }
}

proof fn lemma_matching_mono(ls: Seq<Seq<char>>, pattern: Seq<char>, i: int)
    requires
        0 <= i <= ls.len(),
    ensures
        matching_lines(ls.take(i), pattern).len() <= matching_lines(ls, pattern).len(),
        matching_lines(ls, pattern).take(matching_lines(ls.take(i), pattern).len() as int)
            == matching_lines(ls.take(i), pattern),
    decreases ls.len() - i,
{
    if i < ls.len() {
        lemma_matching_mono(ls, pattern, i + 1);
        assert(ls.take(i + 1).drop_last() =~= ls.take(i));
        let a = matching_lines(ls.take(i), pattern);
        let b = matching_lines(ls.take(i + 1), pattern);
        let c = matching_lines(ls, pattern);
        assert(c.take(b.len() as int).take(a.len() as int) =~= c.take(a.len() as int));
        assert(b.take(a.len() as int) =~= a);
    } else {
        assert(ls.take(i) =~= ls);
        assert(matching_lines(ls, pattern).take(matching_lines(ls, pattern).len() as int)
            =~= matching_lines(ls, pattern));
    }
}

/// The JSON text of the matches: an array of `{"path","line","text"}`
/// objects, in order.
pub open spec fn matches_json_spec(ms: Seq<(Seq<char>, nat, Seq<char>)>) -> Seq<char> {
    "["@ + crate::kits::join_with(
        ms.map_values(|m: (Seq<char>, nat, Seq<char>)| "{\"path\":"@ + json_quoted(m.0) + ",\"line\":"@
            + decimal(m.1) + ",\"text\":"@ + json_quoted(m.2) + "}"@),
        ","@,
    ) + "]"@
}

/// The JSON text of the matches (see [`matches_json_spec`]).
pub fn matches_json(ms: &Vec<GrepMatch>) -> (r: String)
    ensures
        r@ == matches_json_spec(match_views(ms@)),
{
    let mut parts: Vec<String> = Vec::new();
    let mut i: usize = 0;
    while i < ms.len()
        invariant
            i <= ms@.len(),
            views(parts@) == match_views(ms@).take(i as int).map_values(
                |m: (Seq<char>, nat, Seq<char>)| "{\"path\":"@ + json_quoted(m.0) + ",\"line\":"@
                    + decimal(m.1) + ",\"text\":"@ + json_quoted(m.2) + "}"@,
            ),
        decreases ms.len() - i,
    {
        let m = &ms[i];
        let mut t = String::from_str("{\"path\":");
        t.append(json_string(m.path.as_str()).as_str());
        t.append(",\"line\":");
        t.append(u64_to_string(m.line as u64).as_str());
        t.append(",\"text\":");
        t.append(json_string(m.text.as_str()).as_str());
        t.append("}");
        let ghost before = parts@;
        parts.push(t);
        proof {
            assert(views(parts@) =~= views(before).push(t@));
            assert(views(parts@) =~= match_views(ms@).take(i + 1).map_values(
                |m: (Seq<char>, nat, Seq<char>)| "{\"path\":"@ + json_quoted(m.0) + ",\"line\":"@
                    + decimal(m.1) + ",\"text\":"@ + json_quoted(m.2) + "}"@,
            ));
        }
        i = i + 1;
    }
    proof {
        assert(match_views(ms@).take(ms@.len() as int) =~= match_views(ms@));
    }
    let mut r = String::from_str("[");
    r.append(crate::kits::join_strings(&parts, ",").as_str());
    r.append("]");
    r
}

} // verus!
