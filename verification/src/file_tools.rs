//! Text handling of the file tools: escape sequences in written content,
//! image types by extension, and the line window of a partial read.
use vstd::prelude::*;
use base64::Engine;
use crate::text::{chars_of, push_char, occurs_at, find_char, lemma_find_char, string_of, views, slice_chars};
use crate::numbers::{decimal, u64_to_string};
use crate::kits::{join_with, join_strings};

verus! {

/// What the escape `\c` stands for: `\n`, `\t`, `\r`, `\\` and `\0` become
/// their character; any other escape is kept as written.
pub open spec fn escape_value(c: char) -> Seq<char> {
    if c == 'n' {
        seq!['\n']
    } else if c == 't' {
        seq!['\t']
    } else if c == 'r' {
        seq!['\r']
    } else if c == '\\' {
        seq!['\\']
    } else if c == '0' {
        seq!['\0']
    } else {
        seq!['\\', c]
    }
}

/// `s` with its backslash escapes replaced (see [`escape_value`]); a lone
/// trailing backslash stays.
pub open spec fn unescaped(s: Seq<char>) -> Seq<char>
    decreases s.len(),
{
    if s.len() == 0 {
        Seq::empty()
    } else if s[0] == '\\' {
        if s.len() == 1 {
            seq!['\\']
        } else {
            escape_value(s[1]) + unescaped(s.skip(2))
        }
    } else {
        seq![s[0]] + unescaped(s.drop_first())
    }
}

/// Convert literal backslash escape sequences to their byte values.
/// Compensates for upstream DSL parsers that consume backslashes during JSON serialization.
pub fn unescape_backslash_sequences(input: &str) -> (r: String)
    ensures
        r@ == unescaped(input@),
{
    let cs = chars_of(input);
    let mut out = String::new();
    let mut i: usize = 0;
    proof {
        assert(cs@.skip(0) =~= cs@);
    }
    while i < cs.len()
        invariant
            i <= cs.len(),
            cs@ == input@,
            unescaped(input@) == out@ + unescaped(cs@.skip(i as int)),
        decreases cs.len() - i,
    {
        let ghost rest = cs@.skip(i as int);
        let ghost before = out@;
        assert(rest[0] == cs@[i as int]);
        if cs[i] == '\\' {
            if i + 1 < cs.len() {
                let c = cs[i + 1];
                assert(rest[1] == c);
                assert(rest.skip(2) =~= cs@.skip(i + 2));
                if c == 'n' {
                    push_char(&mut out, '\n');
                } else if c == 't' {
                    push_char(&mut out, '\t');
                } else if c == 'r' {
                    push_char(&mut out, '\r');
                } else if c == '\\' {
                    push_char(&mut out, '\\');
                } else if c == '0' {
                    push_char(&mut out, '\0');
                } else {
                    push_char(&mut out, '\\');
                    push_char(&mut out, c);
                }
                assert(out@ =~= before + escape_value(c));
                assert(before + (escape_value(c) + unescaped(rest.skip(2))) =~= out@ + unescaped(
                    cs@.skip(i + 2),
                ));
                i += 2;
            } else {
                push_char(&mut out, '\\');
                assert(cs@.skip(i + 1).len() == 0);
                assert(out@ =~= before + seq!['\\']);
                i += 1;
            }
        } else {
            push_char(&mut out, cs[i]);
            assert(rest.drop_first() =~= cs@.skip(i + 1));
            assert(before + (seq![cs@[i as int]] + unescaped(rest.drop_first())) =~= out@
                + unescaped(cs@.skip(i + 1)));
            i += 1;
        }
    }
    proof {
        assert(cs@.skip(i as int).len() == 0);
        assert(out@ + Seq::<char>::empty() =~= out@);
    }
    out
}

/// `c` with ASCII uppercase letters made lowercase.
pub open spec fn ascii_lower(c: char) -> char {
    if 'A' <= c <= 'Z' {
        ((c as u32) + 32) as char
    } else {
        c
    }
}

/// `s` compared with the lowercase word `w`, ignoring ASCII case.
pub open spec fn eq_ignore_case(s: Seq<char>, w: Seq<char>) -> bool {
    s.len() == w.len() && forall|i: int| 0 <= i < s.len() ==> ascii_lower(#[trigger] s[i]) == w[i]
}

/// The MIME type of an image extension, case-insensitively: png, jpg/jpeg,
/// gif, webp, svg.
pub open spec fn image_mime_spec(ext: Seq<char>) -> Option<Seq<char>> {
    if eq_ignore_case(ext, "png"@) {
        Some("image/png"@)
    } else if eq_ignore_case(ext, "jpg"@) || eq_ignore_case(ext, "jpeg"@) {
        Some("image/jpeg"@)
    } else if eq_ignore_case(ext, "gif"@) {
        Some("image/gif"@)
    } else if eq_ignore_case(ext, "webp"@) {
        Some("image/webp"@)
    } else if eq_ignore_case(ext, "svg"@) {
        Some("image/svg+xml"@)
    } else {
        None
    }
}

/// Whether `cs` spells the lowercase word `w`, ignoring ASCII case.
pub fn matches_word(cs: &Vec<char>, w: &str) -> (r: bool)
    ensures
        r == eq_ignore_case(cs@, w@),
{
    let wc = chars_of(w);
    if cs.len() != wc.len() {
        return false;
    }
    let mut i: usize = 0;
    while i < cs.len()
        invariant
            i <= cs.len() == wc.len(),
            wc@ == w@,
            forall|k: int| 0 <= k < i ==> ascii_lower(#[trigger] cs@[k]) == wc@[k],
        decreases cs.len() - i,
    {
        let c = cs[i];
        let lower: u32 = if 'A' <= c && c <= 'Z' {
            c as u32 + 32
        } else {
            c as u32
        };
        proof {
            vstd::utf8::char_u32_cast(c, c as u32);
            vstd::utf8::char_u32_cast(wc@[i as int], wc@[i as int] as u32);
            assert(lower == ascii_lower(c) as u32);
        }
        if lower != wc[i] as u32 {
            return false;
        }
        i += 1;
    }
    true
}

/// Image extensions → MIME type mapping.
pub fn image_mime_type(ext: &str) -> (r: Option<&'static str>)
    ensures
        match image_mime_spec(ext@) {
            Some(m) => r matches Some(s) && s@ == m,
            None => r is None,
        },
{
    let cs = chars_of(ext);
    if matches_word(&cs, "png") {
        Some("image/png")
    } else if matches_word(&cs, "jpg") || matches_word(&cs, "jpeg") {
        Some("image/jpeg")
    } else if matches_word(&cs, "gif") {
        Some("image/gif")
    } else if matches_word(&cs, "webp") {
        Some("image/webp")
    } else if matches_word(&cs, "svg") {
        Some("image/svg+xml")
    } else {
        None
    }
}


/// Text without backslashes is written unchanged.
pub proof fn lemma_unescape_without_backslash(s: Seq<char>)
    requires
        forall|i: int| 0 <= i < s.len() ==> s[i] != '\\',
    ensures
        unescaped(s) == s,
    decreases s.len(),
{
    if s.len() > 0 {
        let t = s.drop_first();
        assert forall|i: int| 0 <= i < t.len() implies t[i] != '\\' by {
            assert(t[i] == s[i + 1]);
        }
        lemma_unescape_without_backslash(t);
        assert(seq![s[0]] + t =~= s);
    }
}

// ---------------------------------------------------------------------------
// Replacing text (`file_edit`)

/// The first index at or after `from` where the non-empty `p` occurs in
/// `s`, or -1.
pub open spec fn find_from(s: Seq<char>, p: Seq<char>, from: int) -> int
    decreases s.len() - from,
{
    if from < 0 || p.len() == 0 || from + p.len() > s.len() {
        -1
    } else if occurs_at(s, p, from) {
        from
    } else {
        find_from(s, p, from + 1)
    }
}

/// The non-overlapping occurrences of the non-empty `p` in `s` at or after
/// `from`, taken leftmost first (`str::matches`).
pub open spec fn count_from(s: Seq<char>, p: Seq<char>, from: int) -> nat
    decreases s.len() - from,
{
    if p.len() == 0 || from < 0 || from > s.len() {
        0
    } else {
        let i = find_from(s, p, from);
        if i < from {
            0
        } else {
            proof {
                lemma_find_from(s, p, from);
            }
            1 + count_from(s, p, i + p.len())
        }
    }
}

/// How many times `p` occurs in `s`: an empty `p` matches at each of the
/// `s.len() + 1` places between characters.
pub open spec fn match_count(s: Seq<char>, p: Seq<char>) -> nat {
    if p.len() == 0 {
        s.len() + 1
    } else {
        count_from(s, p, 0)
    }
}

/// `s` from `from` on, with the first `n` (all when `n < 0`) of the
/// non-overlapping occurrences of the non-empty `p` replaced by `r`.
pub open spec fn replace_from(s: Seq<char>, p: Seq<char>, r: Seq<char>, from: int, n: int) -> Seq<char>
    decreases s.len() - from,
{
    if p.len() == 0 || from < 0 || from > s.len() {
        s.skip(from)
    } else {
        let i = find_from(s, p, from);
        if n == 0 || i < from {
            s.skip(from)
        } else {
            proof {
                lemma_find_from(s, p, from);
            }
            s.subrange(from, i) + r + replace_from(s, p, r, i + p.len(), if n < 0 {
                n
            } else {
                n - 1
            })
        }
    }
}

/// `s` with `r` placed at the first `n` (all when `n < 0`) of the places
/// between its characters, as an empty pattern is replaced.
pub open spec fn replace_empty(s: Seq<char>, r: Seq<char>, n: int) -> Seq<char>
    decreases s.len(),
{
    if n == 0 {
        s
    } else if s.len() == 0 {
        r
    } else {
        r + seq![s[0]] + replace_empty(s.drop_first(), r, if n < 0 {
            n
        } else {
            n - 1
        })
    }
}

/// `str::replacen` (`n >= 0`) and `str::replace` (`n < 0`).
pub open spec fn replaced(s: Seq<char>, p: Seq<char>, r: Seq<char>, n: int) -> Seq<char> {
    if p.len() == 0 {
        replace_empty(s, r, n)
    } else {
        replace_from(s, p, r, 0, n)
    }
}

pub proof fn lemma_find_from(s: Seq<char>, p: Seq<char>, from: int)
    requires
        p.len() > 0,
        0 <= from,
    ensures
        find_from(s, p, from) == -1 || (from <= find_from(s, p, from) && find_from(s, p, from)
            + p.len() <= s.len() && occurs_at(s, p, find_from(s, p, from))),
        forall|k: int|
            from <= k && (find_from(s, p, from) < 0 || k < find_from(s, p, from)) ==> !occurs_at(
                s,
                p,
                k,
            ),
    decreases s.len() - from,
{
    if from + p.len() <= s.len() && !occurs_at(s, p, from) {
        lemma_find_from(s, p, from + 1);
        assert forall|k: int|
            from <= k && (find_from(s, p, from) < 0 || k < find_from(s, p, from)) implies !occurs_at(
            s,
            p,
            k,
        ) by {
            if k > from {
            }
        }
    }
}

fn extend_chars(out: &mut Vec<char>, cs: &Vec<char>)
    ensures
        final(out)@ == old(out)@ + cs@,
{
    let mut i: usize = 0;
    while i < cs.len()
        invariant
            i <= cs@.len(),
            out@ == old(out)@ + cs@.take(i as int),
        decreases cs.len() - i,
    {
        out.push(cs[i]);
        proof {
            assert(out@ =~= old(out)@ + cs@.take(i + 1));
        }
        i = i + 1;
    }
    assert(cs@.take(cs@.len() as int) =~= cs@);
}

fn occurs_here(cs: &Vec<char>, p: &Vec<char>, i: usize) -> (r: bool)
    requires
        i + p@.len() <= cs@.len(),
    ensures
        r == occurs_at(cs@, p@, i as int),
{
    let n = cs.len();
    let mut j: usize = 0;
    while j < p.len()
        invariant
            n == cs@.len(),
            i + p@.len() <= cs@.len(),
            j <= p@.len(),
            forall|k: int| 0 <= k < j ==> cs@[i + k] == p@[k],
        decreases p.len() - j,
    {
        if cs[i + j] != p[j] {
            assert(cs@.subrange(i as int, i + p@.len())[j as int] != p@[j as int]);
            return false;
        }
        j = j + 1;
    }
    assert(cs@.subrange(i as int, i + p@.len()) =~= p@);
    true
}

/// The first index at or after `from` where the non-empty `p` occurs.
fn find_at_or_after(cs: &Vec<char>, p: &Vec<char>, from: usize) -> (r: Option<usize>)
    requires
        p@.len() > 0,
        from <= cs@.len(),
    ensures
        match r {
            Some(i) => i == find_from(cs@, p@, from as int),
            None => find_from(cs@, p@, from as int) == -1,
        },
{
    let n = cs.len();
    let m = p.len();
    if m > n || from > n - m {
        return None;
    }
    let mut i = from;
    while i <= n - m
        invariant
            n == cs@.len(),
            m == p@.len(),
            0 < m <= n,
            from <= i <= n - m + 1,
            find_from(cs@, p@, from as int) == find_from(cs@, p@, i as int),
        decreases n - m + 1 - i,
    {
        if occurs_here(cs, p, i) {
            return Some(i);
        }
        i = i + 1;
    }
    None
}

/// The number of occurrences of `old` in `content` (see [`match_count`]).
pub fn count_matches(content: &Vec<char>, old: &Vec<char>) -> (r: usize)
    requires
        content@.len() < usize::MAX,
    ensures
        r == match_count(content@, old@),
{
    if old.len() == 0 {
        return content.len() + 1;
    }
    let mut count: usize = 0;
    let mut from: usize = 0;
    while from <= content.len()
        invariant
            old@.len() > 0,
            content@.len() < usize::MAX,
            from <= content@.len() + 1,
            count <= from,
            match_count(content@, old@) == count + count_from(content@, old@, from as int),
        decreases content.len() + 1 - from,
    {
        match find_at_or_after(content, old, from) {
            Some(i) => {
                proof {
                    lemma_find_from(content@, old@, from as int);
                }
                count = count + 1;
                from = i + old.len();
            },
            None => {
                return count;
            },
        }
    }
    count
}

/// The replacement count a limit stands for: the limit, or -1 for all.
pub open spec fn limit_count(limit: Option<usize>) -> int {
    match limit {
        Some(n) => n as int,
        None => -1,
    }
}

/// `content` with the first `n` occurrences of `old` (all when `limit` is
/// `None`) replaced by `new` (see [`replaced`]).
pub fn replace_text(content: &Vec<char>, old: &Vec<char>, new: &Vec<char>, limit: Option<usize>) -> (r: Vec<char>)
    ensures
        r@ == replaced(content@, old@, new@, limit_count(limit)),
{
    let mut out: Vec<char> = Vec::new();
    let all = limit.is_none();
    let mut left: usize = match limit {
        Some(n) => n,
        None => 0,
    };
    if old.len() == 0 {
        let mut k: usize = 0;
        assert(content@.skip(0) =~= content@);
        assert(out@ =~= Seq::<char>::empty());
        while k < content.len() && (all || left > 0)
            invariant
                k <= content@.len(),
                all == limit.is_none(),
                out@ + replace_empty(content@.skip(k as int), new@, if all {
                    -1
                } else {
                    left as int
                }) == replace_empty(content@, new@, limit_count(limit)),
            decreases content.len() - k,
        {
            proof {
                assert(content@.skip(k as int).drop_first() =~= content@.skip(k + 1));
                assert(content@.skip(k as int)[0] == content@[k as int]);
            }
            let ghost before = out@;
            extend_chars(&mut out, new);
            out.push(content[k]);
            proof {
                assert(out@ =~= before + new@ + seq![content@[k as int]]);
            }
            if !all {
                left = left - 1;
            }
            k = k + 1;
        }
        let ghost before = out@;
        if all || left > 0 {
            extend_chars(&mut out, new);
            proof {
                assert(content@.skip(k as int).len() == 0);
            }
        } else {
            let mut j = k;
            while j < content.len()
                invariant
                    k <= j <= content@.len(),
                    out@ == before + content@.subrange(k as int, j as int),
                decreases content.len() - j,
            {
                out.push(content[j]);
                proof {
                    assert(out@ =~= before + content@.subrange(k as int, j + 1));
                }
                j = j + 1;
            }
            proof {
                assert(content@.subrange(k as int, content@.len() as int) =~= content@.skip(k as int));
            }
        }
        return out;
    }
    let mut from: usize = 0;
    proof {
        assert(out@ =~= Seq::<char>::empty());
    }
    while from <= content.len()
        invariant
            old@.len() > 0,
            from <= content@.len(),
            all == limit.is_none(),
            out@ + replace_from(content@, old@, new@, from as int, if all {
                -1
            } else {
                left as int
            }) == replace_from(content@, old@, new@, 0, limit_count(limit)),
        decreases content.len() + 1 - from,
    {
        let found = if !all && left == 0 {
            None
        } else {
            find_at_or_after(content, old, from)
        };
        match found {
            Some(i) => {
                proof {
                    lemma_find_from(content@, old@, from as int);
                }
                let ghost before = out@;
                let mut j = from;
                while j < i
                    invariant
                        from <= j <= i <= content@.len(),
                        out@ == before + content@.subrange(from as int, j as int),
                    decreases i - j,
                {
                    out.push(content[j]);
                    proof {
                        assert(out@ =~= before + content@.subrange(from as int, j + 1));
                    }
                    j = j + 1;
                }
                extend_chars(&mut out, new);
                proof {
                    assert(out@ =~= before + content@.subrange(from as int, i as int) + new@);
                }
                if !all {
                    left = left - 1;
                }
                from = i + old.len();
            },
            None => {
                let ghost before = out@;
                let mut j = from;
                while j < content.len()
                    invariant
                        from <= j <= content@.len(),
                        out@ == before + content@.subrange(from as int, j as int),
                    decreases content.len() - j,
                {
                    out.push(content[j]);
                    proof {
                        assert(out@ =~= before + content@.subrange(from as int, j + 1));
                    }
                    j = j + 1;
                }
                proof {
                    assert(content@.subrange(from as int, content@.len() as int) =~= content@.skip(
                        from as int,
                    ));
                }
                return out;
            },
        }
    }
    out
}

/// The lines of `s`, as `str::lines` gives them: split after each `\n`,
/// the `\n` (and a `\r` just before it) dropped; no line after a final `\n`.
pub open spec fn lines_of(s: Seq<char>) -> Seq<Seq<char>>
    decreases s.len(),
{
    if s.len() == 0 {
        Seq::empty()
    } else {
        let n = find_char(s, '\n');
        if n < 0 {
            seq![s]
        } else {
            let l = s.take(n);
            let line = if l.len() > 0 && l.last() == '\r' {
                l.drop_last()
            } else {
                l
            };
            proof {
                lemma_find_char(s, '\n');
            }
            seq![line] + lines_of(s.skip(n + 1))
        }
    }
}

/// The lines of `cs` (see [`lines_of`]).
pub fn lines_vec(cs: &Vec<char>) -> (r: Vec<String>)
    ensures
        views(r@) == lines_of(cs@),
{
    let mut out: Vec<String> = Vec::new();
    let mut start: usize = 0;
    let mut i: usize = 0;
    assert(cs@.skip(0) =~= cs@);
    while i < cs.len()
        invariant
            start <= i <= cs@.len(),
            views(out@) + lines_of(cs@.skip(start as int)) == lines_of(cs@),
            forall|k: int| start <= k < i ==> cs@[k] != '\n',
        decreases cs.len() - i,
    {
        if cs[i] == '\n' {
            let ghost rest = cs@.skip(start as int);
            proof {
                lemma_find_char(rest, '\n');
                assert(rest[i - start] == '\n');
                assert forall|k: int| 0 <= k < i - start implies rest[k] != '\n' by {
                    assert(rest[k] == cs@[start + k]);
                }
                assert(find_char(rest, '\n') == i - start);
                assert(rest.skip(i - start + 1) =~= cs@.skip(i + 1));
                assert(rest.take(i - start) =~= cs@.subrange(start as int, i as int));
            }
            let end = if i > start && cs[i - 1] == '\r' {
                i - 1
            } else {
                i
            };
            let line = crate::text::string_of_range(cs, start, end);
            let ghost before = out@;
            out.push(line);
            proof {
                let l = cs@.subrange(start as int, i as int);
                if i > start && cs@[i - 1] == '\r' {
                    assert(line@ =~= l.drop_last());
                } else {
                    assert(line@ =~= l);
                }
                assert(views(out@) =~= views(before).push(line@));
                assert(views(out@) + lines_of(cs@.skip(i + 1)) =~= views(before) + lines_of(rest));
            }
            start = i + 1;
        }
        i = i + 1;
    }
    if start < cs.len() {
        let ghost rest = cs@.skip(start as int);
        proof {
            lemma_find_char(rest, '\n');
            assert forall|k: int| 0 <= k < rest.len() implies rest[k] != '\n' by {
                assert(rest[k] == cs@[start + k]);
            }
            assert(find_char(rest, '\n') == -1);
        }
        let line = crate::text::string_of_range(cs, start, cs.len());
        let ghost before = out@;
        out.push(line);
        proof {
            assert(line@ =~= rest);
            assert(views(out@) =~= views(before).push(line@));
        }
    } else {
        proof {
            assert(cs@.skip(start as int).len() == 0);
            assert(views(out@) + Seq::<Seq<char>>::empty() =~= views(out@));
        }
    }
    out
}

/// Why an edit was refused.
#[derive(Debug)]
pub enum EditError {
    NotFound,
    MultipleMatches(usize),
}

impl EditError {
    /// The error's message.
    pub fn message(&self) -> (r: String)
        ensures
            match self {
                EditError::NotFound => r@ == "text not found in file"@,
                EditError::MultipleMatches(n) => r@ == "multiple matches found — be more specific ("@
                    + decimal(*n as nat) + " occurrences). Use count=-1 for all."@,
            },
    {
        match self {
            EditError::NotFound => String::from_str("text not found in file"),
            EditError::MultipleMatches(n) => {
                let mut m = String::from_str("multiple matches found — be more specific (");
                m.append(u64_to_string(*n as u64).as_str());
                m.append(" occurrences). Use count=-1 for all.");
                m
            },
        }
    }
}

/// What an edit of `content` gives: the new text and how many occurrences
/// were replaced; refused when `old` does not occur, or when exactly one
/// replacement is asked for and `old` occurs more than once. A negative
/// `max` replaces every occurrence.
pub open spec fn edit_spec(content: Seq<char>, old: Seq<char>, new: Seq<char>, max: i64) -> Result<
    (Seq<char>, nat),
    Option<nat>,
> {
    let c = match_count(content, old);
    if c == 0 {
        Err(None)
    } else if max < 0 {
        Ok((replaced(content, old, new, -1), c))
    } else {
        let n = max as usize;
        if n == 1 && c > 1 {
            Err(Some(c))
        } else {
            Ok((replaced(content, old, new, n as int), if n < c {
                n as nat
            } else {
                c
            }))
        }
    }
}

/// The result of an edit.
#[derive(Debug)]
pub struct EditOutcome {
    pub new_content: String,
    pub replaced: usize,
}

/// Replaces `old_text` by `new_text` in `content` (see [`edit_spec`]).
pub fn apply_edit(content: &str, old_text: &str, new_text: &str, max_replacements: i64) -> (r: Result<
    EditOutcome,
    EditError,
>)
    requires
        content@.len() < usize::MAX,
    ensures
        match edit_spec(content@, old_text@, new_text@, max_replacements) {
            Ok((t, n)) => r matches Ok(o) && o.new_content@ == t && o.replaced == n,
            Err(None) => r matches Err(EditError::NotFound),
            Err(Some(c)) => r matches Err(EditError::MultipleMatches(k)) && k == c,
        },
{
    let cs = chars_of(content);
    let old = chars_of(old_text);
    let new = chars_of(new_text);
    let count = count_matches(&cs, &old);
    if count == 0 {
        return Err(EditError::NotFound);
    }
    if max_replacements < 0 {
        let out = replace_text(&cs, &old, &new, None);
        return Ok(EditOutcome { new_content: string_of(&out), replaced: count });
    }
    let n: usize = #[verifier::truncate] (max_replacements as usize);
    if n == 1 && count > 1 {
        return Err(EditError::MultipleMatches(count));
    }
    let out = replace_text(&cs, &old, &new, Some(n));
    let replaced = if n < count {
        n
    } else {
        count
    };
    Ok(EditOutcome { new_content: string_of(&out), replaced })
}


/// `str::find` of `p` in `s`: 0 for an empty `p`, else the first index
/// where it occurs, or -1.
pub open spec fn first_index(s: Seq<char>, p: Seq<char>) -> int {
    if p.len() == 0 {
        0
    } else {
        find_from(s, p, 0)
    }
}

/// `n` right-aligned in four columns (`{:4}`).
pub open spec fn pad4(n: nat) -> Seq<char> {
    let d = decimal(n);
    if d.len() < 4 {
        Seq::new((4 - d.len()) as nat, |i: int| ' ') + d
    } else {
        d
    }
}

/// The lines `ls`, numbered from `first`: `{:4}| line`.
pub open spec fn numbered(ls: Seq<Seq<char>>, first: nat) -> Seq<Seq<char>> {
    Seq::new(ls.len(), |i: int| pad4((first + i) as nat) + "| "@ + ls[i])
}

/// The larger of two numbers.
pub open spec fn max_nat(a: nat, b: nat) -> nat {
    if a >= b {
        a
    } else {
        b
    }
}

/// The report of an edit that replaced one occurrence: the lines the new
/// text spans (counted from where it first occurs), with up to three lines
/// of context on each side, numbered.
pub open spec fn single_edit_report(path: Seq<char>, content: Seq<char>, new: Seq<char>, old: Seq<char>) -> Seq<
    char,
> {
    let found = first_index(content, new);
    let pos = if found < 0 {
        0
    } else {
        found
    };
    let start = lines_of(content.take(pos)).len();
    let span = max_nat(max_nat(lines_of(new).len(), 1), max_nat(lines_of(old).len(), 1));
    let end = (start + span - 1) as nat;
    let all = lines_of(content);
    let cs: nat = if start > 3 {
        (start - 3) as nat
    } else {
        1
    };
    let ce: nat = if end + 3 < all.len() {
        end + 3
    } else {
        all.len()
    };
    let shown = if cs - 1 <= ce {
        all.subrange(cs - 1, ce as int)
    } else {
        Seq::empty()
    };
    "Replaced in "@ + path + " (lines "@ + decimal(start) + "-"@ + decimal(end) + ")\n"@ + join_with(
        numbered(shown, cs),
        "\n"@,
    )
}

/// The report of an edit: the context of a single replacement, else the
/// number of occurrences replaced and the new size in bytes.
pub open spec fn edit_report(path: Seq<char>, content: Seq<char>, new: Seq<char>, old: Seq<char>, replaced: nat) -> Seq<
    char,
> {
    if replaced == 1 {
        single_edit_report(path, content, new, old)
    } else {
        "Replaced "@ + decimal(replaced) + " occurrence(s) in "@ + path + " ("@ + decimal(
            crate::text::utf8_len(content),
        ) + " bytes)"@
    }
}

fn pad4_text(n: u64) -> (r: String)
    ensures
        r@ == pad4(n as nat),
{
    let d = u64_to_string(n);
    let len = d.as_str().unicode_len();
    if len < 4 {
        let mut out = String::new();
        let mut k: usize = 0;
        while k < 4 - len
            invariant
                len < 4,
                k <= 4 - len,
                out@ == Seq::new(k as nat, |i: int| ' '),
            decreases 4 - len - k,
        {
            push_char(&mut out, ' ');
            proof {
                assert(out@ =~= Seq::new((k + 1) as nat, |i: int| ' '));
            }
            k = k + 1;
        }
        out.append(d.as_str());
        out
    } else {
        d
    }
}

/// The report of an edit (see [`edit_report`]).
pub fn edit_message(path: &str, new_content: &str, new_text: &str, old_text: &str, replaced: usize) -> (r: String)
    requires
        new_content@.len() + new_text@.len() + old_text@.len() + 4 < usize::MAX,
    ensures
        r@ == edit_report(path@, new_content@, new_text@, old_text@, replaced as nat),
{
    if replaced != 1 {
        let mut m = String::from_str("Replaced ");
        m.append(u64_to_string(replaced as u64).as_str());
        m.append(" occurrence(s) in ");
        m.append(path);
        m.append(" (");
        let bytes = new_content.as_bytes().len();
        m.append(u64_to_string(bytes as u64).as_str());
        m.append(" bytes)");
        return m;
    }
    let cs = chars_of(new_content);
    let nc = chars_of(new_text);
    let oc = chars_of(old_text);
    let pos: usize = if nc.len() == 0 {
        0
    } else {
        match find_at_or_after(&cs, &nc, 0) {
            Some(i) => i,
            None => 0,
        }
    };
    proof {
        if nc@.len() > 0 {
            lemma_find_from(cs@, nc@, 0);
        }
    }
    let prefix = slice_chars(&cs, 0, pos);
    let start = lines_vec(&prefix).len();
    let new_lines = lines_vec(&nc).len();
    let old_lines = lines_vec(&oc).len();
    let a = if new_lines > 1 {
        new_lines
    } else {
        1
    };
    let b = if old_lines > 1 {
        old_lines
    } else {
        1
    };
    let span = if a >= b {
        a
    } else {
        b
    };
    let all = lines_vec(&cs);
    proof {
        assert(views(all@).len() == all@.len());
    }
    proof {
        lemma_lines_len(prefix@);
        lemma_lines_len(nc@);
        lemma_lines_len(oc@);
    }
    let end: u64 = start as u64 + span as u64 - 1;
    let ctx_start: u64 = if start > 3 {
        start as u64 - 3
    } else {
        1
    };
    let ctx_end: u64 = if end + 3 < all.len() as u64 {
        end + 3
    } else {
        all.len() as u64
    };
    let mut shown: Vec<String> = Vec::new();
    if ctx_start - 1 <= ctx_end {
        let mut k: u64 = ctx_start - 1;
        while k < ctx_end
            invariant
                ctx_start - 1 <= k <= ctx_end <= all@.len(),
                views(shown@) == Seq::new((k - (ctx_start - 1)) as nat, |i: int| pad4((ctx_start + i) as nat) + "| "@ + views(all@)[ctx_start - 1 + i]),
            decreases ctx_end - k,
        {
            let mut line = pad4_text(k + 1);
            line.append("| ");
            line.append(all[k as usize].as_str());
            let ghost before = shown@;
            shown.push(line);
            proof {
                assert(views(shown@) =~= views(before).push(line@));
                assert(views(all@)[k as int] == all@[k as int]@);
                assert(views(shown@) =~= Seq::new((k + 1 - (ctx_start - 1)) as nat, |i: int| pad4((ctx_start + i) as nat) + "| "@ + views(all@)[ctx_start - 1 + i]));
            }
            k = k + 1;
        }
    }
    proof {
        let ls = lines_of(cs@);
        let sh = if ctx_start - 1 <= ctx_end {
            ls.subrange(ctx_start - 1, ctx_end as int)
        } else {
            Seq::<Seq<char>>::empty()
        };
        assert(views(shown@) =~= numbered(sh, ctx_start as nat));
    }
    let mut m = String::from_str("Replaced in ");
    m.append(path);
    m.append(" (lines ");
    m.append(u64_to_string(start as u64).as_str());
    m.append("-");
    m.append(u64_to_string(end).as_str());
    m.append(")\n");
    m.append(join_strings(&shown, "\n").as_str());
    m
}


/// A text has no more lines than characters.
pub proof fn lemma_lines_len(s: Seq<char>)
    ensures
        lines_of(s).len() <= s.len(),
    decreases s.len(),
{
    if s.len() > 0 {
        let n = find_char(s, '\n');
        lemma_find_char(s, '\n');
        if n >= 0 {
            lemma_lines_len(s.skip(n + 1));
        }
    }
}


// ---------------------------------------------------------------------------
// Reading text (`file_read`)

/// The most bytes of a whole-file read shown before it is cut.
pub const MAX_RESPONSE_CHARS: usize = 100000;

/// The largest image sent as base64.
pub const MAX_IMAGE_SIZE: usize = 10485760;

/// The smaller of two numbers.
pub open spec fn min_nat(a: nat, b: nat) -> nat {
    if a <= b {
        a
    } else {
        b
    }
}

/// What a text read shows, and whether it is partial: with an offset or a
/// limit, the lines from the offset (0-based) up to the limit under a
/// `[lines a-b of n]` header; otherwise the whole text, cut after
/// `MAX_RESPONSE_CHARS` bytes with a note when it is longer.
pub open spec fn read_text_spec(content: Seq<char>, offset: nat, limit: Option<nat>) -> (Seq<char>, bool) {
    if offset > 0 || limit is Some {
        let ls = lines_of(content);
        let total = ls.len();
        let start = min_nat(offset, total);
        let end = match limit {
            Some(l) => min_nat(start + l, total),
            None => total,
        };
        (
            "[lines "@ + decimal(start + 1) + "-"@ + decimal(end) + " of "@ + decimal(total) + "]\n"@
                + join_with(ls.subrange(start as int, end as int), "\n"@),
            start > 0 || end < total,
        )
    } else if crate::text::utf8_len(content) > MAX_RESPONSE_CHARS {
        (
            crate::text::take_bytes(content, MAX_RESPONSE_CHARS as int)
                + "...\n\n(truncated: showing 100000/"@ + decimal(crate::text::utf8_len(content))
                + " bytes. Use offset/limit to read specific sections.)"@,
            true,
        )
    } else {
        (content, false)
    }
}

/// The inputs of a read that the original slices without panicking: with
/// a limit, the window's end fits in `usize`; for a whole read that is cut,
/// the cut falls on a character boundary.
pub open spec fn read_inputs_ok(content: Seq<char>, offset: nat, limit: Option<nat>) -> bool {
    &&& (limit matches Some(l) ==> min_nat(offset, lines_of(content).len()) + l <= usize::MAX)
    &&& (!(offset > 0 || limit is Some) && crate::text::utf8_len(content) > MAX_RESPONSE_CHARS
        ==> vstd::utf8::is_char_boundary(vstd::utf8::encode_utf8(content), MAX_RESPONSE_CHARS as int))
}

/// What a text read shows (see [`read_text_spec`]).
pub fn read_text(content: &str, offset: usize, limit: Option<usize>) -> (r: (String, bool))
    requires
        read_inputs_ok(
            content@,
            offset as nat,
            match limit {
                Some(l) => Some(l as nat),
                None => None,
            },
        ),
        content@.len() < usize::MAX,
    ensures
        (r.0@, r.1) == read_text_spec(
            content@,
            offset as nat,
            match limit {
                Some(l) => Some(l as nat),
                None => None,
            },
        ),
{
    if offset > 0 || limit.is_some() {
        let cs = chars_of(content);
        let ls = lines_vec(&cs);
        let total = ls.len();
        proof {
            assert(views(ls@).len() == ls@.len());
            lemma_lines_len(cs@);
        }
        let start = if offset < total {
            offset
        } else {
            total
        };
        let end = match limit {
            Some(l) => if start + l < total {
                start + l
            } else {
                total
            },
            None => total,
        };
        let mut window: Vec<String> = Vec::new();
        let mut k = start;
        while k < end
            invariant
                start <= k <= end <= ls@.len(),
                views(window@) == views(ls@).subrange(start as int, k as int),
            decreases end - k,
        {
            let line = ls[k].as_str().to_owned();
            let ghost before = window@;
            window.push(line);
            proof {
                assert(views(window@) =~= views(before).push(line@));
                assert(views(window@) =~= views(ls@).subrange(start as int, k + 1));
            }
            k = k + 1;
        }
        let mut text = String::from_str("[lines ");
        text.append(u64_to_string(start as u64 + 1).as_str());
        text.append("-");
        text.append(u64_to_string(end as u64).as_str());
        text.append(" of ");
        text.append(u64_to_string(total as u64).as_str());
        text.append("]\n");
        text.append(join_strings(&window, "\n").as_str());
        return (text, start > 0 || end < total);
    }
    let len = content.as_bytes().len();
    if len > MAX_RESPONSE_CHARS {
        let mut text = crate::text::prefix_bytes(content, MAX_RESPONSE_CHARS);
        text.append("...\n\n(truncated: showing 100000/");
        text.append(u64_to_string(len as u64).as_str());
        text.append(" bytes. Use offset/limit to read specific sections.)");
        (text, true)
    } else {
        (content.to_owned(), false)
    }
}

/// A read with an offset and no limit runs to the last line: it shows every
/// line from the offset (0-based, at most the line count) to the end, under a
/// `[lines a-n of n]` header, exactly as a read with any limit that reaches
/// past the last line does.
pub proof fn lemma_read_without_limit_runs_to_end(content: Seq<char>, offset: nat, limit: nat)
    requires
        offset > 0,
        limit >= lines_of(content).len(),
    ensures
        ({
            let ls = lines_of(content);
            let total = ls.len();
            let start: nat = if offset < total {
                offset
            } else {
                total
            };
            read_text_spec(content, offset, None) == (
                "[lines "@ + decimal(start + 1) + "-"@ + decimal(total) + " of "@ + decimal(total)
                    + "]\n"@ + join_with(ls.skip(start as int), "\n"@),
                start > 0,
            )
        }),
        read_text_spec(content, offset, None) == read_text_spec(content, offset, Some(limit)),
{
    let ls = lines_of(content);
    let total = ls.len();
    let start: nat = if offset < total {
        offset
    } else {
        total
    };
    assert(ls.subrange(start as int, total as int) =~= ls.skip(start as int));
}

/// Why a file is not read.
#[derive(Debug)]
pub enum ReadRefusal {
    ImageTooLarge { len: usize },
    FileTooLarge { len: usize, max: usize },
}

impl ReadRefusal {
    /// The refusal's message.
    pub fn message(&self) -> (r: String)
        ensures
            match self {
                ReadRefusal::ImageTooLarge { len } => r@ == "Image too large: "@ + decimal(*len as nat)
                    + " bytes (max: 10485760)"@,
                ReadRefusal::FileTooLarge { len, max } => r@ == "File too large: "@ + decimal(
                    *len as nat,
                ) + " bytes (max: "@ + decimal(*max as nat) + ")"@,
            },
    {
        match self {
            ReadRefusal::ImageTooLarge { len } => {
                let mut m = String::from_str("Image too large: ");
                m.append(u64_to_string(*len as u64).as_str());
                m.append(" bytes (max: 10485760)");
                m
            },
            ReadRefusal::FileTooLarge { len, max } => {
                let mut m = String::from_str("File too large: ");
                m.append(u64_to_string(*len as u64).as_str());
                m.append(" bytes (max: ");
                m.append(u64_to_string(*max as u64).as_str());
                m.append(")");
                m
            },
        }
    }
}

/// An image is read when it has at most `MAX_IMAGE_SIZE` bytes; a text
/// file when it has at most `max_file_size`.
pub fn check_read_size(is_image: bool, len: usize, max_file_size: usize) -> (r: Result<(), ReadRefusal>)
    ensures
        is_image && len > MAX_IMAGE_SIZE ==> (r matches Err(ReadRefusal::ImageTooLarge { len: l })
            && l == len),
        !is_image && len > max_file_size ==> (r matches Err(ReadRefusal::FileTooLarge { len: l, max: m })
            && l == len && m == max_file_size),
        (is_image && len <= MAX_IMAGE_SIZE) || (!is_image && len <= max_file_size) ==> r is Ok,
{
    if is_image {
        if len > MAX_IMAGE_SIZE {
            return Err(ReadRefusal::ImageTooLarge { len });
        }
    } else if len > max_file_size {
        return Err(ReadRefusal::FileTooLarge { len, max: max_file_size });
    }
    Ok(())
}

/// The text shown before an image: `[Image: <path> (<n> bytes)]`.
pub fn image_caption(path: &str, len: usize) -> (r: String)
    ensures
        r@ == "[Image: "@ + path@ + " ("@ + decimal(len as nat) + " bytes)]"@,
{
    let mut m = String::from_str("[Image: ");
    m.append(path);
    m.append(" (");
    m.append(u64_to_string(len as u64).as_str());
    m.append(" bytes)]");
    m
}


// ---------------------------------------------------------------------------
// Writing files (`file_write`)

/// Why base64 content could not be decoded (the `base64` crate's
/// `DecodeError`, variant by variant).
#[derive(Debug, Clone, Copy)]
pub enum Base64Failure {
    InvalidByte(usize, u8),
    InvalidLength(usize),
    InvalidLastSymbol(usize, u8),
    InvalidPadding,
}

/// The bytes that standard base64 text `s` stands for, as the `base64`
/// crate decodes it; `None` when it is not valid.
pub uninterp spec fn base64_standard_decoded(s: Seq<char>) -> Option<Seq<u8>>;

/// `STANDARD.decode` of the `base64` crate: the bytes of the standard,
/// padded base64 text `s` (named by [`base64_standard_decoded`]), or why
/// it is not valid.
#[verifier::external_body]
fn base64_decode(s: &str) -> (r: Result<Vec<u8>, Base64Failure>)
    ensures
        match r {
            Ok(b) => base64_standard_decoded(s@) == Some(b@),
            Err(_) => base64_standard_decoded(s@) is None,
        },
{
    match base64::engine::general_purpose::STANDARD.decode(s) {
        Ok(b) => Ok(b),
        Err(base64::DecodeError::InvalidByte(i, b)) => Err(Base64Failure::InvalidByte(i, b)),
        Err(base64::DecodeError::InvalidLength(n)) => Err(Base64Failure::InvalidLength(n)),
        Err(base64::DecodeError::InvalidLastSymbol(i, b)) => Err(Base64Failure::InvalidLastSymbol(i, b)),
        Err(base64::DecodeError::InvalidPadding) => Err(Base64Failure::InvalidPadding),
    }
}

/// Why a write is refused.
#[derive(Debug)]
pub enum WriteRefusal {
    InvalidBase64(Base64Failure),
    TooLarge { len: usize, max: usize },
}

impl WriteRefusal {
    /// The refusal's message (the decode errors worded as the `base64`
    /// crate's `Display` words them).
    pub fn message(&self) -> (r: String)
        ensures
            match self {
                WriteRefusal::InvalidBase64(Base64Failure::InvalidByte(i, b)) => r@
                    == "Invalid base64 content: "@ + "Invalid symbol "@ + decimal(*b as nat) + ", offset "@
                    + decimal(*i as nat) + "."@,
                WriteRefusal::InvalidBase64(Base64Failure::InvalidLength(n)) => r@
                    == "Invalid base64 content: "@ + "Invalid input length: "@ + decimal(*n as nat),
                WriteRefusal::InvalidBase64(Base64Failure::InvalidLastSymbol(i, b)) => r@
                    == "Invalid base64 content: "@ + "Invalid last symbol "@ + decimal(*b as nat)
                    + ", offset "@ + decimal(*i as nat) + "."@,
                WriteRefusal::InvalidBase64(Base64Failure::InvalidPadding) => r@
                    == "Invalid base64 content: "@ + "Invalid padding"@,
                WriteRefusal::TooLarge { len, max } => r@ == "Content too large: "@ + decimal(
                    *len as nat,
                ) + " bytes (max: "@ + decimal(*max as nat) + ")"@,
            },
    {
        match self {
            WriteRefusal::InvalidBase64(f) => {
                let mut m = String::from_str("Invalid base64 content: ");
                match f {
                    Base64Failure::InvalidByte(i, b) => {
                        m.append("Invalid symbol ");
                        m.append(u64_to_string(*b as u64).as_str());
                        m.append(", offset ");
                        m.append(u64_to_string(*i as u64).as_str());
                        m.append(".");
                        assert(m@ =~= "Invalid base64 content: "@ + "Invalid symbol "@ + decimal(*b as nat)
                            + ", offset "@ + decimal(*i as nat) + "."@);
                    },
                    Base64Failure::InvalidLength(n) => {
                        m.append("Invalid input length: ");
                        m.append(u64_to_string(*n as u64).as_str());
                    },
                    Base64Failure::InvalidLastSymbol(i, b) => {
                        m.append("Invalid last symbol ");
                        m.append(u64_to_string(*b as u64).as_str());
                        m.append(", offset ");
                        m.append(u64_to_string(*i as u64).as_str());
                        m.append(".");
                        assert(m@ =~= "Invalid base64 content: "@ + "Invalid last symbol "@ + decimal(
                            *b as nat,
                        ) + ", offset "@ + decimal(*i as nat) + "."@);
                    },
                    Base64Failure::InvalidPadding => {
                        m.append("Invalid padding");
                    },
                }
                m
            },
            WriteRefusal::TooLarge { len, max } => {
                let mut m = String::from_str("Content too large: ");
                m.append(u64_to_string(*len as u64).as_str());
                m.append(" bytes (max: ");
                m.append(u64_to_string(*max as u64).as_str());
                m.append(")");
                m
            },
        }
    }
}

/// The bytes a write stores: the base64-decoded content when the encoding
/// is `base64`, else the content's UTF-8 (with its escapes replaced when
/// asked).
pub open spec fn write_bytes_spec(raw: Seq<char>, encoding: Seq<char>, unescape: bool) -> Option<Seq<u8>> {
    if encoding == "base64"@ {
        base64_standard_decoded(raw)
    } else if unescape {
        Some(vstd::utf8::encode_utf8(unescaped(raw)))
    } else {
        Some(vstd::utf8::encode_utf8(raw))
    }
}

/// The bytes a write stores (see [`write_bytes_spec`]), refused when they
/// are more than `max_file_size`.
pub fn write_bytes(raw: &str, encoding: &str, unescape: bool, max_file_size: usize) -> (r: Result<Vec<u8>, WriteRefusal>)
    ensures
        match write_bytes_spec(raw@, encoding@, unescape) {
            None => r matches Err(WriteRefusal::InvalidBase64(_)),
            Some(b) => if b.len() > max_file_size {
                r matches Err(WriteRefusal::TooLarge { len, max }) && len == b.len() && max == max_file_size
            } else {
                r matches Ok(v) && v@ == b
            },
        },
{
    let bytes: Vec<u8> = if crate::text::same_text(encoding, "base64") {
        match base64_decode(raw) {
            Ok(b) => b,
            Err(f) => {
                return Err(WriteRefusal::InvalidBase64(f));
            },
        }
    } else if unescape {
        let text = unescape_backslash_sequences(raw);
        vstd::slice::slice_to_vec(text.as_str().as_bytes())
    } else {
        vstd::slice::slice_to_vec(raw.as_bytes())
    };
    if bytes.len() > max_file_size {
        return Err(WriteRefusal::TooLarge { len: bytes.len(), max: max_file_size });
    }
    Ok(bytes)
}

/// The report of a write: `Appended` or `Written`, the byte count, the path.
pub fn write_message(append: bool, len: usize, path: &str) -> (r: String)
    ensures
        r@ == (if append {
            "Appended "@
        } else {
            "Written "@
        }) + decimal(len as nat) + " bytes to "@ + path@,
{
    let mut m = if append {
        String::from_str("Appended ")
    } else {
        String::from_str("Written ")
    };
    m.append(u64_to_string(len as u64).as_str());
    m.append(" bytes to ");
    m.append(path);
    m
}

} // verus!
