//! Character-level string helpers shared by the parsers of this crate.
//!
//! Text is modelled as `Seq<char>` (the view of `str` and `String`). The exec
//! helpers here work on `Vec<char>` so that the parsers above them can index
//! characters directly.
use vstd::prelude::*;

verus! {

/// Unicode `White_Space`, the property that `char::is_whitespace`,
/// `str::trim` and `str::split_whitespace` use.
pub open spec fn is_ws(c: char) -> bool {
    let u = c as u32;
    ||| u == 0x20
    ||| (0x09 <= u && u <= 0x0d)
    ||| u == 0x85
    ||| u == 0xa0
    ||| u == 0x1680
    ||| (0x2000 <= u && u <= 0x200a)
    ||| u == 0x2028
    ||| u == 0x2029
    ||| u == 0x202f
    ||| u == 0x205f
    ||| u == 0x3000
}

/// `s` without its leading whitespace.
pub open spec fn skip_ws(s: Seq<char>) -> Seq<char>
    decreases s.len(),
{
    if s.len() > 0 && is_ws(s[0]) {
        skip_ws(s.drop_first())
    } else {
        s
    }
}

/// `s` without its trailing whitespace.
pub open spec fn trim_end_ws(s: Seq<char>) -> Seq<char>
    decreases s.len(),
{
    if s.len() > 0 && is_ws(s.last()) {
        trim_end_ws(s.drop_last())
    } else {
        s
    }
}

/// `str::trim`: `s` without leading and trailing whitespace.
pub open spec fn trim(s: Seq<char>) -> Seq<char> {
    trim_end_ws(skip_ws(s))
}

/// The leading run of non-whitespace characters of `s`.
pub open spec fn take_word(s: Seq<char>) -> Seq<char>
    decreases s.len(),
{
    if s.len() > 0 && !is_ws(s[0]) {
        seq![s[0]] + take_word(s.drop_first())
    } else {
        Seq::empty()
    }
}

/// The first item of `split_whitespace`, or the empty text when there is none.
pub open spec fn first_word(s: Seq<char>) -> Seq<char> {
    take_word(skip_ws(s))
}

/// Pieces of `rest`, the first one continuing `cur`, cut at every character
/// for which `sep` holds (the separators themselves are dropped).
pub open spec fn split_from(cur: Seq<char>, rest: Seq<char>, sep: spec_fn(char) -> bool) -> Seq<
    Seq<char>,
>
    decreases rest.len(),
{
    if rest.len() == 0 {
        seq![cur]
    } else if sep(rest[0]) {
        seq![cur] + split_from(Seq::empty(), rest.drop_first(), sep)
    } else {
        split_from(cur.push(rest[0]), rest.drop_first(), sep)
    }
}

/// `str::split` with a character predicate: the pieces of `s` between separators.
pub open spec fn split_on(s: Seq<char>, sep: spec_fn(char) -> bool) -> Seq<Seq<char>> {
    split_from(Seq::empty(), s, sep)
}

/// The predicate "is one of `seps`".
pub open spec fn one_of(seps: Seq<char>) -> spec_fn(char) -> bool {
    |c: char| seps.contains(c)
}

/// `str::split` on any of the characters `seps`.
pub open spec fn split_any(s: Seq<char>, seps: Seq<char>) -> Seq<Seq<char>> {
    split_on(s, one_of(seps))
}

/// True when `s` holds `c`.
pub open spec fn has_char(s: Seq<char>, c: char) -> bool {
    exists|i: int| 0 <= i < s.len() && s[i] == c
}

/// True when `needle` occurs in `s` starting at index `i`.
pub open spec fn occurs_at(s: Seq<char>, needle: Seq<char>, i: int) -> bool {
    0 <= i && i + needle.len() <= s.len() && s.subrange(i, i + needle.len()) == needle
}

/// `str::contains` for a text needle.
pub open spec fn contains_seq(s: Seq<char>, needle: Seq<char>) -> bool {
    exists|i: int| occurs_at(s, needle, i)
}

/// True when `w` is one of the strings of `list`.
pub open spec fn in_list(list: Seq<String>, w: Seq<char>) -> bool {
    exists|i: int| 0 <= i < list.len() && list[i]@ == w
}

/// The views of a sequence of strings.
pub open spec fn views(v: Seq<String>) -> Seq<Seq<char>> {
    v.map_values(|s: String| s@)
}

/// Index of the first `c` in `s`, or -1.
pub open spec fn find_char(s: Seq<char>, c: char) -> int
    decreases s.len(),
{
    if s.len() == 0 {
        -1
    } else if s[0] == c {
        0
    } else {
        let r = find_char(s.drop_first(), c);
        if r < 0 {
            -1
        } else {
            r + 1
        }
    }
}

/// Index of the last `c` in `s`, or -1.
pub open spec fn rfind_char(s: Seq<char>, c: char) -> int
    decreases s.len(),
{
    if s.len() == 0 {
        -1
    } else if s.last() == c {
        s.len() - 1
    } else {
        rfind_char(s.drop_last(), c)
    }
}

pub proof fn lemma_find_char(s: Seq<char>, c: char)
    ensures
        -1 <= find_char(s, c) < s.len(),
        find_char(s, c) == -1 <==> !has_char(s, c),
        find_char(s, c) >= 0 ==> s[find_char(s, c)] == c,
        forall|j: int| 0 <= j < find_char(s, c) ==> s[j] != c,
        find_char(s, c) == -1 ==> forall|j: int| 0 <= j < s.len() ==> s[j] != c,
    decreases s.len(),
{
    if s.len() > 0 {
        lemma_find_char(s.drop_first(), c);
        if s[0] != c {
            assert forall|j: int| 1 <= j < s.len() implies s[j] == s.drop_first()[j - 1] by {}
            if has_char(s, c) {
                let j = choose|j: int| 0 <= j < s.len() && s[j] == c;
                assert(s.drop_first()[j - 1] == c);
            }
            if has_char(s.drop_first(), c) {
                let j = choose|j: int| 0 <= j < s.drop_first().len() && s.drop_first()[j] == c;
                assert(s[j + 1] == c);
            }
        }
    }
}

pub proof fn lemma_rfind_char(s: Seq<char>, c: char)
    ensures
        -1 <= rfind_char(s, c) < s.len(),
        rfind_char(s, c) == -1 <==> !has_char(s, c),
        rfind_char(s, c) >= 0 ==> s[rfind_char(s, c)] == c,
        forall|j: int| rfind_char(s, c) < j < s.len() ==> s[j] != c,
    decreases s.len(),
{
    if s.len() > 0 {
        lemma_rfind_char(s.drop_last(), c);
        if s.last() != c {
            if has_char(s, c) {
                let j = choose|j: int| 0 <= j < s.len() && s[j] == c;
                assert(s.drop_last()[j] == c);
            }
            if has_char(s.drop_last(), c) {
                let j = choose|j: int| 0 <= j < s.drop_last().len() && s.drop_last()[j] == c;
                assert(s[j] == c);
            }
            assert forall|j: int| rfind_char(s, c) < j < s.len() implies s[j] != c by {
                if j < s.len() - 1 {
                    assert(s[j] == s.drop_last()[j]);
                }
            }
        }
    }
}

/// Index of the first `c` in `cs` (`str::find`).
pub fn find_char_vec(cs: &Vec<char>, c: char) -> (r: Option<usize>)
    ensures
        match r {
            Some(i) => i == find_char(cs@, c),
            None => find_char(cs@, c) == -1,
        },
{
    let mut i: usize = 0;
    while i < cs.len()
        invariant
            i <= cs.len(),
            forall|k: int| 0 <= k < i ==> cs@[k] != c,
        decreases cs.len() - i,
    {
        if cs[i] == c {
            proof {
                assert(cs@[i as int] == c);
                assert(has_char(cs@, c));
                lemma_find_char(cs@, c);
                let f = find_char(cs@, c);
                if f < i {
                    assert(cs@[f] == c);
                }
            }
            return Some(i);
        }
        i += 1;
    }
    proof {
        lemma_find_char(cs@, c);
        if find_char(cs@, c) >= 0 {
            assert(cs@[find_char(cs@, c)] == c);
        }
    }
    None
}

/// Index of the last `c` in `cs` (`str::rfind`).
pub fn rfind_char_vec(cs: &Vec<char>, c: char) -> (r: Option<usize>)
    ensures
        match r {
            Some(i) => i == rfind_char(cs@, c),
            None => rfind_char(cs@, c) == -1,
        },
{
    let mut i: usize = cs.len();
    while i > 0
        invariant
            i <= cs.len(),
            forall|k: int| i <= k < cs.len() ==> cs@[k] != c,
        decreases i,
    {
        if cs[i - 1] == c {
            proof {
                assert(cs@[i - 1] == c);
                assert(has_char(cs@, c));
                lemma_rfind_char(cs@, c);
                let f = rfind_char(cs@, c);
                if f > i - 1 {
                    assert(cs@[f] == c);
                }
            }
            return Some(i - 1);
        }
        i -= 1;
    }
    proof {
        lemma_rfind_char(cs@, c);
        if rfind_char(cs@, c) >= 0 {
            assert(cs@[rfind_char(cs@, c)] == c);
        }
    }
    None
}

/// The UTF-8 length of `s` in bytes (`str::len`).
pub open spec fn utf8_len(s: Seq<char>) -> nat {
    vstd::utf8::encode_utf8(s).len()
}

/// The UTF-8 width of `c` in bytes.
pub open spec fn char_width(c: char) -> nat {
    vstd::utf8::encode_scalar(c as u32).len()
}

/// The UTF-8 width of `c` in bytes (`char::len_utf8`).
pub fn char_len_utf8(c: char) -> (r: usize)
    ensures
        r == char_width(c),
        1 <= r <= 4,
{
    let u = c as u32;
    proof {
        vstd::utf8::char_is_scalar(c);
    }
    if u <= 0x7f {
        1
    } else if u <= 0x7ff {
        2
    } else if u <= 0xffff {
        3
    } else {
        4
    }
}

/// Appends `c` to `s` (`String::push`).
#[verifier::external_body]
pub fn push_char(s: &mut String, c: char)
    ensures
        final(s)@ == old(s)@.push(c),
{
    s.push(c);
}

/// The characters of `s`, in order.
pub fn chars_of(s: &str) -> (r: Vec<char>)
    ensures
        r@ == s@,
{
    let mut out: Vec<char> = Vec::new();
    for c in it: s.chars()
        invariant
            it.seq() == s@,
            out@ == it.seq().take(it.index() as int),
    {
        out.push(c);
    }
    out
}

/// The string made of the characters `cs[from..to]`.
pub fn string_of_range(cs: &Vec<char>, from: usize, to: usize) -> (r: String)
    requires
        from <= to <= cs.len(),
    ensures
        r@ == cs@.subrange(from as int, to as int),
{
    let mut out = String::new();
    let mut i = from;
    while i < to
        invariant
            from <= i <= to <= cs.len(),
            out@ == cs@.subrange(from as int, i as int),
        decreases to - i,
    {
        push_char(&mut out, cs[i]);
        assert(cs@.subrange(from as int, i + 1) == cs@.subrange(from as int, i as int).push(
            cs@[i as int],
        ));
        i += 1;
    }
    out
}

/// The string made of the characters `cs`.
pub fn string_of(cs: &Vec<char>) -> (r: String)
    ensures
        r@ == cs@,
{
    let r = string_of_range(cs, 0, cs.len());
    assert(cs@.subrange(0, cs@.len() as int) == cs@);
    r
}

/// A copy of `s` followed by the characters of `t`.
pub fn concat(s: &str, t: &str) -> (r: String)
    ensures
        r@ == s@ + t@,
{
    let mut out = s.to_owned();
    out.append(t);
    out
}

/// Appends the characters `cs` to `out`.
pub fn append_chars(out: &mut String, cs: &Vec<char>)
    ensures
        final(out)@ == old(out)@ + cs@,
{
    let mut i: usize = 0;
    while i < cs.len()
        invariant
            i <= cs.len(),
            out@ == old(out)@ + cs@.take(i as int),
        decreases cs.len() - i,
    {
        push_char(out, cs[i]);
        assert(cs@.take(i + 1) == cs@.take(i as int).push(cs@[i as int]));
        i += 1;
    }
    assert(cs@.take(cs.len() as int) == cs@);
}

/// `char::is_whitespace`.
pub fn is_whitespace(c: char) -> (b: bool)
    ensures
        b == is_ws(c),
{
    let u = c as u32;
    u == 0x20 || (0x09 <= u && u <= 0x0d) || u == 0x85 || u == 0xa0 || u == 0x1680 || (0x2000
        <= u && u <= 0x200a) || u == 0x2028 || u == 0x2029 || u == 0x202f || u == 0x205f || u
        == 0x3000
}

pub proof fn lemma_skip_drop_first<A>(s: Seq<A>, i: int)
    requires
        0 <= i < s.len(),
    ensures
        s.skip(i).drop_first() == s.skip(i + 1),
        s.skip(i)[0] == s[i],
{
    assert(s.skip(i).drop_first() =~= s.skip(i + 1));
}

/// Index of the first non-whitespace character of `cs` at or after `from`.
pub fn skip_ws_from(cs: &Vec<char>, from: usize) -> (r: usize)
    requires
        from <= cs.len(),
    ensures
        from <= r <= cs.len(),
        skip_ws(cs@.skip(from as int)) == cs@.skip(r as int),
        forall|k: int| from <= k < r ==> is_ws(#[trigger] cs@[k]),
{
    let mut i = from;
    while i < cs.len() && is_whitespace(cs[i])
        invariant
            from <= i <= cs.len(),
            skip_ws(cs@.skip(from as int)) == skip_ws(cs@.skip(i as int)),
            forall|k: int| from <= k < i ==> is_ws(#[trigger] cs@[k]),
        decreases cs.len() - i,
    {
        proof {
            lemma_skip_drop_first(cs@, i as int);
        }
        i += 1;
    }
    proof {
        if i < cs.len() {
            lemma_skip_drop_first(cs@, i as int);
        }
    }
    i
}

/// Index just past the run of non-whitespace characters starting at `from`.
pub fn word_end(cs: &Vec<char>, from: usize) -> (r: usize)
    requires
        from <= cs.len(),
    ensures
        from <= r <= cs.len(),
        take_word(cs@.skip(from as int)) == cs@.subrange(from as int, r as int),
        r < cs.len() ==> is_ws(cs@[r as int]),
{
    let mut j = from;
    while j < cs.len() && !is_whitespace(cs[j])
        invariant
            from <= j <= cs.len(),
            take_word(cs@.skip(from as int)) == cs@.subrange(from as int, j as int) + take_word(
                cs@.skip(j as int),
            ),
        decreases cs.len() - j,
    {
        proof {
            lemma_skip_drop_first(cs@, j as int);
            assert(cs@.subrange(from as int, j + 1) =~= cs@.subrange(from as int, j as int)
                + seq![cs@[j as int]]);
        }
        j += 1;
    }
    proof {
        if j < cs.len() {
            lemma_skip_drop_first(cs@, j as int);
        }
        assert(cs@.subrange(from as int, j as int) + Seq::<char>::empty() =~= cs@.subrange(
            from as int,
            j as int,
        ));
    }
    j
}

/// Index just past the last non-whitespace character of `cs[from..]`
/// (`from` when there is none).
pub fn trim_end_at(cs: &Vec<char>, from: usize) -> (r: usize)
    requires
        from <= cs.len(),
    ensures
        from <= r <= cs.len(),
        trim_end_ws(cs@.subrange(from as int, cs@.len() as int)) == cs@.subrange(
            from as int,
            r as int,
        ),
{
    let mut j = cs.len();
    while j > from && is_whitespace(cs[j - 1])
        invariant
            from <= j <= cs.len(),
            trim_end_ws(cs@.subrange(from as int, cs@.len() as int)) == trim_end_ws(
                cs@.subrange(from as int, j as int),
            ),
        decreases j,
    {
        assert(cs@.subrange(from as int, j as int).drop_last() =~= cs@.subrange(
            from as int,
            j - 1,
        ));
        j -= 1;
    }
    j
}

/// `str::trim`.
pub fn trim_str(s: &str) -> (r: String)
    ensures
        r@ == trim(s@),
{
    let cs = chars_of(s);
    let i = skip_ws_from(&cs, 0);
    assert(cs@.skip(0) =~= cs@);
    assert(cs@.skip(i as int) =~= cs@.subrange(i as int, cs@.len() as int));
    let j = trim_end_at(&cs, i);
    string_of_range(&cs, i, j)
}

/// The first whitespace-separated word of `cs` (empty when there is none).
pub fn first_word_of(cs: &Vec<char>) -> (r: Vec<char>)
    ensures
        r@ == first_word(cs@),
{
    let i = skip_ws_from(cs, 0);
    assert(cs@.skip(0) =~= cs@);
    let j = word_end(cs, i);
    let mut out: Vec<char> = Vec::new();
    let mut k = i;
    while k < j
        invariant
            i <= k <= j <= cs.len(),
            out@ == cs@.subrange(i as int, k as int),
        decreases j - k,
    {
        out.push(cs[k]);
        assert(cs@.subrange(i as int, k + 1) =~= cs@.subrange(i as int, k as int).push(
            cs@[k as int],
        ));
        k += 1;
    }
    out
}

/// True when `cs` holds `c`.
pub fn has_char_vec(cs: &Vec<char>, c: char) -> (b: bool)
    ensures
        b == has_char(cs@, c),
{
    let mut i: usize = 0;
    while i < cs.len()
        invariant
            i <= cs.len(),
            forall|k: int| 0 <= k < i ==> cs@[k] != c,
        decreases cs.len() - i,
    {
        if cs[i] == c {
            return true;
        }
        i += 1;
    }
    false
}

/// True when the two characters `a`, `b` occur next to each other in `cs`.
pub fn has_pair(cs: &Vec<char>, a: char, b: char) -> (r: bool)
    ensures
        r == contains_seq(cs@, seq![a, b]),
{
    let mut i: usize = 0;
    while i < cs.len() && i + 1 < cs.len()
        invariant
            i <= cs.len(),
            forall|k: int| 0 <= k < i && k + 1 < cs.len() ==> !(#[trigger] cs@[k] == a && cs@[k + 1] == b),
        decreases cs.len() - i,
    {
        if cs[i] == a && cs[i + 1] == b {
            assert(occurs_at(cs@, seq![a, b], i as int)) by {
                assert(cs@.subrange(i as int, i + 2) =~= seq![a, b]);
            }
            return true;
        }
        i += 1;
    }
    assert forall|k: int| !occurs_at(cs@, seq![a, b], k) by {
        if occurs_at(cs@, seq![a, b], k) {
            assert(cs@.subrange(k, k + 2)[0] == a);
            assert(cs@.subrange(k, k + 2)[1] == b);
        }
    }
    false
}

/// A split always yields at least one piece.
pub proof fn lemma_split_nonempty(cur: Seq<char>, rest: Seq<char>, sep: spec_fn(char) -> bool)
    ensures
        split_from(cur, rest, sep).len() >= 1,
    decreases rest.len(),
{
    if rest.len() > 0 {
        if sep(rest[0]) {
            lemma_split_nonempty(Seq::empty(), rest.drop_first(), sep);
        } else {
            lemma_split_nonempty(cur.push(rest[0]), rest.drop_first(), sep);
        }
    }
}

/// Leading whitespace of `x + y`: that of `x` when `x` has a non-blank
/// character, else `x` is skipped whole and then that of `y`.
pub proof fn lemma_skip_ws_concat(x: Seq<char>, y: Seq<char>)
    ensures
        skip_ws(x + y) == if skip_ws(x).len() > 0 {
            skip_ws(x) + y
        } else {
            skip_ws(y)
        },
    decreases x.len(),
{
    if x.len() == 0 {
        assert(x + y =~= y);
    } else {
        assert((x + y)[0] == x[0]);
        if is_ws(x[0]) {
            assert((x + y).drop_first() =~= x.drop_first() + y);
            lemma_skip_ws_concat(x.drop_first(), y);
        }
    }
}

/// The leading word of `x + y`, when `y` starts with whitespace, is that of `x`.
pub proof fn lemma_take_word_concat(x: Seq<char>, y: Seq<char>)
    requires
        y.len() > 0,
        is_ws(y[0]),
    ensures
        take_word(x + y) == take_word(x),
    decreases x.len(),
{
    if x.len() == 0 {
        assert(x + y =~= y);
    } else {
        assert((x + y)[0] == x[0]);
        if !is_ws(x[0]) {
            assert((x + y).drop_first() =~= x.drop_first() + y);
            lemma_take_word_concat(x.drop_first(), y);
        }
    }
}

/// A blank text has nothing left after its leading whitespace.
pub proof fn lemma_skip_ws_blank(y: Seq<char>)
    requires
        forall|k: int| 0 <= k < y.len() ==> is_ws(#[trigger] y[k]),
    ensures
        skip_ws(y).len() == 0,
    decreases y.len(),
{
    if y.len() > 0 {
        assert(is_ws(y[0]));
        assert forall|k: int| 0 <= k < y.drop_first().len() implies is_ws(#[trigger] y.drop_first()[k]) by {
            assert(y.drop_first()[k] == y[k + 1]);
        }
        lemma_skip_ws_blank(y.drop_first());
    }
}

/// Whitespace after a text does not change its first word.
pub proof fn lemma_first_word_blank_suffix(x: Seq<char>, y: Seq<char>)
    requires
        y.len() > 0,
        forall|k: int| 0 <= k < y.len() ==> is_ws(#[trigger] y[k]),
    ensures
        first_word(x + y) == first_word(x),
{
    lemma_skip_ws_concat(x, y);
    assert(is_ws(y[0]));
    if skip_ws(x).len() > 0 {
        lemma_take_word_concat(skip_ws(x), y);
    } else {
        lemma_skip_ws_blank(y);
        assert(skip_ws(x) =~= Seq::<char>::empty());
        assert(skip_ws(y) =~= Seq::<char>::empty());
    }
}

/// A text that has a first word keeps it when more text follows after
/// whitespace.
pub proof fn lemma_first_word_then_ws(x: Seq<char>, y: Seq<char>)
    requires
        first_word(x).len() > 0,
        y.len() > 0,
        is_ws(y[0]),
    ensures
        first_word(x + y) == first_word(x),
{
    lemma_skip_ws_concat(x, y);
    if skip_ws(x).len() == 0 {
        assert(skip_ws(x) =~= Seq::<char>::empty());
    }
    lemma_take_word_concat(skip_ws(x), y);
}

/// Whitespace before a text does not change its first word.
pub proof fn lemma_first_word_ws_prefix(w: char, x: Seq<char>)
    requires
        is_ws(w),
    ensures
        first_word(seq![w] + x) == first_word(x),
{
    assert((seq![w] + x)[0] == w);
    assert((seq![w] + x).drop_first() =~= x);
}

/// Splitting with a started piece `cur` gives the pieces of a fresh split,
/// with `cur` in front of the first.
pub proof fn lemma_split_prefix(cur: Seq<char>, b: Seq<char>, sep: spec_fn(char) -> bool)
    ensures
        split_from(Seq::empty(), b, sep).len() >= 1,
        split_from(cur, b, sep) == split_from(Seq::empty(), b, sep).update(
            0,
            cur + split_from(Seq::empty(), b, sep)[0],
        ),
    decreases b.len(),
{
    lemma_split_nonempty(Seq::empty(), b, sep);
    if b.len() == 0 {
        assert(cur + Seq::<char>::empty() =~= cur);
        assert(seq![Seq::<char>::empty()].update(0, cur) =~= seq![cur]);
    } else {
        let b2 = b.drop_first();
        let t = split_from(Seq::<char>::empty(), b2, sep);
        lemma_split_nonempty(Seq::empty(), b2, sep);
        if sep(b[0]) {
            assert(cur + Seq::<char>::empty() =~= cur);
            assert((seq![Seq::<char>::empty()] + t).update(0, cur) =~= seq![cur] + t);
        } else {
            lemma_split_prefix(cur.push(b[0]), b2, sep);
            lemma_split_prefix(Seq::<char>::empty().push(b[0]), b2, sep);
            assert(cur + (Seq::<char>::empty().push(b[0]) + t[0]) =~= cur.push(b[0]) + t[0]);
            assert(t.update(0, Seq::<char>::empty().push(b[0]) + t[0]).update(
                0,
                cur + (Seq::<char>::empty().push(b[0]) + t[0]),
            ) =~= t.update(0, cur.push(b[0]) + t[0]));
        }
    }
}

/// The first `c` of `x + [c] + y`, when `x` has none, is the one after `x`.
pub proof fn lemma_find_first(x: Seq<char>, c: char, y: Seq<char>)
    requires
        !has_char(x, c),
    ensures
        has_char(x + seq![c] + y, c),
        find_char(x + seq![c] + y, c) == x.len(),
{
    let s = x + seq![c] + y;
    lemma_find_char(s, c);
    assert(s[x.len() as int] == c);
    let f = find_char(s, c);
    if f < x.len() {
        assert(s[f] == x[f]);
    }
}

/// Splitting `a + rest` continues, after the pieces of `a`, from the last
/// (still open) piece of `a`.
pub proof fn lemma_split_concat(cur: Seq<char>, a: Seq<char>, rest: Seq<char>, sep: spec_fn(char) -> bool)
    ensures
        split_from(cur, a + rest, sep) == split_from(cur, a, sep).drop_last() + split_from(
            split_from(cur, a, sep).last(),
            rest,
            sep,
        ),
    decreases a.len(),
{
    if a.len() == 0 {
        assert(a + rest =~= rest);
        assert(split_from(cur, a, sep) =~= seq![cur]);
        assert(seq![cur].drop_last() + split_from(cur, rest, sep) =~= split_from(cur, rest, sep));
    } else {
        let a2 = a.drop_first();
        assert((a + rest).drop_first() =~= a2 + rest);
        assert((a + rest)[0] == a[0]);
        if sep(a[0]) {
            lemma_split_concat(Seq::empty(), a2, rest, sep);
            lemma_split_nonempty(Seq::empty(), a2, sep);
            let t = split_from(Seq::empty(), a2, sep);
            let x = split_from(t.last(), rest, sep);
            assert((seq![cur] + t).drop_last() =~= seq![cur] + t.drop_last());
            assert((seq![cur] + t).last() == t.last());
            assert(seq![cur] + (t.drop_last() + x) =~= (seq![cur] + t.drop_last()) + x);
        } else {
            lemma_split_concat(cur.push(a[0]), a2, rest, sep);
        }
    }
}

/// A text with no separator is a single piece.
pub proof fn lemma_split_plain(cur: Seq<char>, a: Seq<char>, sep: spec_fn(char) -> bool)
    requires
        forall|k: int| 0 <= k < a.len() ==> !sep(#[trigger] a[k]),
    ensures
        split_from(cur, a, sep) == seq![cur + a],
    decreases a.len(),
{
    if a.len() == 0 {
        assert(cur + a =~= cur);
    } else {
        let a2 = a.drop_first();
        assert(!sep(a[0]));
        assert forall|k: int| 0 <= k < a2.len() implies !sep(#[trigger] a2[k]) by {
            assert(a2[k] == a[k + 1]);
        }
        lemma_split_plain(cur.push(a[0]), a2, sep);
        assert(cur.push(a[0]) + a2 =~= cur + a);
    }
}

/// Splitting at a separator between `a` and `b` gives the pieces of `a`
/// followed by the pieces of `b`.
pub proof fn lemma_split_at_sep(a: Seq<char>, c: char, b: Seq<char>, sep: spec_fn(char) -> bool)
    requires
        sep(c),
    ensures
        split_on(a + seq![c] + b, sep) == split_on(a, sep) + split_on(b, sep),
{
    let rest = seq![c] + b;
    assert(a + seq![c] + b =~= a + rest);
    lemma_split_concat(Seq::empty(), a, rest, sep);
    lemma_split_nonempty(Seq::empty(), a, sep);
    let t = split_on(a, sep);
    assert(rest[0] == c);
    assert(rest.drop_first() =~= b);
    assert(split_from(t.last(), rest, sep) == seq![t.last()] + split_from(Seq::empty(), b, sep));
    assert(t.drop_last() + (seq![t.last()] + split_on(b, sep)) =~= t + split_on(b, sep));
}

/// The pieces of `cs` between characters of `seps`, as strings (`str::split`).
pub fn split_any_vec(cs: &Vec<char>, seps: &Vec<char>) -> (r: Vec<String>)
    ensures
        views(r@) == split_any(cs@, seps@),
{
    let ghost sep = one_of(seps@);
    let mut out: Vec<String> = Vec::new();
    let mut cur: Vec<char> = Vec::new();
    let mut i: usize = 0;
    assert(cs@.skip(0) =~= cs@);
    assert(views(out@) =~= Seq::<Seq<char>>::empty());
    assert(views(out@) + split_from(cur@, cs@.skip(0), sep) =~= split_from(cur@, cs@.skip(0), sep));
    while i < cs.len()
        invariant
            i <= cs.len(),
            sep == one_of(seps@),
            split_on(cs@, sep) == views(out@) + split_from(cur@, cs@.skip(i as int), sep),
        decreases cs.len() - i,
    {
        proof {
            lemma_skip_drop_first(cs@, i as int);
        }
        let c = cs[i];
        if has_char_vec(seps, c) {
            let piece = string_of(&cur);
            proof {
                assert(sep(c));
                assert(views(out@.push(piece)) =~= views(out@).push(cur@));
                assert(views(out@) + split_from(cur@, cs@.skip(i as int), sep) =~= views(
                    out@.push(piece),
                ) + split_from(Seq::empty(), cs@.skip(i + 1), sep));
            }
            out.push(piece);
            cur = Vec::new();
        } else {
            proof {
                assert(!sep(c));
            }
            cur.push(c);
        }
        i += 1;
    }
    let piece = string_of(&cur);
    proof {
        assert(cs@.skip(i as int).len() == 0);
        assert(views(out@.push(piece)) =~= views(out@) + seq![cur@]);
    }
    out.push(piece);
    out
}

/// True when some string of `list` has the characters `w`.
pub fn list_contains(list: &Vec<String>, w: &String) -> (b: bool)
    ensures
        b == in_list(list@, w@),
{
    let mut i: usize = 0;
    while i < list.len()
        invariant
            i <= list.len(),
            forall|k: int| 0 <= k < i ==> list@[k]@ != w@,
        decreases list.len() - i,
    {
        if list[i] == *w {
            return true;
        }
        i += 1;
    }
    false
}

/// The pairs' texts.
pub open spec fn pair_views(v: Seq<(String, String)>) -> Seq<(Seq<char>, Seq<char>)> {
    v.map_values(|p: (String, String)| (p.0@, p.1@))
}

/// Appends the pair `(k, v)`.
pub fn push_pair(out: &mut Vec<(String, String)>, k: &str, v: String)
    ensures
        pair_views(final(out)@) == pair_views(old(out)@).push((k@, v@)),
{
    let ghost before = out@;
    out.push((k.to_owned(), v));
    assert(pair_views(out@) =~= pair_views(before).push((k@, v@)));
}

/// Whether `s` is the text `w`.
pub fn same_text(s: &str, w: &str) -> (r: bool)
    ensures
        r == (s@ == w@),
{
    let a = String::from_str(s);
    let b = String::from_str(w);
    a == b
}

/// The characters `cs[from..to]`.
pub fn slice_chars(cs: &Vec<char>, from: usize, to: usize) -> (r: Vec<char>)
    requires
        from <= to <= cs@.len(),
    ensures
        r@ == cs@.subrange(from as int, to as int),
{
    let mut out: Vec<char> = Vec::new();
    let mut i = from;
    while i < to
        invariant
            from <= i <= to <= cs@.len(),
            out@ == cs@.subrange(from as int, i as int),
        decreases to - i,
    {
        out.push(cs[i]);
        proof {
            assert(out@ =~= cs@.subrange(from as int, i + 1));
        }
        i = i + 1;
    }
    out
}


/// The longest prefix of `s` whose UTF-8 encoding fits in `n` bytes.
pub open spec fn take_bytes(s: Seq<char>, n: int) -> Seq<char>
    decreases s.len(),
{
    if s.len() == 0 || char_width(s[0]) > n {
        Seq::empty()
    } else {
        seq![s[0]] + take_bytes(s.drop_first(), n - char_width(s[0]))
    }
}

/// The longest prefix of `s` whose UTF-8 encoding fits in `n` bytes (the
/// whole of `&s[..n]` when `n` falls on a character boundary).
pub fn prefix_bytes(s: &str, n: usize) -> (r: String)
    ensures
        r@ == take_bytes(s@, n as int),
{
    let cs = chars_of(s);
    let mut out = String::new();
    let mut i: usize = 0;
    let mut left: usize = n;
    assert(cs@.skip(0) =~= cs@);
    while i < cs.len()
        invariant
            i <= cs@.len(),
            cs@ == s@,
            out@ + take_bytes(cs@.skip(i as int), left as int) == take_bytes(s@, n as int),
        decreases cs.len() - i,
    {
        let w = char_len_utf8(cs[i]);
        proof {
            lemma_skip_drop_first(cs@, i as int);
        }
        if w > left {
            assert(take_bytes(cs@.skip(i as int), left as int) =~= Seq::<char>::empty());
            assert(out@ + Seq::<char>::empty() =~= out@);
            return out;
        }
        let ghost before = out@;
        push_char(&mut out, cs[i]);
        proof {
            assert(out@ + take_bytes(cs@.skip(i + 1), (left - w) as int) =~= before + take_bytes(
                cs@.skip(i as int),
                left as int,
            ));
        }
        left = left - w;
        i = i + 1;
    }
    assert(take_bytes(cs@.skip(i as int), left as int) =~= Seq::<char>::empty());
    assert(out@ + Seq::<char>::empty() =~= out@);
    out
}

/// At most the first `n` characters of `s`.
pub fn prefix_chars(s: &str, n: usize) -> (r: String)
    ensures
        r@ == (if s@.len() <= n {
            s@
        } else {
            s@.take(n as int)
        }),
{
    let cs = chars_of(s);
    let end: usize = if cs.len() <= n {
        cs.len()
    } else {
        n
    };
    let r = string_of_range(&cs, 0, end);
    proof {
        if s@.len() <= n {
            assert(cs@.subrange(0, end as int) =~= s@);
        } else {
            assert(cs@.subrange(0, end as int) =~= s@.take(n as int));
        }
    }
    r
}

} // verus!
