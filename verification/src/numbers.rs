//! Decimal integer parsing and formatting (`str::parse` / `to_string` for integers).
use vstd::prelude::*;
use crate::text::{chars_of, push_char};

verus! {

/// True when `c` is an ASCII digit.
pub open spec fn is_digit(c: char) -> bool {
    '0' <= c && c <= '9'
}

/// The value of an ASCII digit.
pub open spec fn digit_value(c: char) -> int {
    (c as u32) - ('0' as u32)
}

/// True when every character of `s` is an ASCII digit.
pub open spec fn all_digits(s: Seq<char>) -> bool {
    forall|i: int| 0 <= i < s.len() ==> is_digit(#[trigger] s[i])
}

/// The value of the decimal numeral `s` (most significant digit first).
pub open spec fn digits_value(s: Seq<char>) -> nat
    decreases s.len(),
{
    if s.len() == 0 {
        0
    } else {
        (digits_value(s.drop_last()) * 10 + digit_value(s.last())) as nat
    }
}

/// The numeral of an unsigned parse: `s` without one optional leading `+`.
pub open spec fn unsigned_body(s: Seq<char>) -> Seq<char> {
    if s.len() > 0 && s[0] == '+' {
        s.drop_first()
    } else {
        s
    }
}

/// `str::parse` for an unsigned integer type whose largest value is `max`:
/// an optional `+`, then one or more ASCII digits, with a value of at most `max`.
pub open spec fn parse_unsigned(s: Seq<char>, max: int) -> Option<nat> {
    let body = unsigned_body(s);
    if body.len() > 0 && all_digits(body) && digits_value(body) <= max {
        Some(digits_value(body))
    } else {
        None
    }
}

/// `str::parse` for a signed integer type ranging over `min..=max`: an
/// optional `+` or `-`, then one or more ASCII digits, with a value in range.
pub open spec fn parse_signed(s: Seq<char>, min: int, max: int) -> Option<int> {
    let neg = s.len() > 0 && s[0] == '-';
    let body = if s.len() > 0 && (s[0] == '+' || s[0] == '-') {
        s.drop_first()
    } else {
        s
    };
    if body.len() > 0 && all_digits(body) {
        let v = digits_value(body) as int;
        let signed = if neg {
            -v
        } else {
            v
        };
        if min <= signed && signed <= max {
            Some(signed)
        } else {
            None
        }
    } else {
        None
    }
}

/// `str::parse::<i32>`.
pub open spec fn parse_i32_spec(s: Seq<char>) -> Option<int> {
    parse_signed(s, i32::MIN as int, i32::MAX as int)
}

/// `str::parse::<i64>`.
pub open spec fn parse_i64_spec(s: Seq<char>) -> Option<int> {
    parse_signed(s, i64::MIN as int, i64::MAX as int)
}

/// The decimal numeral of `n`, without leading zeros (`"0"` for zero).
pub open spec fn decimal(n: nat) -> Seq<char>
    decreases n,
{
    if n < 10 {
        seq![digit_char(n)]
    } else {
        decimal(n / 10).push(digit_char(n % 10))
    }
}

/// The ASCII digit of `d` (for `d < 10`).
pub open spec fn digit_char(d: nat) -> char {
    (('0' as u32) + d) as char
}

/// The decimal numeral of `n` with a leading `-` when negative.
pub open spec fn decimal_signed(n: int) -> Seq<char> {
    if n < 0 {
        seq!['-'] + decimal((-n) as nat)
    } else {
        decimal(n as nat)
    }
}

proof fn lemma_digits_value_push(s: Seq<char>, c: char)
    requires
        is_digit(c),
    ensures
        digits_value(s.push(c)) == digits_value(s) * 10 + digit_value(c),
{
    assert(s.push(c).drop_last() =~= s);
}

proof fn lemma_digits_value_mono(s: Seq<char>, t: Seq<char>)
    requires
        all_digits(t),
    ensures
        digits_value(s + t) >= digits_value(s),
    decreases t.len(),
{
    if t.len() == 0 {
        assert(s + t =~= s);
    } else {
        let t2 = t.drop_last();
        assert((s + t).drop_last() =~= s + t2);
        assert(all_digits(t2)) by {
            assert forall|i: int| 0 <= i < t2.len() implies is_digit(#[trigger] t2[i]) by {
                assert(t2[i] == t[i]);
            }
        }
        lemma_digits_value_mono(s, t2);
        assert(is_digit(t[t.len() - 1]));
        assert((s + t).last() == t.last());
    }
}

/// Value of the digits `cs[from..]`, or `None` past `max`.
fn digits_upto(cs: &Vec<char>, from: usize, max: u64) -> (r: Option<u64>)
    requires
        from <= cs.len(),
    ensures
        match r {
            Some(v) => from < cs.len() && all_digits(cs@.skip(from as int)) && v == digits_value(
                cs@.skip(from as int),
            ) && v <= max,
            None => !(from < cs.len() && all_digits(cs@.skip(from as int)) && digits_value(
                cs@.skip(from as int),
            ) <= max),
        },
{
    if from == cs.len() {
        return None;
    }
    let ghost body = cs@.skip(from as int);
    let mut v: u64 = 0;
    let mut i = from;
    while i < cs.len()
        invariant
            from <= i <= cs.len(),
            body == cs@.skip(from as int),
            all_digits(cs@.subrange(from as int, i as int)),
            v == digits_value(cs@.subrange(from as int, i as int)),
            v <= max,
        decreases cs.len() - i,
    {
        let c = cs[i];
        if !('0' <= c && c <= '9') {
            proof {
                assert(body[i - from] == c);
                assert(!all_digits(body));
            }
            return None;
        }
        let d = (c as u32 - '0' as u32) as u64;
        proof {
            lemma_digits_value_push(cs@.subrange(from as int, i as int), c);
            assert(cs@.subrange(from as int, i + 1) =~= cs@.subrange(from as int, i as int).push(c));
        }
        if d > max || v > (max - d) / 10 {
            proof {
                assert(v * 10 + d > max) by (nonlinear_arith)
                    requires
                        d > max || v > (max - d) / 10,
                        d <= 9,
                ;
                if all_digits(body) {
                    assert(body =~= cs@.subrange(from as int, i + 1) + cs@.skip(i + 1));
                    assert(all_digits(cs@.skip(i + 1))) by {
                        assert forall|k: int| 0 <= k < cs@.skip(i + 1).len() implies is_digit(
                            #[trigger] cs@.skip(i + 1)[k],
                        ) by {
                            assert(cs@.skip(i + 1)[k] == body[k + i + 1 - from]);
                        }
                    }
                    lemma_digits_value_mono(cs@.subrange(from as int, i + 1), cs@.skip(i + 1));
                }
            }
            return None;
        }
        proof {
            assert(v * 10 + d <= max) by (nonlinear_arith)
                requires
                    v <= (max - d) / 10,
                    d <= 9,
                    v <= max,
            ;
        }
        v = v * 10 + d;
        i += 1;
    }
    assert(cs@.subrange(from as int, i as int) =~= body);
    Some(v)
}

/// `str::parse` for an unsigned integer no larger than `max`.
pub fn parse_unsigned_upto(s: &str, max: u64) -> (r: Option<u64>)
    ensures
        match parse_unsigned(s@, max as int) {
            Some(v) => r == Some(v as u64),
            None => r is None,
        },
{
    let cs = chars_of(s);
    let from: usize = if cs.len() > 0 && cs[0] == '+' {
        1
    } else {
        0
    };
    proof {
        if from == 1 {
            assert(cs@.skip(1) =~= cs@.drop_first());
        } else {
            assert(cs@.skip(0) =~= cs@);
        }
    }
    digits_upto(&cs, from, max)
}

/// `str::parse::<u64>`.
pub fn parse_u64(s: &str) -> (r: Option<u64>)
    ensures
        match parse_unsigned(s@, u64::MAX as int) {
            Some(v) => r == Some(v as u64),
            None => r is None,
        },
{
    parse_unsigned_upto(s, u64::MAX)
}

/// `str::parse::<u32>`.
pub fn parse_u32(s: &str) -> (r: Option<u32>)
    ensures
        match parse_unsigned(s@, u32::MAX as int) {
            Some(v) => r == Some(v as u32),
            None => r is None,
        },
{
    match parse_unsigned_upto(s, u32::MAX as u64) {
        Some(v) => Some(v as u32),
        None => None,
    }
}

/// `str::parse::<u16>`.
pub fn parse_u16(s: &str) -> (r: Option<u16>)
    ensures
        match parse_unsigned(s@, u16::MAX as int) {
            Some(v) => r == Some(v as u16),
            None => r is None,
        },
{
    match parse_unsigned_upto(s, u16::MAX as u64) {
        Some(v) => Some(v as u16),
        None => None,
    }
}

/// `str::parse::<i32>`.
pub fn parse_i32(s: &str) -> (r: Option<i32>)
    ensures
        match parse_i32_spec(s@) {
            Some(v) => r == Some(v as i32),
            None => r is None,
        },
{
    let cs = chars_of(s);
    let signed = cs.len() > 0 && (cs[0] == '+' || cs[0] == '-');
    let neg = cs.len() > 0 && cs[0] == '-';
    let from: usize = if signed {
        1
    } else {
        0
    };
    proof {
        if from == 1 {
            assert(cs@.skip(1) =~= cs@.drop_first());
        } else {
            assert(cs@.skip(0) =~= cs@);
        }
    }
    let limit: u64 = if neg {
        2147483648
    } else {
        2147483647
    };
    match digits_upto(&cs, from, limit) {
        Some(v) => {
            if neg {
                Some((0 - (v as i64)) as i32)
            } else {
                Some(v as i32)
            }
        },
        None => None,
    }
}

/// `str::parse::<i64>`.
pub fn parse_i64(s: &str) -> (r: Option<i64>)
    ensures
        match parse_i64_spec(s@) {
            Some(v) => r == Some(v as i64),
            None => r is None,
        },
{
    let cs = chars_of(s);
    let signed = cs.len() > 0 && (cs[0] == '+' || cs[0] == '-');
    let neg = cs.len() > 0 && cs[0] == '-';
    let from: usize = if signed {
        1
    } else {
        0
    };
    proof {
        if from == 1 {
            assert(cs@.skip(1) =~= cs@.drop_first());
        } else {
            assert(cs@.skip(0) =~= cs@);
        }
    }
    let limit: u64 = if neg {
        9223372036854775808
    } else {
        9223372036854775807
    };
    match digits_upto(&cs, from, limit) {
        Some(v) => {
            if neg {
                if v == 9223372036854775808 {
                    Some(i64::MIN)
                } else {
                    Some(0 - (v as i64))
                }
            } else {
                Some(v as i64)
            }
        },
        None => None,
    }
}

proof fn lemma_decimal_len(n: nat)
    ensures
        decimal(n).len() >= 1,
        n < 10 ==> decimal(n).len() == 1,
    decreases n,
{
    if n >= 10 {
        lemma_decimal_len(n / 10);
    }
}

/// The decimal numeral of `n` (`u64::to_string`).
pub fn u64_to_string(n: u64) -> (r: String)
    ensures
        r@ == decimal(n as nat),
{
    // Digits least significant first, then reversed.
    let mut rev: Vec<char> = Vec::new();
    let mut m = n;
    let ghost mut done: Seq<char> = Seq::empty();
    while m >= 10
        invariant
            decimal(n as nat) == decimal(m as nat) + done,
            forall|k: int|
                0 <= k < rev@.len() ==> #[trigger] rev@[k] == done[done.len() - 1 - k],
            rev@.len() == done.len(),
        decreases m,
    {
        let d = (m % 10) as u32;
        let c = ((('0' as u32) + d) as u8) as char;
        proof {
            assert(c == digit_char((m % 10) as nat));
        }
        let ghost old_done = done;
        rev.push(c);
        proof {
            assert(decimal(m as nat) == decimal((m / 10) as nat).push(c));
            done = seq![c] + old_done;
            assert(decimal(n as nat) =~= decimal((m / 10) as nat) + done);
            assert forall|k: int| 0 <= k < rev@.len() implies #[trigger] rev@[k] == done[done.len()
                - 1 - k] by {
                if k < rev@.len() - 1 {
                    assert(done[done.len() - 1 - k] == old_done[old_done.len() - 1 - k]);
                }
            }
        }
        m = m / 10;
    }
    let d = m as u32;
    let c = ((('0' as u32) + d) as u8) as char;
    proof {
        assert(c == digit_char(m as nat));
        assert(decimal(m as nat) == seq![c]);
    }
    let ghost old_done = done;
    rev.push(c);
    proof {
        done = seq![c] + old_done;
        assert(decimal(n as nat) =~= done);
        assert forall|k: int| 0 <= k < rev@.len() implies #[trigger] rev@[k] == done[done.len() - 1
            - k] by {
            if k < rev@.len() - 1 {
                assert(done[done.len() - 1 - k] == old_done[old_done.len() - 1 - k]);
            }
        }
    }
    let mut out = String::new();
    let mut i = rev.len();
    while i > 0
        invariant
            i <= rev@.len(),
            rev@.len() == done.len(),
            decimal(n as nat) == done,
            forall|k: int|
                0 <= k < rev@.len() ==> #[trigger] rev@[k] == done[done.len() - 1 - k],
            out@ == done.take(rev@.len() - i),
        decreases i,
    {
        i -= 1;
        push_char(&mut out, rev[i]);
        proof {
            assert(rev@[i as int] == done[done.len() - 1 - i]);
            assert(done.take(rev@.len() - i) =~= done.take(rev@.len() - i - 1).push(
                done[done.len() - 1 - i],
            ));
        }
    }
    assert(done.take(rev@.len() as int) =~= done);
    out
}

/// The decimal numeral of `n` with a leading `-` when negative (`i64::to_string`).
pub fn i64_to_string(n: i64) -> (r: String)
    ensures
        r@ == decimal_signed(n as int),
{
    if n < 0 {
        let m: u64 = if n == i64::MIN {
            9223372036854775808u64
        } else {
            (-n) as u64
        };
        let digits = u64_to_string(m);
        let mut out = String::new();
        push_char(&mut out, '-');
        out.append(digits.as_str());
        out
    } else {
        u64_to_string(n as u64)
    }
}

} // verus!
