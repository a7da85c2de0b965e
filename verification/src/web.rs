//! Screening of URLs for the web fetch tool: only `http` and `https` URLs
//! whose host is not a loopback, private, link-local or unspecified address
//! (nor `localhost`) may be fetched. Host addresses are read with the textual
//! IPv4 and IPv6 grammar that the standard library accepts.
use vstd::prelude::*;
use crate::file_tools::{ascii_lower, eq_ignore_case};
use crate::numbers::{decimal, decimal_signed, u64_to_string, i64_to_string};
use crate::callback::{lossy_string, utf8_lossy};
use crate::numbers::{all_digits, digits_value, is_digit};
use crate::text::{
    chars_of, find_char, lemma_find_char, lemma_rfind_char, lemma_split_nonempty, rfind_char,
    split_any, split_any_vec, trim, trim_str, views, one_of, find_char_vec, rfind_char_vec,
    string_of_range, slice_chars,
};

verus! {

// ---------------------------------------------------------------------------
// Numerals

/// `b` raised to the power `n`.
pub open spec fn pow_nat(b: nat, n: nat) -> nat
    decreases n,
{
    if n == 0 {
        1
    } else {
        b * pow_nat(b, (n - 1) as nat)
    }
}

/// True when `c` is an ASCII hexadecimal digit (either case).
pub open spec fn is_hex_digit(c: char) -> bool {
    ('0' <= c && c <= '9') || ('a' <= c && c <= 'f') || ('A' <= c && c <= 'F')
}

/// The value of a hexadecimal digit.
pub open spec fn hex_value(c: char) -> nat {
    if '0' <= c && c <= '9' {
        ((c as u32) - ('0' as u32)) as nat
    } else if 'a' <= c && c <= 'f' {
        ((c as u32) - ('a' as u32) + 10) as nat
    } else {
        ((c as u32) - ('A' as u32) + 10) as nat
    }
}

/// The value of the hexadecimal numeral `s`.
pub open spec fn hex_digits_value(s: Seq<char>) -> nat
    decreases s.len(),
{
    if s.len() == 0 {
        0
    } else {
        hex_digits_value(s.drop_last()) * 16 + hex_value(s.last())
    }
}

/// One IPv6 group: one to four hexadecimal digits.
pub open spec fn hex_group(p: Seq<char>) -> Option<u16> {
    if 1 <= p.len() <= 4 && (forall|i: int| 0 <= i < p.len() ==> is_hex_digit(#[trigger] p[i])) {
        Some(hex_digits_value(p) as u16)
    } else {
        None
    }
}

/// One IPv4 octet: one to three decimal digits, no leading zero unless the
/// octet is `0`, and a value of at most 255.
pub open spec fn dec_octet(p: Seq<char>) -> Option<u8> {
    if 1 <= p.len() <= 3 && all_digits(p) && (p.len() == 1 || p[0] != '0') && digits_value(p)
        <= 255 {
        Some(digits_value(p) as u8)
    } else {
        None
    }
}

proof fn lemma_step_bound(v: nat, d: nat, b: nat, p: nat)
    by (nonlinear_arith)
    requires
        v < p,
        d < b,
    ensures
        v * b + d < p * b,
{
}

fn hex_digit_value(c: char) -> (r: Option<u32>)
    ensures
        match r {
            Some(v) => is_hex_digit(c) && v == hex_value(c) && v < 16,
            None => !is_hex_digit(c),
        },
{
    if '0' <= c && c <= '9' {
        Some(c as u32 - '0' as u32)
    } else if 'a' <= c && c <= 'f' {
        Some(c as u32 - 'a' as u32 + 10)
    } else if 'A' <= c && c <= 'F' {
        Some(c as u32 - 'A' as u32 + 10)
    } else {
        None
    }
}

/// Reads one IPv6 group.
fn parse_hex_group(p: &Vec<char>) -> (r: Option<u16>)
    ensures
        r == hex_group(p@),
{
    if p.len() == 0 || p.len() > 4 {
        return None;
    }
    let mut v: u32 = 0;
    let mut i: usize = 0;
    while i < p.len()
        invariant
            1 <= p.len() <= 4,
            i <= p.len(),
            v == hex_digits_value(p@.take(i as int)),
            v < pow_nat(16, i as nat),
            forall|k: int| 0 <= k < i ==> is_hex_digit(#[trigger] p@[k]),
        decreases p.len() - i,
    {
        match hex_digit_value(p[i]) {
            Some(d) => {
                proof {
                    assert(p@.take(i + 1).drop_last() =~= p@.take(i as int));
                    lemma_step_bound(v as nat, d as nat, 16, pow_nat(16, i as nat));
                    reveal_with_fuel(pow_nat, 5);
                    assert(pow_nat(16, (i + 1) as nat) == pow_nat(16, i as nat) * 16);
                    assert(pow_nat(16, 4) == 65536);
                    if i < 3 {
                        assert(pow_nat(16, i as nat) <= 4096) by {
                            reveal_with_fuel(pow_nat, 5);
                        }
                    }
                }
                v = v * 16 + d;
                i = i + 1;
            },
            None => {
                return None;
            },
        }
    }
    proof {
        assert(p@.take(p@.len() as int) =~= p@);
        reveal_with_fuel(pow_nat, 5);
        assert(pow_nat(16, p@.len()) <= 65536);
    }
    Some(v as u16)
}

/// Reads one IPv4 octet.
fn parse_dec_octet(p: &Vec<char>) -> (r: Option<u8>)
    ensures
        r == dec_octet(p@),
{
    if p.len() == 0 || p.len() > 3 {
        return None;
    }
    if p.len() > 1 && p[0] == '0' {
        return None;
    }
    let mut v: u32 = 0;
    let mut i: usize = 0;
    while i < p.len()
        invariant
            1 <= p.len() <= 3,
            i <= p.len(),
            v == digits_value(p@.take(i as int)),
            v < pow_nat(10, i as nat),
            forall|k: int| 0 <= k < i ==> is_digit(#[trigger] p@[k]),
        decreases p.len() - i,
    {
        let c = p[i];
        if !('0' <= c && c <= '9') {
            return None;
        }
        let d = c as u32 - '0' as u32;
        proof {
            assert(p@.take(i + 1).drop_last() =~= p@.take(i as int));
            lemma_step_bound(v as nat, d as nat, 10, pow_nat(10, i as nat));
            reveal_with_fuel(pow_nat, 4);
            assert(pow_nat(10, (i + 1) as nat) == pow_nat(10, i as nat) * 10);
            assert(pow_nat(10, i as nat) <= 100);
        }
        v = v * 10 + d;
        i = i + 1;
    }
    proof {
        assert(p@.take(p@.len() as int) =~= p@);
    }
    if v > 255 {
        None
    } else {
        Some(v as u8)
    }
}

// ---------------------------------------------------------------------------
// Addresses

/// The pieces of `t` between dots.
pub open spec fn dot_pieces(t: Seq<char>) -> Seq<Seq<char>> {
    split_any(t, seq!['.'])
}

/// The pieces of `t` between colons.
pub open spec fn colon_pieces(t: Seq<char>) -> Seq<Seq<char>> {
    split_any(t, seq![':'])
}

/// The octets of the dotted IPv4 address `t`: exactly four octets.
pub open spec fn ipv4_octets(t: Seq<char>) -> Option<Seq<u8>> {
    let ps = dot_pieces(t);
    if ps.len() == 4 && (forall|i: int| 0 <= i < 4 ==> (#[trigger] dec_octet(ps[i])) is Some) {
        Some(Seq::new(4, |i: int| dec_octet(ps[i])->0))
    } else {
        None
    }
}

fn parse_ipv4(cs: &Vec<char>) -> (r: Option<Vec<u8>>)
    ensures
        match r {
            Some(o) => ipv4_octets(cs@) == Some(o@),
            None => ipv4_octets(cs@) is None,
        },
{
    let seps = vec!['.'];
    let pieces = split_any_vec(cs, &seps);
    proof {
        assert(seps@ =~= seq!['.']);
    }
    let ghost ps = views(pieces@);
    if pieces.len() != 4 {
        return None;
    }
    let mut out: Vec<u8> = Vec::new();
    let mut i: usize = 0;
    while i < 4
        invariant
            ps == dot_pieces(cs@),
            ps == views(pieces@),
            pieces@.len() == 4,
            i <= 4,
            out@.len() == i,
            forall|k: int| 0 <= k < i ==> dec_octet(ps[k]) == Some(#[trigger] out@[k]),
        decreases 4 - i,
    {
        let pc = chars_of(pieces[i].as_str());
        match parse_dec_octet(&pc) {
            Some(o) => {
                out.push(o);
            },
            None => {
                assert(dec_octet(ps[i as int]) is None);
                return None;
            },
        }
        i = i + 1;
    }
    proof {
        assert forall|k: int| 0 <= k < 4 implies (#[trigger] dec_octet(ps[k])) is Some by {
            assert(dec_octet(ps[k]) == Some(out@[k]));
        }
        assert(Seq::new(4, |k: int| dec_octet(ps[k])->0) =~= out@);
    }
    Some(out)
}


/// The values of IPv6 groups, when every piece is a group.
pub open spec fn hex_segs(ps: Seq<Seq<char>>) -> Option<Seq<u16>> {
    if forall|i: int| 0 <= i < ps.len() ==> (#[trigger] hex_group(ps[i])) is Some {
        Some(Seq::new(ps.len(), |i: int| hex_group(ps[i])->0))
    } else {
        None
    }
}

/// The two IPv6 groups that an embedded IPv4 address stands for.
pub open spec fn v4_segs(o: Seq<u8>) -> Seq<u16> {
    seq![(o[0] * 256 + o[1]) as u16, (o[2] * 256 + o[3]) as u16]
}

/// The groups of colon-separated pieces of which only the last may be an
/// embedded IPv4 address.
pub open spec fn segs_with_v4(ps: Seq<Seq<char>>) -> Option<Seq<u16>> {
    if hex_segs(ps) is Some {
        hex_segs(ps)
    } else if ps.len() > 0 && hex_segs(ps.drop_last()) is Some && ipv4_octets(ps.last()) is Some {
        Some(hex_segs(ps.drop_last())->0 + v4_segs(ipv4_octets(ps.last())->0))
    } else {
        None
    }
}

/// The first index at or after `i` where `::` starts, or -1.
pub open spec fn double_colon_from(t: Seq<char>, i: int) -> int
    decreases t.len() - i,
{
    if i < 0 || i + 1 >= t.len() {
        -1
    } else if t[i] == ':' && t[i + 1] == ':' {
        i
    } else {
        double_colon_from(t, i + 1)
    }
}

/// The eight groups of the IPv6 address `t`: either eight colon-separated
/// groups (the last two may be written as an IPv4 address), or groups before
/// and after one `::` that stands for at least one zero group, where only the
/// groups after it may end with an IPv4 address.
pub open spec fn ipv6_segments(t: Seq<char>) -> Option<Seq<u16>> {
    let k = double_colon_from(t, 0);
    if k < 0 {
        match segs_with_v4(colon_pieces(t)) {
            Some(a) => if a.len() == 8 {
                Some(a)
            } else {
                None
            },
            None => None,
        }
    } else {
        let h = t.take(k);
        let r = t.skip(k + 2);
        let hs = if h.len() == 0 {
            Some(Seq::<u16>::empty())
        } else {
            hex_segs(colon_pieces(h))
        };
        let rs = if r.len() == 0 {
            Some(Seq::<u16>::empty())
        } else {
            segs_with_v4(colon_pieces(r))
        };
        match (hs, rs) {
            (Some(a), Some(b)) => if a.len() + b.len() <= 7 {
                Some(a + Seq::new((8 - a.len() - b.len()) as nat, |i: int| 0u16) + b)
            } else {
                None
            },
            _ => None,
        }
    }
}

/// Reads the first `n` pieces as IPv6 groups.
fn parse_hex_segs(ps: &Vec<String>, n: usize) -> (r: Option<Vec<u16>>)
    requires
        n <= ps@.len(),
    ensures
        match r {
            Some(a) => hex_segs(views(ps@).take(n as int)) == Some(a@),
            None => hex_segs(views(ps@).take(n as int)) is None,
        },
{
    let ghost vs = views(ps@).take(n as int);
    let mut out: Vec<u16> = Vec::new();
    let mut i: usize = 0;
    while i < n
        invariant
            n <= ps@.len(),
            vs == views(ps@).take(n as int),
            i <= n,
            out@.len() == i,
            forall|k: int| 0 <= k < i ==> hex_group(vs[k]) == Some(#[trigger] out@[k]),
        decreases n - i,
    {
        let pc = chars_of(ps[i].as_str());
        match parse_hex_group(&pc) {
            Some(g) => {
                out.push(g);
            },
            None => {
                assert(hex_group(vs[i as int]) is None);
                return None;
            },
        }
        i = i + 1;
    }
    proof {
        assert forall|k: int| 0 <= k < vs.len() implies (#[trigger] hex_group(vs[k])) is Some by {
            assert(hex_group(vs[k]) == Some(out@[k]));
        }
        assert(Seq::new(vs.len(), |k: int| hex_group(vs[k])->0) =~= out@);
    }
    Some(out)
}

/// Reads colon-separated pieces of which the last may be an IPv4 address.
fn parse_segs_with_v4(ps: &Vec<String>) -> (r: Option<Vec<u16>>)
    ensures
        match r {
            Some(a) => segs_with_v4(views(ps@)) == Some(a@),
            None => segs_with_v4(views(ps@)) is None,
        },
{
    let n = ps.len();
    proof {
        assert(views(ps@).take(n as int) =~= views(ps@));
    }
    match parse_hex_segs(ps, n) {
        Some(a) => {
            return Some(a);
        },
        None => {},
    }
    if n == 0 {
        return None;
    }
    proof {
        assert(views(ps@).take(n - 1) =~= views(ps@).drop_last());
    }
    let head = parse_hex_segs(ps, n - 1);
    match head {
        Some(mut a) => {
            let last = chars_of(ps[n - 1].as_str());
            match parse_ipv4(&last) {
                Some(o) => {
                    let hi: u16 = (o[0] as u16) * 256 + (o[1] as u16);
                    let lo: u16 = (o[2] as u16) * 256 + (o[3] as u16);
                    let ghost a0 = a@;
                    a.push(hi);
                    a.push(lo);
                    proof {
                        assert(o@.len() == 4);
                        assert(a@ =~= a0 + v4_segs(o@));
                    }
                    Some(a)
                },
                None => None,
            }
        },
        None => None,
    }
}

/// Index of the first `::` in `cs`.
fn find_double_colon(cs: &Vec<char>) -> (r: Option<usize>)
    ensures
        match r {
            Some(k) => double_colon_from(cs@, 0) == k && k + 2 <= cs@.len(),
            None => double_colon_from(cs@, 0) < 0,
        },
{
    let mut i: usize = 0;
    while cs.len() > 0 && i < cs.len() - 1
        invariant
            i <= cs.len(),
            double_colon_from(cs@, 0) == double_colon_from(cs@, i as int),
        decreases cs.len() - i,
    {
        if cs[i] == ':' && cs[i + 1] == ':' {
            return Some(i);
        }
        i = i + 1;
    }
    None
}

fn colon_split(cs: &Vec<char>) -> (r: Vec<String>)
    ensures
        views(r@) == colon_pieces(cs@),
{
    let seps = vec![':'];
    proof {
        assert(seps@ =~= seq![':']);
    }
    split_any_vec(cs, &seps)
}

fn parse_ipv6(cs: &Vec<char>) -> (r: Option<Vec<u16>>)
    ensures
        match r {
            Some(a) => ipv6_segments(cs@) == Some(a@),
            None => ipv6_segments(cs@) is None,
        },
{
    match find_double_colon(cs) {
        None => {
            let ps = colon_split(cs);
            match parse_segs_with_v4(&ps) {
                Some(a) => if a.len() == 8 {
                    Some(a)
                } else {
                    None
                },
                None => None,
            }
        },
        Some(k) => {
            assert(k + 2 <= cs@.len());
            assert(cs@.len() == cs.len());
            let h = slice_chars(cs, 0, k);
            let t = slice_chars(cs, k + 2, cs.len());
            proof {
                assert(h@ =~= cs@.take(k as int));
                assert(t@ =~= cs@.skip(k + 2));
            }
            let hs: Vec<u16> = if h.len() == 0 {
                Vec::new()
            } else {
                let hp = colon_split(&h);
                proof {
                    assert(views(hp@).take(hp@.len() as int) =~= views(hp@));
                }
                match parse_hex_segs(&hp, hp.len()) {
                    Some(a) => a,
                    None => {
                        return None;
                    },
                }
            };
            let ts: Vec<u16> = if t.len() == 0 {
                Vec::new()
            } else {
                let tp = colon_split(&t);
                match parse_segs_with_v4(&tp) {
                    Some(a) => a,
                    None => {
                        return None;
                    },
                }
            };
            if hs.len() > 7 || ts.len() > 7 - hs.len() {
                return None;
            }
            let mut out: Vec<u16> = Vec::new();
            let mut i: usize = 0;
            while i < hs.len()
                invariant
                    i <= hs@.len(),
                    out@ == hs@.take(i as int),
                decreases hs.len() - i,
            {
                out.push(hs[i]);
                proof {
                    assert(out@ =~= hs@.take(i + 1));
                }
                i = i + 1;
            }
            let zeros = 8 - hs.len() - ts.len();
            let mut z: usize = 0;
            let ghost zs = Seq::new(zeros as nat, |i: int| 0u16);
            proof {
                assert(out@ =~= hs@ + zs.take(0));
            }
            while z < zeros
                invariant
                    z <= zeros,
                    zs == Seq::new(zeros as nat, |i: int| 0u16),
                    out@ == hs@ + zs.take(z as int),
                decreases zeros - z,
            {
                out.push(0);
                proof {
                    assert(out@ =~= hs@ + zs.take(z + 1));
                }
                z = z + 1;
            }
            let mut j: usize = 0;
            proof {
                assert(zs.take(zeros as int) =~= zs);
                assert(out@ =~= hs@ + zs + ts@.take(0));
            }
            while j < ts.len()
                invariant
                    j <= ts@.len(),
                    out@ == hs@ + zs + ts@.take(j as int),
                decreases ts.len() - j,
            {
                out.push(ts[j]);
                proof {
                    assert(out@ =~= hs@ + zs + ts@.take(j + 1));
                }
                j = j + 1;
            }
            proof {
                assert(ts@.take(ts@.len() as int) =~= ts@);
            }
            Some(out)
        },
    }
}


// ---------------------------------------------------------------------------
// Address classes

/// An IP address read from text.
#[derive(Debug)]
pub enum IpAddress {
    V4([u8; 4]),
    V6([u16; 8]),
}

/// `0.0.0.0`.
pub open spec fn v4_unspecified(o: Seq<u8>) -> bool {
    o[0] == 0 && o[1] == 0 && o[2] == 0 && o[3] == 0
}

/// `255.255.255.255`.
pub open spec fn v4_broadcast(o: Seq<u8>) -> bool {
    o[0] == 255 && o[1] == 255 && o[2] == 255 && o[3] == 255
}

/// `127.0.0.0/8`.
pub open spec fn v4_loopback(o: Seq<u8>) -> bool {
    o[0] == 127
}

/// `10.0.0.0/8`, `172.16.0.0/12` and `192.168.0.0/16`.
pub open spec fn v4_private(o: Seq<u8>) -> bool {
    ||| o[0] == 10
    ||| (o[0] == 172 && 16 <= o[1] && o[1] <= 31)
    ||| (o[0] == 192 && o[1] == 168)
}

/// `169.254.0.0/16`.
pub open spec fn v4_link_local(o: Seq<u8>) -> bool {
    o[0] == 169 && o[1] == 254
}

/// An IPv4 address may be fetched unless it is unspecified, broadcast,
/// loopback, private or link-local.
pub open spec fn v4_is_safe(o: Seq<u8>) -> bool {
    !(v4_unspecified(o) || v4_broadcast(o) || v4_loopback(o) || v4_private(o) || v4_link_local(
        o,
    ))
}

/// `::`.
pub open spec fn v6_unspecified(s: Seq<u16>) -> bool {
    forall|i: int| 0 <= i < 8 ==> s[i] == 0
}

/// `::1`.
pub open spec fn v6_loopback(s: Seq<u16>) -> bool {
    (forall|i: int| 0 <= i < 7 ==> s[i] == 0) && s[7] == 1
}

/// `::ffff:a.b.c.d`.
pub open spec fn v6_v4_mapped(s: Seq<u16>) -> bool {
    (forall|i: int| 0 <= i < 5 ==> s[i] == 0) && s[5] == 0xffff
}

/// The IPv4 address inside an IPv4-mapped IPv6 address.
pub open spec fn v6_mapped_octets(s: Seq<u16>) -> Seq<u8> {
    seq![(s[6] / 256) as u8, (s[6] % 256) as u8, (s[7] / 256) as u8, (s[7] % 256) as u8]
}

/// Unique local `fc00::/7` or link-local unicast `fe80::/10`.
pub open spec fn v6_local(s: Seq<u16>) -> bool {
    (s[0] & 0xfe00u16) == 0xfc00u16 || (s[0] & 0xffc0u16) == 0xfe80u16
}

/// An IPv6 address may be fetched unless it is loopback or unspecified, an
/// IPv4-mapped address of an IPv4 address that may not, or unique local or
/// link-local.
pub open spec fn v6_is_safe(s: Seq<u16>) -> bool {
    if v6_loopback(s) || v6_unspecified(s) {
        false
    } else if v6_v4_mapped(s) {
        v4_is_safe(v6_mapped_octets(s))
    } else {
        !v6_local(s)
    }
}

/// Whether the address `ip` may be fetched.
pub open spec fn ip_safe_spec(ip: IpAddress) -> bool {
    match ip {
        IpAddress::V4(o) => v4_is_safe(o@),
        IpAddress::V6(s) => v6_is_safe(s@),
    }
}

fn v4_safe(o: &[u8; 4]) -> (r: bool)
    ensures
        r == v4_is_safe(o@),
{
    let a = o[0];
    let b = o[1];
    let c = o[2];
    let d = o[3];
    let unspecified = a == 0 && b == 0 && c == 0 && d == 0;
    let broadcast = a == 255 && b == 255 && c == 255 && d == 255;
    let loopback = a == 127;
    let private = a == 10 || (a == 172 && 16 <= b && b <= 31) || (a == 192 && b == 168);
    let link_local = a == 169 && b == 254;
    !(unspecified || broadcast || loopback || private || link_local)
}

/// Whether the address `ip` may be fetched: not loopback, private,
/// link-local, unspecified or broadcast (IPv4-mapped IPv6 addresses are
/// judged as the IPv4 address they carry).
pub fn ip_is_safe(ip: &IpAddress) -> (r: bool)
    ensures
        r == ip_safe_spec(*ip),
{
    match ip {
        IpAddress::V4(o) => v4_safe(o),
        IpAddress::V6(s) => {
            let zero5 = s[0] == 0 && s[1] == 0 && s[2] == 0 && s[3] == 0 && s[4] == 0;
            let zero7 = zero5 && s[5] == 0 && s[6] == 0;
            let loopback = zero7 && s[7] == 1;
            let unspecified = zero7 && s[7] == 0;
            proof {
                assert(loopback == v6_loopback(s@));
                assert(unspecified == v6_unspecified(s@));
                assert(zero5 == (forall|i: int| 0 <= i < 5 ==> s@[i] == 0));
            }
            if loopback || unspecified {
                return false;
            }
            if zero5 && s[5] == 0xffff {
                let o: [u8; 4] = [
                    (s[6] / 256) as u8,
                    (s[6] % 256) as u8,
                    (s[7] / 256) as u8,
                    (s[7] % 256) as u8,
                ];
                proof {
                    assert(o@ =~= v6_mapped_octets(s@));
                }
                return v4_safe(&o);
            }
            !((s[0] & 0xfe00) == 0xfc00 || (s[0] & 0xffc0) == 0xfe80)
        },
    }
}

/// Reads `t` as an IPv4 address, else as an IPv6 address (`IpAddr`'s
/// `FromStr`).
pub fn parse_ip(t: &str) -> (r: Option<IpAddress>)
    ensures
        match r {
            Some(IpAddress::V4(o)) => ipv4_octets(t@) == Some(o@),
            Some(IpAddress::V6(s)) => ipv4_octets(t@) is None && ipv6_segments(t@) == Some(s@),
            None => ipv4_octets(t@) is None && ipv6_segments(t@) is None,
        },
{
    let cs = chars_of(t);
    match parse_ipv4(&cs) {
        Some(o) => {
            let a: [u8; 4] = [o[0], o[1], o[2], o[3]];
            proof {
                assert(a@ =~= o@);
            }
            Some(IpAddress::V4(a))
        },
        None => match parse_ipv6(&cs) {
            Some(s) => {
                let a: [u16; 8] = [s[0], s[1], s[2], s[3], s[4], s[5], s[6], s[7]];
                proof {
                    assert(a@ =~= s@);
                }
                Some(IpAddress::V6(a))
            },
            None => None,
        },
    }
}


// ---------------------------------------------------------------------------
// Hosts and URLs

/// True when `s` ends with `p`.
pub open spec fn ends_with_seq(s: Seq<char>, p: Seq<char>) -> bool {
    p.len() <= s.len() && s.skip(s.len() - p.len()) == p
}

/// True when `s` starts with the lowercase word `w`, ignoring ASCII case.
pub open spec fn starts_ignore_case(s: Seq<char>, w: Seq<char>) -> bool {
    s.len() >= w.len() && eq_ignore_case(s.take(w.len() as int), w)
}

/// Whether a host may be fetched: after trimming it is not empty, not
/// `localhost` (any case) nor a name ending in `.localhost`, and if it is an
/// IP address, the address may be fetched.
pub open spec fn host_safe(host: Seq<char>) -> bool {
    let h = trim(host);
    if h.len() == 0 {
        false
    } else if eq_ignore_case(h, "localhost"@) || ends_with_seq(h, ".localhost"@) {
        false
    } else if ipv4_octets(h) is Some {
        v4_is_safe(ipv4_octets(h)->0)
    } else if ipv6_segments(h) is Some {
        v6_is_safe(ipv6_segments(h)->0)
    } else {
        true
    }
}

fn ends_with_chars(cs: &Vec<char>, p: &str) -> (r: bool)
    ensures
        r == ends_with_seq(cs@, p@),
{
    let pc = chars_of(p);
    if pc.len() > cs.len() {
        return false;
    }
    let n = cs.len();
    let off = n - pc.len();
    let mut i: usize = 0;
    while i < pc.len()
        invariant
            n == cs@.len(),
            pc@ == p@,
            off == cs@.len() - pc@.len(),
            pc@.len() <= cs@.len(),
            i <= pc@.len(),
            forall|k: int| 0 <= k < i ==> cs@[off + k] == #[trigger] pc@[k],
        decreases pc.len() - i,
    {
        assert(off + i < cs@.len());
        if cs[off + i] != pc[i] {
            assert(cs@.skip(off as int)[i as int] != p@[i as int]);
            return false;
        }
        i = i + 1;
    }
    assert(cs@.skip(off as int) =~= p@);
    true
}

/// Whether a host may be fetched (see `host_safe`).
pub fn host_is_safe(host: &str) -> (r: bool)
    ensures
        r == host_safe(host@),
{
    let h = trim_str(host);
    let cs = chars_of(h.as_str());
    if cs.len() == 0 {
        return false;
    }
    if crate::file_tools::matches_word(&cs, "localhost") || ends_with_chars(&cs, ".localhost") {
        return false;
    }
    match parse_ip(h.as_str()) {
        Some(ip) => ip_is_safe(&ip),
        None => true,
    }
}

/// The host named by an authority (what follows any user info): the text
/// inside `[...]`, or the authority without a trailing `:port` of digits.
/// `None` for a `[` without `]`.
pub open spec fn host_part(a: Seq<char>) -> Option<Seq<char>> {
    if a.len() > 0 && a[0] == '[' {
        let e = find_char(a, ']');
        if e < 0 {
            None
        } else {
            Some(a.subrange(1, e))
        }
    } else {
        let c = rfind_char(a, ':');
        if c >= 0 && a.len() > c + 1 && all_digits(a.skip(c + 1)) {
            Some(a.take(c))
        } else {
            Some(a)
        }
    }
}

/// What follows `https://` or `http://` (either case) in `u`.
pub open spec fn after_scheme(u: Seq<char>) -> Option<Seq<char>> {
    if starts_ignore_case(u, "https://"@) {
        Some(u.skip(8))
    } else if starts_ignore_case(u, "http://"@) {
        Some(u.skip(7))
    } else {
        None
    }
}

/// The host of a URL: after the scheme, up to the first `/`, `?` or `#`,
/// after the last `@`, then as `host_part` reads it.
pub open spec fn url_host(url: Seq<char>) -> Option<Seq<char>> {
    match after_scheme(trim(url)) {
        None => None,
        Some(rest) => {
            let authority = split_any(rest, "/?#"@)[0];
            host_part(split_any(authority, seq!['@']).last())
        },
    }
}

/// A URL may be fetched when it is `http` or `https` and its host may be.
pub open spec fn url_safe(url: Seq<char>) -> bool {
    match url_host(url) {
        Some(h) => host_safe(h),
        None => false,
    }
}

/// The inputs on which the byte slices of the scheme checks fall on
/// character boundaries: at 5 bytes, then (unless the URL starts with
/// `file:`) at 8, then (unless it starts with `https://`) at 7.
pub open spec fn scheme_slices_ok(url: Seq<char>) -> bool {
    let u = trim(url);
    let b = vstd::utf8::encode_utf8(u);
    &&& (b.len() >= 5 ==> vstd::utf8::is_char_boundary(b, 5))
    &&& (!starts_ignore_case(u, "file:"@) && b.len() >= 8 ==> vstd::utf8::is_char_boundary(b, 8))
    &&& (!starts_ignore_case(u, "file:"@) && !starts_ignore_case(u, "https://"@) && b.len() >= 7
        ==> vstd::utf8::is_char_boundary(b, 7))
}

fn starts_with_word(cs: &Vec<char>, w: &str) -> (r: bool)
    ensures
        r == starts_ignore_case(cs@, w@),
{
    let wl = chars_of(w).len();
    if cs.len() < wl {
        return false;
    }
    let head = slice_chars(cs, 0, wl);
    proof {
        assert(head@ =~= cs@.take(w@.len() as int));
    }
    crate::file_tools::matches_word(&head, w)
}

/// Whether `url` may be fetched: `http` or `https` only, and not a host
/// that reaches this machine or its private networks (`url_safe`).
pub fn is_safe_url(url: &str) -> (r: bool)
    requires
        scheme_slices_ok(url@),
    ensures
        r == url_safe(url@),
{
    let u = trim_str(url);
    let cs = chars_of(u.as_str());
    if starts_with_word(&cs, "file:") {
        proof {
            reveal_strlit("file:");
            reveal_strlit("https://");
            reveal_strlit("http://");
            assert(ascii_lower(cs@.take(5)[0]) == "file:"@[0]);
            assert(cs@.take(5)[0] == cs@[0]);
            if starts_ignore_case(cs@, "https://"@) {
                assert(ascii_lower(cs@.take(8)[0]) == "https://"@[0]);
                assert(cs@.take(8)[0] == cs@[0]);
            }
            if starts_ignore_case(cs@, "http://"@) {
                assert(ascii_lower(cs@.take(7)[0]) == "http://"@[0]);
                assert(cs@.take(7)[0] == cs@[0]);
            }
        }
        return false;
    }
    let skip: usize = if starts_with_word(&cs, "https://") {
        8
    } else if starts_with_word(&cs, "http://") {
        7
    } else {
        return false;
    };
    proof {
        reveal_strlit("https://");
        reveal_strlit("http://");
    }
    let rest = slice_chars(&cs, skip, cs.len());
    let stops = vec!['/', '?', '#'];
    let pieces = split_any_vec(&rest, &stops);
    proof {
        reveal_strlit("/?#");
        assert(stops@ =~= "/?#"@);
        assert(rest@ =~= cs@.skip(skip as int));
        lemma_split_nonempty(Seq::empty(), rest@, one_of(stops@));
    }
    let authority = chars_of(pieces[0].as_str());
    let ats = vec!['@'];
    let parts = split_any_vec(&authority, &ats);
    proof {
        assert(ats@ =~= seq!['@']);
        lemma_split_nonempty(Seq::empty(), authority@, one_of(ats@));
    }
    let a = chars_of(parts[parts.len() - 1].as_str());
    proof {
        assert(a@ == split_any(authority@, seq!['@']).last());
    }
    let host: Vec<char> = if a.len() > 0 && a[0] == '[' {
        match find_char_vec(&a, ']') {
            Some(e) => {
                proof {
                    lemma_find_char(a@, ']');
                }
                let h = slice_chars(&a, 1, e);
                assert(host_part(a@) == Some(h@));
                h
            },
            None => {
                return false;
            },
        }
    } else {
        match rfind_char_vec(&a, ':') {
            Some(c) => {
                proof {
                    lemma_rfind_char(a@, ':');
                }
                let mut all: bool = c + 1 < a.len();
                let mut k: usize = c + 1;
                while k < a.len()
                    invariant
                        c + 1 <= k <= a@.len(),
                        all ==> c + 1 < a@.len(),
                        all ==> forall|j: int| c + 1 <= j < k ==> is_digit(#[trigger] a@[j]),
                        !all ==> (a@.len() <= c + 1 || exists|j: int|
                            c + 1 <= j < a@.len() && !is_digit(#[trigger] a@[j])),
                    decreases a.len() - k,
                {
                    if !('0' <= a[k] && a[k] <= '9') {
                        all = false;
                    }
                    k = k + 1;
                }
                proof {
                    if all {
                        assert(all_digits(a@.skip(c + 1))) by {
                            assert forall|j: int| 0 <= j < a@.skip(c + 1).len() implies is_digit(
                                #[trigger] a@.skip(c + 1)[j],
                            ) by {
                                assert(a@.skip(c + 1)[j] == a@[c + 1 + j]);
                            }
                        }
                    } else if a@.len() > c + 1 {
                        let j = choose|j: int| c + 1 <= j < a@.len() && !is_digit(#[trigger] a@[j]);
                        assert(a@.skip(c + 1)[j - c - 1] == a@[j]);
                    }
                }
                if all {
                    let h = slice_chars(&a, 0, c);
                    assert(host_part(a@) == Some(h@)) by {
                        assert(h@ =~= a@.take(c as int));
                    }
                    h
                } else {
                    assert(host_part(a@) == Some(a@));
                    a
                }
            },
            None => {
                proof {
                    lemma_rfind_char(a@, ':');
                }
                assert(host_part(a@) == Some(a@));
                a
            },
        }
    };
    let hs = string_of_range(&host, 0, host.len());
    proof {
        assert(hs@ =~= host@);
    }
    host_is_safe(hs.as_str())
}


/// A URL whose host is a literal IPv4 address that may not be fetched
/// (loopback, private, link-local, unspecified, broadcast) is refused, and
/// so is one whose host is a literal IPv6 address that may not be.
pub proof fn lemma_unsafe_address_literals_refused(url: Seq<char>)
    ensures
        match url_host(url) {
            Some(h) => match ipv4_octets(trim(h)) {
                Some(o) => !v4_is_safe(o) ==> !url_safe(url),
                None => match ipv6_segments(trim(h)) {
                    Some(s) => !v6_is_safe(s) ==> !url_safe(url),
                    None => true,
                },
            },
            None => !url_safe(url),
        },
{
    if let Some(h) = url_host(url) {
        let t = trim(h);
        if t.len() == 0 {
            assert(dot_pieces(t) == seq![Seq::<char>::empty()]);
            assert(double_colon_from(t, 0) == -1);
            assert(colon_pieces(t) == seq![Seq::<char>::empty()]);
            assert(hex_group(Seq::<char>::empty()) is None);
            assert(hex_segs(colon_pieces(t)) is None) by {
                assert(colon_pieces(t)[0] == Seq::<char>::empty());
            }
        }
    }
}


// ---------------------------------------------------------------------------
// The fetch itself

/// Characters returned when the caller names no limit.
pub const DEFAULT_MAX_CHARS: u64 = 50000;

/// Why a fetch is refused before it starts.
#[derive(Debug)]
pub enum FetchRefusal {
    MissingUrl,
    Blocked,
}

impl FetchRefusal {
    /// The refusal's message.
    pub fn message(&self) -> (r: &'static str)
        ensures
            match self {
                FetchRefusal::MissingUrl => r@ == "Missing 'url' argument"@,
                FetchRefusal::Blocked => r@ == "URL is not allowed (blocked for SSRF protection)"@,
            },
    {
        match self {
            FetchRefusal::MissingUrl => "Missing 'url' argument",
            FetchRefusal::Blocked => "URL is not allowed (blocked for SSRF protection)",
        }
    }
}

/// A fetch of `url`: refused without a URL or for a URL that may not be
/// fetched; otherwise the URL and the byte limit of the result (50000 by
/// default).
pub fn fetch_request(url: Option<&str>, max_chars: Option<u64>) -> (r: Result<(String, usize), FetchRefusal>)
    requires
        url matches Some(u) ==> scheme_slices_ok(u@),
    ensures
        match url {
            None => r matches Err(FetchRefusal::MissingUrl),
            Some(u) => if !url_safe(u@) {
                r matches Err(FetchRefusal::Blocked)
            } else {
                r matches Ok((v, m)) && v@ == u@ && m == (match max_chars {
                    Some(m) => m,
                    None => DEFAULT_MAX_CHARS,
                }) as usize
            },
        },
{
    let u = match url {
        Some(u) => u,
        None => {
            return Err(FetchRefusal::MissingUrl);
        },
    };
    if !is_safe_url(u) {
        return Err(FetchRefusal::Blocked);
    }
    let m = match max_chars {
        Some(m) => m,
        None => DEFAULT_MAX_CHARS,
    };
    Ok((u.to_owned(), #[verifier::truncate] (m as usize)))
}

/// The arguments of the `curl` run that fetches `url`: silent, failing on
/// HTTP errors, following redirects, ten seconds at most, a portal agent.
pub fn curl_args(url: &str) -> (r: Vec<String>)
    ensures
        views(r@) == seq!["-sfL"@, "--max-time"@, "10"@, "-A"@, "heart-portal/0.1"@, url@],
{
    let r = vec![
        String::from_str("-sfL"),
        String::from_str("--max-time"),
        String::from_str("10"),
        String::from_str("-A"),
        String::from_str("heart-portal/0.1"),
        url.to_owned(),
    ];
    assert(views(r@) =~= seq!["-sfL"@, "--max-time"@, "10"@, "-A"@, "heart-portal/0.1"@, url@]);
    r
}

/// What a fetch returns for the output `body`: the body, or its first
/// `max_chars` bytes and a note when it is longer.
pub open spec fn fetched_spec(body: Seq<char>, max_chars: nat) -> Seq<char> {
    if crate::text::utf8_len(body) > max_chars {
        crate::text::take_bytes(body, max_chars as int) + "...\n(truncated at "@ + decimal(max_chars)
            + " chars)"@
    } else {
        body
    }
}

/// The text a fetch returns for the body `body`, cut as [`fetched_spec`]
/// says; the cut must fall on a character boundary.
pub fn fetched_text(body: &str, max_chars: usize) -> (r: String)
    requires
        crate::text::utf8_len(body@) > max_chars ==> vstd::utf8::is_char_boundary(
            vstd::utf8::encode_utf8(body@),
            max_chars as int,
        ),
    ensures
        r@ == fetched_spec(body@, max_chars as nat),
{
    if body.as_bytes().len() > max_chars {
        let mut out = crate::text::prefix_bytes(body, max_chars);
        out.append("...\n(truncated at ");
        out.append(u64_to_string(max_chars as u64).as_str());
        out.append(" chars)");
        out
    } else {
        body.to_owned()
    }
}

/// The text a fetch returns for `curl`'s output `stdout`, decoded as UTF-8
/// with each invalid sequence replaced and cut as [`fetched_spec`] says;
/// `None` when the cut would fall inside a character.
pub fn fetch_output_text(stdout: &[u8], max_chars: usize) -> (r: Option<String>)
    ensures
        ({
            let body = utf8_lossy(stdout@);
            match r {
                Some(t) => t@ == fetched_spec(body, max_chars as nat),
                None => crate::text::utf8_len(body) > max_chars && !vstd::utf8::is_char_boundary(
                    vstd::utf8::encode_utf8(body),
                    max_chars as int,
                ),
            }
        }),
{
    let body = lossy_string(stdout);
    let len = body.as_str().as_bytes().len();
    if len > max_chars && !body.as_str().is_char_boundary(max_chars) {
        return None;
    }
    Some(fetched_text(body.as_str(), max_chars))
}

/// The error of a failed `curl` run: its exit code (-1 when a signal ended
/// it) and what it wrote to stderr (decoded as UTF-8, each invalid sequence
/// replaced).
pub fn fetch_failure_message(code: Option<i32>, stderr: &[u8]) -> (r: String)
    ensures
        r@ == "Fetch failed (exit "@ + decimal_signed(match code {
            Some(c) => c as int,
            None => -1,
        }) + "): "@ + utf8_lossy(stderr@),
{
    let c: i64 = match code {
        Some(c) => c as i64,
        None => -1,
    };
    let mut m = String::from_str("Fetch failed (exit ");
    m.append(i64_to_string(c).as_str());
    m.append("): ");
    m.append(lossy_string(stderr).as_str());
    m
}

} // verus!
