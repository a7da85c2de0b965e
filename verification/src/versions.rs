//! Release versions: dotted numbers compared part by part.
use vstd::prelude::*;
use core::cmp::Ordering;
use crate::numbers::{parse_u32, parse_unsigned};
use crate::text::{chars_of, split_any, split_any_vec, trim, trim_str, views};
use crate::upgrade::{release_version, tag_version};

verus! {

/// The number a version part stands for: its decimal value, or 0 when it is
/// not a `u32` numeral.
pub open spec fn part_value(p: Seq<char>) -> u32 {
    match parse_unsigned(p, u32::MAX as int) {
        Some(v) => v as u32,
        None => 0,
    }
}

/// The numbers of a version: trimmed, without leading `v`s, split at `.`.
pub open spec fn version_parts(s: Seq<char>) -> Seq<u32> {
    split_any(tag_version(trim(s)), seq!['.']).map_values(|p: Seq<char>| part_value(p))
}

/// Part `i` of `p`, 0 past its end.
pub open spec fn part_at(p: Seq<u32>, i: int) -> u32 {
    if 0 <= i < p.len() {
        p[i]
    } else {
        0
    }
}

/// The order of `pa` and `pb` from part `i` on: the first part where they
/// differ decides; missing parts count as 0.
pub open spec fn order_from(pa: Seq<u32>, pb: Seq<u32>, i: int) -> Ordering
    decreases pa.len() + pb.len() - i,
{
    if i < 0 || i >= pa.len() && i >= pb.len() {
        Ordering::Equal
    } else if part_at(pa, i) < part_at(pb, i) {
        Ordering::Less
    } else if part_at(pa, i) > part_at(pb, i) {
        Ordering::Greater
    } else {
        order_from(pa, pb, i + 1)
    }
}

/// How version `a` orders against version `b`.
pub open spec fn version_order(a: Seq<char>, b: Seq<char>) -> Ordering {
    order_from(version_parts(a), version_parts(b), 0)
}

/// A position as an integer.
pub open spec fn index(i: usize) -> int {
    i as int
}

/// The numbers of version `v` (see [`version_parts`]).
fn parts_of(v: &str) -> (r: Vec<u32>)
    ensures
        r@ == version_parts(v@),
{
    let t = trim_str(v);
    let stripped = release_version(t.as_str());
    let cs = chars_of(stripped.as_str());
    let dot = vec!['.'];
    assert(dot@ =~= seq!['.']);
    let pieces = split_any_vec(&cs, &dot);
    let mut out: Vec<u32> = Vec::new();
    let mut i: usize = 0;
    while i < pieces.len()
        invariant
            i <= pieces.len(),
            views(pieces@) == split_any(tag_version(trim(v@)), seq!['.']),
            out@ == views(pieces@).take(i as int).map_values(|p: Seq<char>| part_value(p)),
        decreases pieces.len() - i,
    {
        let n: u32 = match parse_u32(pieces[i].as_str()) {
            Some(n) => n,
            None => 0,
        };
        proof {
            assert(views(pieces@)[i as int] == pieces@[i as int]@);
        }
        out.push(n);
        assert(views(pieces@).take(i + 1).map_values(|p: Seq<char>| part_value(p)) =~= views(
            pieces@,
        ).take(i as int).map_values(|p: Seq<char>| part_value(p)).push(n));
        i += 1;
    }
    assert(views(pieces@).take(pieces.len() as int) =~= views(pieces@));
    out
}

/// Compares two versions part by part (`0.10.0` is newer than `0.9.0`); a
/// leading `v` is ignored, a part that is not a number counts as 0.
pub fn compare_versions(a: &str, b: &str) -> (r: Ordering)
    ensures
        r == version_order(a@, b@),
{
    let pa = parts_of(a);
    let pb = parts_of(b);
    let len = if pa.len() > pb.len() {
        pa.len()
    } else {
        pb.len()
    };
    let mut i: usize = 0;
    while i < len
        invariant
            i <= len,
            len == if pa@.len() > pb@.len() {
                pa@.len()
            } else {
                pb@.len()
            },
            pa@ == version_parts(a@),
            pb@ == version_parts(b@),
            order_from(pa@, pb@, 0) == order_from(pa@, pb@, index(i)),
        decreases len - i,
    {
        let da: u32 = if i < pa.len() {
            pa[i]
        } else {
            0
        };
        let db: u32 = if i < pb.len() {
            pb[i]
        } else {
            0
        };
        if da < db {
            return Ordering::Less;
        }
        if da > db {
            return Ordering::Greater;
        }
        i += 1;
    }
    Ordering::Equal
}

/// Whether the release `latest` is newer than the running `current`.
pub fn upgrade_available(latest: &str, current: &str) -> (r: bool)
    ensures
        r == (version_order(latest@, current@) == Ordering::Greater),
{
    match compare_versions(latest, current) {
        Ordering::Greater => true,
        Ordering::Equal => false,
        Ordering::Less => false,
    }
}

proof fn lemma_order_from_reflexive(p: Seq<u32>, i: int)
    ensures
        order_from(p, p, i) == Ordering::Equal,
    decreases p.len() + p.len() - i,
{
    if !(i < 0 || i >= p.len() && i >= p.len()) {
        lemma_order_from_reflexive(p, i + 1);
    }
}

/// Every version is as new as itself.
pub proof fn lemma_version_order_reflexive(a: Seq<char>)
    ensures
        version_order(a, a) == Ordering::Equal,
{
    lemma_order_from_reflexive(version_parts(a), 0);
}

proof fn lemma_order_from_antisymmetric(pa: Seq<u32>, pb: Seq<u32>, i: int)
    ensures
        order_from(pa, pb, i) == Ordering::Less <==> order_from(pb, pa, i) == Ordering::Greater,
        order_from(pa, pb, i) == Ordering::Equal <==> order_from(pb, pa, i) == Ordering::Equal,
    decreases pa.len() + pb.len() - i,
{
    if !(i < 0 || i >= pa.len() && i >= pb.len()) {
        lemma_order_from_antisymmetric(pa, pb, i + 1);
    }
}

/// Swapping the versions reverses the order: `a` is older than `b` exactly
/// when `b` is newer than `a`, and equal exactly when `b` equals `a`.
pub proof fn lemma_version_order_antisymmetric(a: Seq<char>, b: Seq<char>)
    ensures
        version_order(a, b) == Ordering::Less <==> version_order(b, a) == Ordering::Greater,
        version_order(a, b) == Ordering::Greater <==> version_order(b, a) == Ordering::Less,
        version_order(a, b) == Ordering::Equal <==> version_order(b, a) == Ordering::Equal,
{
    lemma_order_from_antisymmetric(version_parts(a), version_parts(b), 0);
    lemma_order_from_antisymmetric(version_parts(b), version_parts(a), 0);
}

proof fn lemma_order_from_transitive(pa: Seq<u32>, pb: Seq<u32>, pc: Seq<u32>, i: int)
    requires
        order_from(pa, pb, i) == Ordering::Less,
        order_from(pb, pc, i) == Ordering::Less,
    ensures
        order_from(pa, pc, i) == Ordering::Less,
    decreases pa.len() + pb.len() + pc.len() - i,
{
    if part_at(pa, i) == part_at(pb, i) && part_at(pb, i) == part_at(pc, i) {
        lemma_order_from_transitive(pa, pb, pc, i + 1);
    }
}

/// Being older is transitive.
pub proof fn lemma_version_order_transitive(a: Seq<char>, b: Seq<char>, c: Seq<char>)
    requires
        version_order(a, b) == Ordering::Less,
        version_order(b, c) == Ordering::Less,
    ensures
        version_order(a, c) == Ordering::Less,
{
    lemma_order_from_transitive(version_parts(a), version_parts(b), version_parts(c), 0);
}

} // verus!
