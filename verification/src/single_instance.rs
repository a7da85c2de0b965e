//! The per-relay single-instance guard's naming: a stable FNV-1a hash of the
//! relay identity, and the lock-file and mutex names built from it. Taking the
//! lock itself is operating-system work and stays with the caller.
use vstd::prelude::*;

verus! {

/// FNV-1a 64-bit offset basis.
pub const FNV_OFFSET_BASIS: u64 = 0xcbf29ce484222325;

/// FNV-1a 64-bit prime.
pub const FNV_PRIME: u64 = 0x100000001b3;

/// The identity used when the portal runs without a relay.
pub const STANDALONE_IDENTITY: &'static str = "standalone";

/// One FNV-1a step: xor in the byte, then multiply by the prime modulo 2^64.
pub open spec fn fnv_step(hash: u64, byte: u8) -> u64 {
    (((hash ^ (byte as u64)) as nat * FNV_PRIME as nat) % 0x1_0000_0000_0000_0000nat) as u64
}

/// FNV-1a over `bytes`.
pub open spec fn fnv1a(bytes: Seq<u8>) -> u64
    decreases bytes.len(),
{
    if bytes.len() == 0 {
        FNV_OFFSET_BASIS
    } else {
        fnv_step(fnv1a(bytes.drop_last()), bytes.last())
    }
}

/// FNV-1a of the UTF-8 bytes of `identity`: simple and stable across
/// compiler versions, so an old and a new binary agree on it.
pub fn stable_identity_hash(identity: &str) -> (h: u64)
    ensures
        h == fnv1a(vstd::utf8::encode_utf8(identity@)),
{
    let bytes = identity.as_bytes();
    let mut hash: u64 = FNV_OFFSET_BASIS;
    let mut i: usize = 0;
    assert(bytes@.subrange(0, 0) =~= Seq::<u8>::empty());
    while i < bytes.len()
        invariant
            i <= bytes@.len(),
            hash == fnv1a(bytes@.subrange(0, i as int)),
        decreases bytes.len() - i,
    {
        let b = bytes[i];
        hash = hash ^ (b as u64);
        hash = hash.wrapping_mul(FNV_PRIME);
        proof {
            assert(bytes@.subrange(0, i + 1).drop_last() =~= bytes@.subrange(0, i as int));
        }
        i = i + 1;
    }
    assert(bytes@.subrange(0, bytes@.len() as int) =~= bytes@);
    hash
}

/// The lowercase hexadecimal digit of `d` (for `d < 16`).
pub open spec fn hex_digit(d: nat) -> char {
    if d < 10 {
        (('0' as u32) + d) as char
    } else {
        (('a' as u32) + (d - 10)) as char
    }
}

/// The last `k` lowercase hexadecimal digits of `n`, zero-padded.
pub open spec fn hex_fixed(n: nat, k: nat) -> Seq<char>
    decreases k,
{
    if k == 0 {
        Seq::empty()
    } else {
        hex_fixed(n / 16, (k - 1) as nat).push(hex_digit(n % 16))
    }
}

fn hex_digit_char(d: u64) -> (c: char)
    requires
        d < 16,
    ensures
        c == hex_digit(d as nat),
{
    if d < 10 {
        ((('0' as u32) + (d as u32)) as u8) as char
    } else {
        ((('a' as u32) + ((d - 10) as u32)) as u8) as char
    }
}

fn hex_chars(n: u64, k: usize) -> (r: Vec<char>)
    ensures
        r@ == hex_fixed(n as nat, k as nat),
        r@.len() == k,
    decreases k,
{
    if k == 0 {
        Vec::new()
    } else {
        let mut v = hex_chars(n / 16, k - 1);
        v.push(hex_digit_char(n % 16));
        v
    }
}

/// `format!("{:016x}", n)`: sixteen lowercase hexadecimal digits.
pub fn hex16(n: u64) -> (r: String)
    ensures
        r@ == hex_fixed(n as nat, 16),
{
    let cs = hex_chars(n, 16);
    crate::text::string_of(&cs)
}

/// The identity the guard is keyed by: the relay identity, or `"standalone"`.
pub open spec fn guard_identity(identity: Option<&str>) -> Seq<char> {
    match identity {
        Some(s) => s@,
        None => STANDALONE_IDENTITY@,
    }
}

/// The key of the guard: FNV-1a of the guard identity's UTF-8 bytes.
pub open spec fn guard_key(identity: Option<&str>) -> u64 {
    fnv1a(vstd::utf8::encode_utf8(guard_identity(identity)))
}

/// The key of the guard for `identity`.
pub fn instance_key(identity: Option<&str>) -> (h: u64)
    ensures
        h == guard_key(identity),
{
    match identity {
        Some(s) => stable_identity_hash(s),
        None => stable_identity_hash(STANDALONE_IDENTITY),
    }
}

/// The lock file's name (in the per-user lock directory): the key in
/// sixteen hex digits, then `.lock`.
pub fn lock_file_name(identity: Option<&str>) -> (r: String)
    ensures
        r@ == hex_fixed(guard_key(identity) as nat, 16) + ".lock"@,
{
    let h = instance_key(identity);
    let mut r = hex16(h);
    r.append(".lock");
    r
}

/// The prefix of the session-local mutex name.
pub const MUTEX_PREFIX: &'static str = "Local\\heart-portal-";

/// The named mutex: `Local\heart-portal-` and the key in sixteen hex digits.
pub fn mutex_name(identity: Option<&str>) -> (r: String)
    ensures
        r@ == MUTEX_PREFIX@ + hex_fixed(guard_key(identity) as nat, 16),
{
    let h = instance_key(identity);
    let hex = hex16(h);
    let mut r = String::from_str(MUTEX_PREFIX);
    r.append(hex.as_str());
    r
}

/// The message when another portal already holds the guard.
pub const ALREADY_RUNNING: &'static str = "another Portal instance is already running for this relay/Being";

} // verus!
