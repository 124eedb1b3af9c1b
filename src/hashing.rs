//! The 64-bit mixing step and byte-string hash that value hashes are built
//! from. Everything here is a function of plain values, so equal inputs hash
//! equally in every process.
use vstd::prelude::*;
use vstd::utf8::encode_utf8;

verus! {

/// 2^64.
pub open spec fn word() -> int {
    0x1_0000_0000_0000_0000
}

/// One step of the hash: `h * 1099511628211 + x`, modulo 2^64.
pub open spec fn mix(h: u64, x: u64) -> u64 {
    ((h as int * 1099511628211 + x as int) % word()) as u64
}

pub fn mix_exec(h: u64, x: u64) -> (r: u64)
    ensures
        r == mix(h, x),
{
    let wide: u128 = (h as u128) * 1099511628211u128 + (x as u128);
    (wide % 0x1_0000_0000_0000_0000u128) as u64
}

/// The hash of a byte string: the bytes mixed in, one at a time, from a
/// fixed seed.
pub open spec fn bytes_hash(b: Seq<u8>) -> u64
    decreases b.len(),
{
    if b.len() == 0 {
        0xcbf2_9ce4_8422_2325
    } else {
        mix(bytes_hash(b.drop_last()), b.last() as u64)
    }
}

pub fn hash_bytes(b: &[u8]) -> (r: u64)
    ensures
        r == bytes_hash(b@),
{
    let mut h: u64 = 0xcbf2_9ce4_8422_2325;
    let mut i: usize = 0;
    while i < b.len()
        invariant
            i <= b@.len(),
            h == bytes_hash(b@.subrange(0, i as int)),
        decreases b@.len() - i,
    {
        assert(b@.subrange(0, i as int + 1).drop_last() =~= b@.subrange(0, i as int));
        h = mix_exec(h, b[i] as u64);
        i = i + 1;
    }
    assert(b@.subrange(0, i as int) =~= b@);
    h
}

/// The hash of a text: that of its UTF-8 bytes.
pub open spec fn text_hash(s: Seq<char>) -> u64 {
    bytes_hash(encode_utf8(s))
}

pub fn hash_text(s: &str) -> (r: u64)
    ensures
        r == text_hash(s@),
{
    hash_bytes(s.as_bytes())
}

/// The hash of an optional text.
pub open spec fn opt_text_hash(o: Option<Seq<char>>) -> u64 {
    match o {
        Some(s) => mix(1, text_hash(s)),
        None => 0,
    }
}

pub fn hash_opt_text(o: &Option<String>) -> (r: u64)
    ensures
        r == opt_text_hash(crate::id::opt_str_view(*o)),
{
    match o {
        Some(s) => mix_exec(1, hash_text(s.as_str())),
        None => 0,
    }
}

/// Relies on `std::hash::Hasher::write_u64`, which feeds one word to the
/// hasher; nothing is claimed of the hasher's state.
#[verifier::external_body]
pub(crate) fn feed_hasher<H: std::hash::Hasher>(state: &mut H, code: u64) {
    state.write_u64(code)
}

} // verus!
