//! Stable content fingerprints.
use vstd::prelude::*;
use vstd::utf8::encode_utf8;

use crate::textops::push_char;

verus! {

/// FNV-1a 64-bit offset basis.
pub const FNV_OFFSET: u64 = 0xcbf29ce484222325;

/// FNV-1a 64-bit prime.
pub const FNV_PRIME: u64 = 0x100000001b3;

/// FNV-1a over `bytes`, starting from the running hash `h`.
pub open spec fn fnv1a_from(h: u64, bytes: Seq<u8>) -> u64
    decreases bytes.len(),
{
    if bytes.len() == 0 {
        h
    } else {
        fnv1a_from((h ^ (bytes[0] as u64)).wrapping_mul(FNV_PRIME), bytes.drop_first())
    }
}

/// FNV-1a 64-bit hash of a byte string.
pub open spec fn fnv1a(bytes: Seq<u8>) -> u64 {
    fnv1a_from(FNV_OFFSET, bytes)
}

/// Lower-case hexadecimal digit for `d` (0..=15).
pub open spec fn hex_lower(d: u64) -> char {
    if d < 10 {
        (d + 48) as char
    } else {
        (d + 87) as char
    }
}

/// `format!("{h:016x}")`: sixteen lower-case hex digits, most significant first.
pub open spec fn hex16(h: u64) -> Seq<char> {
    Seq::new(16, |i: int| hex_lower((h >> ((60 - 4 * i) as u64)) & 15))
}

/// The text fingerprint: FNV-1a of the UTF-8 bytes, as sixteen hex digits.
pub open spec fn fingerprint_of(value: Seq<char>) -> Seq<char> {
    hex16(fnv1a(encode_utf8(value)))
}

/// Stable FNV-1a fingerprint of a string, rendered as 16 lower-case hex digits.
pub fn fingerprint(value: &str) -> (r: String)
    ensures
        r@ == fingerprint_of(value@),
{
    let bytes = value.as_bytes();
    let n = bytes.len();
    let mut hash: u64 = FNV_OFFSET;
    assert(bytes@.skip(0) =~= bytes@);
    for i in 0..n
        invariant
            n == bytes@.len(),
            bytes@ == encode_utf8(value@),
            fnv1a_from(hash, bytes@.skip(i as int)) == fnv1a(bytes@),
    {
        assert(bytes@.skip(i as int).drop_first() =~= bytes@.skip(i + 1));
        hash = (hash ^ (bytes[i] as u64)).wrapping_mul(FNV_PRIME);
    }
    assert(bytes@.skip(n as int) =~= Seq::<u8>::empty());
    let mut out = String::new();
    for i in 0..16usize
        invariant
            fnv1a(bytes@) == hash,
            bytes@ == encode_utf8(value@),
            out@ == hex16(hash).take(i as int),
    {
        let shift: u64 = 60 - 4 * (i as u64);
        let d: u64 = (hash >> shift) & 15;
        assert(d < 16) by (bit_vector)
            requires
                d == (hash >> shift) & 15,
        ;
        let c = if d < 10 {
            ((d as u8) + 48u8) as char
        } else {
            ((d as u8) + 87u8) as char
        };
        assert(c == hex_lower(d));
        push_char(&mut out, c);
        assert(hex16(hash).take(i + 1) =~= hex16(hash).take(i as int).push(c));
    }
    assert(hex16(hash).take(16) =~= hex16(hash));
    out
}

} // verus!
