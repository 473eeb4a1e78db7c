//! Little-endian integers inside byte sequences.
use vstd::prelude::*;

verus! {

/// The little-endian `u32` held by `s[i..i+4]`.
pub open spec fn le_u32(s: Seq<u8>, i: int) -> u32 {
    (s[i] as u32) | ((s[i + 1] as u32) << 8u32) | ((s[i + 2] as u32) << 16u32) | ((s[i + 3] as u32)
        << 24u32)
}

/// The little-endian `u64` held by `s[i..i+8]`.
pub open spec fn le_u64(s: Seq<u8>, i: int) -> u64 {
    (le_u32(s, i) as u64) | ((le_u32(s, i + 4) as u64) << 32u64)
}

/// The four bytes of `v`, least significant first.
pub open spec fn le_bytes_u32(v: u32) -> Seq<u8> {
    seq![v as u8, (v >> 8u32) as u8, (v >> 16u32) as u8, (v >> 24u32) as u8]
}

/// The eight bytes of `v`, least significant first.
pub open spec fn le_bytes_u64(v: u64) -> Seq<u8> {
    le_bytes_u32(v as u32) + le_bytes_u32((v >> 32u64) as u32)
}

pub proof fn lemma_le_u32_of_bytes(v: u32)
    ensures
        le_u32(le_bytes_u32(v), 0) == v,
{
    let s = le_bytes_u32(v);
    let (b0, b1, b2, b3) = (s[0], s[1], s[2], s[3]);
    assert(b0 == v as u8 && b1 == (v >> 8u32) as u8 && b2 == (v >> 16u32) as u8 && b3 == (v
        >> 24u32) as u8);
    assert(((b0 as u32) | ((b1 as u32) << 8u32) | ((b2 as u32) << 16u32) | ((b3 as u32) << 24u32))
        == v) by (bit_vector)
        requires
            b0 == v as u8,
            b1 == (v >> 8u32) as u8,
            b2 == (v >> 16u32) as u8,
            b3 == (v >> 24u32) as u8,
    ;
}

pub proof fn lemma_le_u64_of_bytes(v: u64)
    ensures
        le_u64(le_bytes_u64(v), 0) == v,
{
    let s = le_bytes_u64(v);
    let lo = v as u32;
    let hi = (v >> 32u64) as u32;
    lemma_le_u32_of_bytes(lo);
    lemma_le_u32_of_bytes(hi);
    assert(s.subrange(0, 4) =~= le_bytes_u32(lo));
    assert(s.subrange(4, 8) =~= le_bytes_u32(hi));
    assert(le_u32(s, 0) == le_u32(le_bytes_u32(lo), 0));
    assert(le_u32(s, 4) == le_u32(le_bytes_u32(hi), 0));
    assert(((lo as u64) | ((hi as u64) << 32u64)) == v) by (bit_vector)
        requires
            lo == v as u32,
            hi == (v >> 32u64) as u32,
    ;
}

/// Reads the little-endian `u32` at `b[i..i+4]`.
pub fn read_le_u32(b: &[u8], i: usize) -> (r: u32)
    requires
        i + 4 <= b@.len(),
    ensures
        r == le_u32(b@, i as int),
{
    (b[i] as u32) | ((b[i + 1] as u32) << 8u32) | ((b[i + 2] as u32) << 16u32) | ((b[i + 3] as u32)
        << 24u32)
}

/// Reads the little-endian `u64` at `b[i..i+8]`.
pub fn read_le_u64(b: &[u8], i: usize) -> (r: u64)
    requires
        i + 8 <= b@.len(),
    ensures
        r == le_u64(b@, i as int),
{
    // reading the length brings in that it fits in a usize
    let _len = b.len();
    (read_le_u32(b, i) as u64) | ((read_le_u32(b, i + 4) as u64) << 32u64)
}

} // verus!
