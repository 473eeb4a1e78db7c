//! The CRC-32 of Ogg pages: generator 0x04C11DB7, not reflected, initial register 0, no final
//! xor.
use vstd::prelude::*;

verus! {

pub const CRC_POLY: u32 = 0x04C1_1DB7;

/// One shift of the register, feeding the generator back in when the top bit falls out.
pub open spec fn crc_shift(r: u32) -> u32 {
    if r & 0x8000_0000u32 != 0 {
        (r << 1u32) ^ CRC_POLY
    } else {
        r << 1u32
    }
}

/// `r` shifted `n` times.
pub open spec fn crc_shifts(r: u32, n: nat) -> u32
    decreases n,
{
    if n == 0 {
        r
    } else {
        crc_shifts(crc_shift(r), (n - 1) as nat)
    }
}

/// The register after taking in one more byte.
pub open spec fn crc_byte(r: u32, b: u8) -> u32 {
    crc_shifts(r ^ ((b as u32) << 24u32), 8)
}

/// The register after taking in all of `s`, from 0.
pub open spec fn crc_of(s: Seq<u8>) -> u32
    decreases s.len(),
{
    if s.len() == 0 {
        0
    } else {
        crc_byte(crc_of(s.drop_last()), s.last())
    }
}

pub proof fn lemma_crc_of_push(s: Seq<u8>, b: u8)
    ensures
        crc_of(s.push(b)) == crc_byte(crc_of(s), b),
{
    assert(s.push(b).drop_last() =~= s);
}

pub proof fn lemma_crc_of_take(s: Seq<u8>, i: int)
    requires
        0 <= i < s.len(),
    ensures
        crc_of(s.take(i + 1)) == crc_byte(crc_of(s.take(i)), s[i]),
{
    assert(s.take(i + 1) =~= s.take(i).push(s[i]));
    lemma_crc_of_push(s.take(i), s[i]);
}

/// Takes one byte into the register `r`.
pub fn crc_update(r: u32, b: u8) -> (out: u32)
    ensures
        out == crc_byte(r, b),
{
    let mut reg: u32 = r ^ ((b as u32) << 24u32);
    let mut i: u32 = 0;
    while i < 8
        invariant
            i <= 8,
            crc_shifts(reg, (8 - i) as nat) == crc_byte(r, b),
        decreases 8 - i,
    {
        let next: u32 = if reg & 0x8000_0000u32 != 0 {
            (reg << 1u32) ^ CRC_POLY
        } else {
            reg << 1u32
        };
        assert(crc_shifts(reg, (8 - i) as nat) == crc_shifts(crc_shift(reg), (8 - i - 1) as nat));
        reg = next;
        i = i + 1;
    }
    reg
}

} // verus!
