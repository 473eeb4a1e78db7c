//! Properties that hold across the library's operations.
use vstd::prelude::*;

use crate::builder::{built_page, lacing_of, lemma_built_page, total_segments};
use crate::bytes::{
    le_bytes_u32, le_bytes_u64, le_u32, le_u64, lemma_le_u32_of_bytes, lemma_le_u64_of_bytes,
};
use crate::page::{
    capture, check_page, lemma_layout_kept, lemma_sealed, page_checksum, page_packets, sealed,
    spec_flag, spec_position, spec_sequence, spec_serial, splice, stored_checksum, valid_page,
    with_flag, OggPageCheckError, POSITION_OFFSET, SEQUENCE_OFFSET, SERIAL_OFFSET,
};
use crate::track::check_track;
use crate::vorbis::{parse_comment, parse_tags, VorbisPacketCheckError, FRAMING_UNSET};

verus! {

/// Whenever a page validates at the start of a buffer, the checksum computed over that page, its
/// checksum field read as zero, equals the checksum stored in it.
pub proof fn law_validated_checksum(b: Seq<u8>)
    requires
        check_page(b) is Ok,
    ensures
        page_checksum(b.take(check_page(b)->Ok_0)) == stored_checksum(b.take(check_page(b)->Ok_0)),
{
    let n = check_page(b)->Ok_0;
    let p = b.take(n);
    assert(p[22] == b[22] && p[23] == b[23] && p[24] == b[24] && p[25] == b[25]);
}

/// Building a page from packets that need at most 255 lacing values, and reading its packets
/// back, gives the same packets in the same order; the page is valid.
pub proof fn law_build_round_trip(ps: Seq<Seq<u8>>)
    requires
        total_segments(ps) <= 255,
    ensures
        valid_page(built_page(ps)),
        page_packets(built_page(ps)) == ps,
{
    lemma_built_page(ps);
}

/// Editing any of flags, granule position, serial and sequence of a page, in any way, and then
/// setting its checksum, leaves a valid page.
pub proof fn law_edit_keeps_valid(p: Seq<u8>, q: Seq<u8>)
    requires
        valid_page(p),
        q.len() == p.len(),
        forall|i: int| 0 <= i < p.len() && !(5 <= i < 22) ==> q[i] == p[i],
    ensures
        valid_page(sealed(q)),
{
    assert(p.take(p.len() as int) =~= p);
    lemma_layout_kept(p, q);
    lemma_sealed(q);
}

/// A buffer long enough for a page header whose first four bytes are not the capture pattern
/// fails with `BadCapture`, as a page and as a track.
pub proof fn law_bad_capture(b: Seq<u8>)
    requires
        b.len() >= 27,
        b.take(4) != capture(),
    ensures
        check_page(b) == Err::<int, OggPageCheckError>(OggPageCheckError::BadCapture),
        check_track(b) == Err::<Seq<Seq<u8>>, OggPageCheckError>(OggPageCheckError::BadCapture),
{
}

/// A comment header whose framing byte has its low bit clear fails with an `Invalid` error,
/// however well-formed what comes before it is.
pub proof fn law_framing_bit_unset(b: Seq<u8>)
    requires
        b.len() >= 11,
        11 + le_u32(b, 7) + 4 <= b.len(),
        vstd::utf8::valid_utf8(b.subrange(11, 11 + le_u32(b, 7) as int)),
        parse_tags(b, 11 + le_u32(b, 7) + 4, le_u32(b, 11 + le_u32(b, 7) as int) as nat) matches Ok(
            (tags, end),
        ) && end < b.len() && b[end] & 1 == 0,
    ensures
        parse_comment(b) == Err::<(Seq<char>, Seq<(Seq<char>, Seq<char>)>), VorbisPacketCheckError>(
            VorbisPacketCheckError::Invalid(FRAMING_UNSET),
        ),
{
}

/// A packet whose length is a multiple of 255 is laced with full segments and then an explicit
/// zero, so that it cannot be read as going on past its end.
pub proof fn law_multiple_of_255_ends_with_zero(len: nat)
    requires
        len % 255 == 0,
    ensures
        lacing_of(len).len() == len / 255 + 1,
        lacing_of(len).last() == 0,
        forall|i: int| 0 <= i < len / 255 ==> lacing_of(len)[i] == 255,
{
}


/// A page edited through a setter reads back the value that was set, once its checksum is set
/// too; the other fields keep their values.
pub proof fn law_setters_store_values(p: Seq<u8>, granule: u64, serial: u32, sequence: u32)
    requires
        valid_page(p),
    ensures
        spec_position(sealed(splice(p, POSITION_OFFSET as int, le_bytes_u64(granule)))) == granule,
        spec_serial(sealed(splice(p, POSITION_OFFSET as int, le_bytes_u64(granule)))) == spec_serial(p),
        spec_serial(sealed(splice(p, SERIAL_OFFSET as int, le_bytes_u32(serial)))) == serial,
        spec_sequence(sealed(splice(p, SEQUENCE_OFFSET as int, le_bytes_u32(sequence)))) == sequence,
        spec_position(sealed(splice(p, SEQUENCE_OFFSET as int, le_bytes_u32(sequence))))
            == spec_position(p),
{
    assert(p.take(p.len() as int) =~= p);
    let a = splice(p, POSITION_OFFSET as int, le_bytes_u64(granule));
    let b = splice(p, SERIAL_OFFSET as int, le_bytes_u32(serial));
    let c = splice(p, SEQUENCE_OFFSET as int, le_bytes_u32(sequence));
    lemma_layout_kept(p, a);
    lemma_layout_kept(p, b);
    lemma_layout_kept(p, c);
    lemma_sealed(a);
    lemma_sealed(b);
    lemma_sealed(c);
    let sa = sealed(a);
    let sb = sealed(b);
    let sc = sealed(c);
    lemma_le_u64_of_bytes(granule);
    let w = le_bytes_u64(granule);
    assert(le_u64(sa, 6) == le_u64(w, 0)) by {
        assert(sa[6] == w[0] && sa[7] == w[1] && sa[8] == w[2] && sa[9] == w[3]);
        assert(sa[10] == w[4] && sa[11] == w[5] && sa[12] == w[6] && sa[13] == w[7]);
    }
    assert(le_u32(sa, 14) == le_u32(p, 14));
    lemma_le_u32_of_bytes(serial);
    let ws = le_bytes_u32(serial);
    assert(sb[14] == ws[0] && sb[15] == ws[1] && sb[16] == ws[2] && sb[17] == ws[3]);
    lemma_le_u32_of_bytes(sequence);
    let wq = le_bytes_u32(sequence);
    assert(sc[18] == wq[0] && sc[19] == wq[1] && sc[20] == wq[2] && sc[21] == wq[3]);
    assert(le_u64(sc, 6) == le_u64(p, 6));
}

/// Setting a flag and then reading it gives the value that was set; the other flags keep theirs.
pub proof fn law_flag_set_then_read(p: Seq<u8>, mask: u8, other: u8, value: bool)
    requires
        p.len() > 5,
        mask == 1 || mask == 2 || mask == 4,
        other == 1 || other == 2 || other == 4,
        other != mask,
    ensures
        spec_flag(with_flag(p, mask, value), mask) == value,
        spec_flag(with_flag(p, mask, value), other) == spec_flag(p, other),
{
    let x = p[5];
    let y = with_flag(p, mask, value)[5];
    if value {
        assert(y == (x & (0xFFu8 ^ mask)) | mask);
        assert(((x & (0xFFu8 ^ mask)) | mask) & mask != 0) by (bit_vector)
            requires mask == 1u8 || mask == 2u8 || mask == 4u8;
        assert((((x & (0xFFu8 ^ mask)) | mask) & other != 0) == (x & other != 0)) by (bit_vector)
            requires
                mask == 1u8 || mask == 2u8 || mask == 4u8,
                other == 1u8 || other == 2u8 || other == 4u8,
                other != mask,
        ;
    } else {
        assert(y == (x & (0xFFu8 ^ mask)) | 0u8);
        assert(((x & (0xFFu8 ^ mask)) | 0u8) & mask == 0) by (bit_vector)
            requires mask == 1u8 || mask == 2u8 || mask == 4u8;
        assert((((x & (0xFFu8 ^ mask)) | 0u8) & other != 0) == (x & other != 0)) by (bit_vector)
            requires
                mask == 1u8 || mask == 2u8 || mask == 4u8,
                other == 1u8 || other == 2u8 || other == 4u8,
                other != mask,
        ;
    }
}

} // verus!
