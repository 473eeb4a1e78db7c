//! Single Ogg pages: validation, header fields, checksum-keeping edits and packet lacing.
use vstd::prelude::*;

use crate::bytes::{
    le_bytes_u32, le_bytes_u64, le_u32, le_u64, lemma_le_u32_of_bytes, read_le_u32, read_le_u64,
};
use crate::crc::{crc_of, crc_update, lemma_crc_of_take};
use crate::lacing::{
    lace, lemma_lace_nonempty, lemma_lace_step, lemma_seq_sum_take_full, lemma_seq_sum_take_mono,
    packet_sizes, split_by,
};

verus! {

pub const HEADER_LEN: usize = 27;
pub const FLAGS_OFFSET: usize = 5;
pub const POSITION_OFFSET: usize = 6;
pub const SERIAL_OFFSET: usize = 14;
pub const SEQUENCE_OFFSET: usize = 18;
pub const CHECKSUM_OFFSET: usize = 22;
pub const SEGMENT_COUNT_OFFSET: usize = 26;

pub const FLAG_CONTINUED: u8 = 0x01;
pub const FLAG_BOS: u8 = 0x02;
pub const FLAG_EOS: u8 = 0x04;

/// Why a byte buffer does not start with a well-formed page.
#[derive(Debug, PartialEq, Eq, Structural, Clone, Copy)]
pub enum OggPageCheckError {
    TooShort,
    BadCapture,
    BadVersion,
    BadCrc,
}

/// The capture pattern "OggS".
pub open spec fn capture() -> Seq<u8> {
    seq![0x4fu8, 0x67u8, 0x67u8, 0x53u8]
}

/// The sum of the byte values of `t`.
pub open spec fn seq_sum(t: Seq<u8>) -> nat
    decreases t.len(),
{
    if t.len() == 0 {
        0
    } else {
        seq_sum(t.drop_last()) + t.last() as nat
    }
}

/// The lacing values of a page whose header is complete.
pub open spec fn segment_table(s: Seq<u8>) -> Seq<u8> {
    s.subrange(HEADER_LEN as int, HEADER_LEN + s[SEGMENT_COUNT_OFFSET as int] as int)
}

/// The length of the header, segment table included.
pub open spec fn header_len(s: Seq<u8>) -> int {
    HEADER_LEN + s[SEGMENT_COUNT_OFFSET as int] as int
}

/// The length of the page that starts `s`: header, table and body.
pub open spec fn page_len(s: Seq<u8>) -> int {
    header_len(s) + seq_sum(segment_table(s))
}

/// The structural checks, in order: everything but the checksum. `Ok` holds the page length.
pub open spec fn check_layout(s: Seq<u8>) -> Result<int, OggPageCheckError> {
    if s.len() < HEADER_LEN {
        Err(OggPageCheckError::TooShort)
    } else if s.take(4) != capture() {
        Err(OggPageCheckError::BadCapture)
    } else if s[4] != 0 {
        Err(OggPageCheckError::BadVersion)
    } else if s.len() < header_len(s) {
        Err(OggPageCheckError::TooShort)
    } else if s.len() < page_len(s) {
        Err(OggPageCheckError::TooShort)
    } else {
        Ok(page_len(s))
    }
}

/// `p` with its four checksum bytes set to zero.
pub open spec fn zeroed_checksum(p: Seq<u8>) -> Seq<u8> {
    p.update(22, 0).update(23, 0).update(24, 0).update(25, 0)
}

/// The checksum that page bytes `p` call for.
pub open spec fn page_checksum(p: Seq<u8>) -> u32 {
    crc_of(zeroed_checksum(p))
}

/// The checksum field as stored.
pub open spec fn stored_checksum(p: Seq<u8>) -> u32 {
    le_u32(p, CHECKSUM_OFFSET as int)
}

/// Validation of the page at the start of `s`; `Ok` holds the page length.
pub open spec fn check_page(s: Seq<u8>) -> Result<int, OggPageCheckError> {
    match check_layout(s) {
        Err(e) => Err(e),
        Ok(n) => if page_checksum(s.take(n)) == stored_checksum(s) {
            Ok(n)
        } else {
            Err(OggPageCheckError::BadCrc)
        },
    }
}

/// `p` is exactly one page whose structure is sound, checksum aside.
pub open spec fn layout_ok(p: Seq<u8>) -> bool {
    check_layout(p) == Ok::<int, OggPageCheckError>(p.len() as int)
}

/// `p` is exactly one valid page.
pub open spec fn valid_page(p: Seq<u8>) -> bool {
    check_page(p) == Ok::<int, OggPageCheckError>(p.len() as int)
}

/// `p` with `bytes` written over it from index `i` on.
pub open spec fn splice(p: Seq<u8>, i: int, bytes: Seq<u8>) -> Seq<u8> {
    p.take(i) + bytes + p.skip(i + bytes.len())
}

/// `p` with the checksum field set to the checksum it calls for.
pub open spec fn sealed(p: Seq<u8>) -> Seq<u8> {
    splice(p, CHECKSUM_OFFSET as int, le_bytes_u32(page_checksum(p)))
}

pub open spec fn spec_position(p: Seq<u8>) -> u64 {
    le_u64(p, POSITION_OFFSET as int)
}

pub open spec fn spec_serial(p: Seq<u8>) -> u32 {
    le_u32(p, SERIAL_OFFSET as int)
}

pub open spec fn spec_sequence(p: Seq<u8>) -> u32 {
    le_u32(p, SEQUENCE_OFFSET as int)
}

pub open spec fn spec_flag(p: Seq<u8>, mask: u8) -> bool {
    p[FLAGS_OFFSET as int] & mask != 0
}

/// `p` with the flag bits of `mask` set or cleared.
pub open spec fn with_flag(p: Seq<u8>, mask: u8, value: bool) -> Seq<u8> {
    p.update(
        FLAGS_OFFSET as int,
        (p[FLAGS_OFFSET as int] & (0xFFu8 ^ mask)) | (if value {
            mask
        } else {
            0u8
        }),
    )
}

pub proof fn lemma_seq_sum_push(t: Seq<u8>, b: u8)
    ensures
        seq_sum(t.push(b)) == seq_sum(t) + b,
{
    assert(t.push(b).drop_last() =~= t);
}

/// Writing anywhere in the fixed header after the version byte, other than the segment count,
/// keeps the structure.
pub proof fn lemma_layout_kept(p: Seq<u8>, q: Seq<u8>)
    requires
        layout_ok(p),
        q.len() == p.len(),
        forall|i: int| 0 <= i < p.len() && !(5 <= i < 26) ==> q[i] == p[i],
    ensures
        layout_ok(q),
        segment_table(q) == segment_table(p),
{
    assert(q.take(4) =~= p.take(4));
    assert(segment_table(q) =~= segment_table(p));
}

/// The checksum field does not take part in the checksum.
pub proof fn lemma_checksum_ignores_field(p: Seq<u8>, q: Seq<u8>)
    requires
        p.len() == q.len(),
        p.len() >= 26,
        forall|i: int| 0 <= i < p.len() && !(22 <= i < 26) ==> q[i] == p[i],
    ensures
        page_checksum(q) == page_checksum(p),
{
    assert(zeroed_checksum(q) =~= zeroed_checksum(p));
}

pub proof fn lemma_sealed(p: Seq<u8>)
    requires
        layout_ok(p),
    ensures
        valid_page(sealed(p)),
        sealed(p).len() == p.len(),
        forall|i: int| 0 <= i < p.len() && !(22 <= i < 26) ==> sealed(p)[i] == p[i],
{
    let q = sealed(p);
    let c = page_checksum(p);
    assert(q.len() == p.len());
    assert forall|i: int| 0 <= i < p.len() && !(22 <= i < 26) implies q[i] == p[i] by {}
    lemma_layout_kept(p, q);
    lemma_checksum_ignores_field(p, q);
    lemma_le_u32_of_bytes(c);
    assert(q.subrange(22, 26) =~= le_bytes_u32(c));
    assert(stored_checksum(q) == le_u32(le_bytes_u32(c), 0));
    assert(q.take(q.len() as int) =~= q);
}

/// The checksum of the first `len` bytes of `b`, its field read as zero.
fn checksum_helper(b: &[u8], len: usize) -> (r: u32)
    requires
        26 <= len <= b@.len(),
    ensures
        r == page_checksum(b@.take(len as int)),
{
    let ghost p = b@.take(len as int);
    let ghost z = zeroed_checksum(p);
    let mut reg: u32 = 0;
    let mut i: usize = 0;
    assert(z.take(0) =~= Seq::<u8>::empty());
    while i < len
        invariant
            i <= len <= b@.len(),
            len >= 26,
            p == b@.take(len as int),
            z == zeroed_checksum(p),
            reg == crc_of(z.take(i as int)),
        decreases len - i,
    {
        let byte: u8 = if CHECKSUM_OFFSET <= i && i < CHECKSUM_OFFSET + 4 {
            0
        } else {
            b[i]
        };
        assert(byte == z[i as int]);
        proof {
            lemma_crc_of_take(z, i as int);
        }
        reg = crc_update(reg, byte);
        i = i + 1;
    }
    assert(z.take(len as int) =~= z);
    reg
}

/// Writes the checksum that the bytes call for into their checksum field.
pub(crate) fn recompute_checksum(bytes: &mut Vec<u8>)
    requires
        layout_ok(old(bytes)@),
    ensures
        final(bytes)@ == sealed(old(bytes)@),
{
    let len = bytes.len();
    let c = checksum_helper(bytes.as_slice(), len);
    assert(old(bytes)@.take(len as int) =~= old(bytes)@);
    bytes[22] = #[verifier::truncate] (c as u8);
    bytes[23] = #[verifier::truncate] ((c >> 8u32) as u8);
    bytes[24] = #[verifier::truncate] ((c >> 16u32) as u8);
    bytes[25] = #[verifier::truncate] ((c >> 24u32) as u8);
    assert(bytes@ =~= sealed(old(bytes)@));
}

/// Checks the structure of the page at the start of `buf`; `Ok` holds the lengths of its header
/// (segment table included) and of its body.
fn split_components(buf: &[u8]) -> (r: Result<(usize, usize), OggPageCheckError>)
    ensures
        match check_layout(buf@) {
            Ok(n) => r matches Ok((h, bl)) && h == header_len(buf@) && h + bl == n,
            Err(e) => r == Err::<(usize, usize), OggPageCheckError>(e),
        },
        r matches Ok((h, bl)) ==> HEADER_LEN <= h && h + bl <= buf@.len(),
{
    if buf.len() < HEADER_LEN {
        return Err(OggPageCheckError::TooShort);
    }
    if !(buf[0] == 0x4f && buf[1] == 0x67 && buf[2] == 0x67 && buf[3] == 0x53) {
        assert(buf@.take(4) != capture()) by {
            if buf@.take(4) == capture() {
                assert(buf@.take(4)[0] == buf@[0]);
                assert(buf@.take(4)[1] == buf@[1]);
                assert(buf@.take(4)[2] == buf@[2]);
                assert(buf@.take(4)[3] == buf@[3]);
            }
        }
        return Err(OggPageCheckError::BadCapture);
    }
    assert(buf@.take(4) =~= capture());
    if buf[4] != 0 {
        return Err(OggPageCheckError::BadVersion);
    }
    let count = buf[SEGMENT_COUNT_OFFSET] as usize;
    if buf.len() < HEADER_LEN + count {
        return Err(OggPageCheckError::TooShort);
    }
    let ghost table = segment_table(buf@);
    let mut body_len: usize = 0;
    let mut i: usize = 0;
    assert(table.take(0) =~= Seq::<u8>::empty());
    while i < count
        invariant
            i <= count,
            count == buf@[26],
            HEADER_LEN + count <= buf@.len(),
            table == segment_table(buf@),
            body_len == seq_sum(table.take(i as int)),
            body_len <= 255 * i,
        decreases count - i,
    {
        let adding = buf[HEADER_LEN + i];
        proof {
            assert(table.take(i + 1) =~= table.take(i as int).push(adding));
            lemma_seq_sum_push(table.take(i as int), adding);
        }
        body_len = body_len + adding as usize;
        i = i + 1;
    }
    assert(table.take(count as int) =~= table);
    let header = HEADER_LEN + count;
    if buf.len() - header < body_len {
        return Err(OggPageCheckError::TooShort);
    }
    Ok((header, body_len))
}

/// One valid page, holding exactly its own bytes.
pub struct OggPage {
    inner: Vec<u8>,
}

impl View for OggPage {
    type V = Seq<u8>;

    closed spec fn view(&self) -> Seq<u8> {
        self.inner@
    }
}

impl OggPage {
    #[verifier::type_invariant]
    spec fn inv(self) -> bool {
        valid_page(self.inner@)
    }

    /// The length of the page that starts `buf`, after checking its structure.
    fn measure_whole(buf: &[u8]) -> (r: Result<usize, OggPageCheckError>)
        ensures
            match check_layout(buf@) {
                Ok(n) => r == Ok::<usize, OggPageCheckError>(n as usize),
                Err(e) => r == Err::<usize, OggPageCheckError>(e),
            },
            r matches Ok(n) ==> HEADER_LEN <= n <= buf@.len(),
    {
        // reading the length brings in that it fits in a usize
        let _len = buf.len();
        match split_components(buf) {
            Ok((h, b)) => Ok(h + b),
            Err(e) => Err(e),
        }
    }

    /// Checks the checksum of the first `len` bytes of `buf`.
    fn validate_checksum(buf: &[u8], len: usize) -> (r: Result<(), OggPageCheckError>)
        requires
            26 <= len <= buf@.len(),
        ensures
            r is Ok <==> page_checksum(buf@.take(len as int)) == stored_checksum(buf@),
            r matches Err(e) ==> e == OggPageCheckError::BadCrc,
    {
        let computed = checksum_helper(buf, len);
        let in_page = read_le_u32(buf, CHECKSUM_OFFSET);
        if computed == in_page {
            Ok(())
        } else {
            Err(OggPageCheckError::BadCrc)
        }
    }

    /// Validates the page at the start of `buf`, which may run on past it, and copies it out.
    pub fn new(buf: &[u8]) -> (r: Result<OggPage, OggPageCheckError>)
        ensures
            match check_page(buf@) {
                Ok(n) => r matches Ok(p) && p@ == buf@.take(n),
                Err(e) => r matches Err(e2) && e2 == e,
            },
    {
        // reading the length brings in that it fits in a usize
        let _buf_len = buf.len();
        let len = match OggPage::measure_whole(buf) {
            Ok(n) => n,
            Err(e) => return Err(e),
        };
        if let Err(e) = OggPage::validate_checksum(buf, len) {
            return Err(e);
        }
        let mut inner: Vec<u8> = Vec::new();
        let mut i: usize = 0;
        while i < len
            invariant
                i <= len <= buf@.len(),
                inner@ == buf@.take(i as int),
            decreases len - i,
        {
            inner.push(buf[i]);
            i = i + 1;
            assert(inner@ =~= buf@.take(i as int));
        }
        proof {
            OggPage::lemma_check_prefix(buf@, len as int);
        }
        Ok(OggPage { inner })
    }

    /// Validates the page at the start of `buf` and keeps the buffer for it, without the bytes
    /// that run on past the page.
    pub fn new_mut(buf: Vec<u8>) -> (r: Result<OggPage, OggPageCheckError>)
        ensures
            match check_page(buf@) {
                Ok(n) => r matches Ok(p) && p@ == buf@.take(n),
                Err(e) => r matches Err(e2) && e2 == e,
            },
    {
        let ghost original = buf@;
        let mut buf = buf;
        let len = match OggPage::measure_whole(buf.as_slice()) {
            Ok(n) => n,
            Err(e) => return Err(e),
        };
        if let Err(e) = OggPage::validate_checksum(buf.as_slice(), len) {
            return Err(e);
        }
        buf.truncate(len);
        proof {
            OggPage::lemma_check_prefix(original, len as int);
        }
        Ok(OggPage { inner: buf })
    }

    /// The length of the valid page at the start of `buf`.
    pub(crate) fn measure(buf: &[u8]) -> (r: Result<usize, OggPageCheckError>)
        ensures
            match check_page(buf@) {
                Ok(n) => r == Ok::<usize, OggPageCheckError>(n as usize) && HEADER_LEN <= n
                    <= buf@.len(),
                Err(e) => r == Err::<usize, OggPageCheckError>(e),
            },
    {
        // reading the length brings in that it fits in a usize
        let _buf_len = buf.len();
        let len = match OggPage::measure_whole(buf) {
            Ok(n) => n,
            Err(e) => return Err(e),
        };
        if let Err(e) = OggPage::validate_checksum(buf, len) {
            return Err(e);
        }
        Ok(len)
    }

    /// A page that validates at the start of a buffer is valid on its own.
    pub proof fn lemma_check_prefix(s: Seq<u8>, n: int)
        requires
            check_page(s) == Ok::<int, OggPageCheckError>(n),
        ensures
            valid_page(s.take(n)),
    {
        let p = s.take(n);
        assert(p.take(4) =~= s.take(4));
        assert(segment_table(p) =~= segment_table(s));
        assert(p.take(n) =~= p);
    }

    /// The page's bytes.
    pub fn as_u8_slice(&self) -> (r: &[u8])
        ensures
            r@ == self@,
            valid_page(r@),
    {
        proof {
            use_type_invariant(self);
        }
        self.inner.as_slice()
    }

    /// The granule position.
    pub fn position(&self) -> (r: u64)
        ensures
            r == spec_position(self@),
    {
        proof {
            use_type_invariant(self);
        }
        read_le_u64(self.inner.as_slice(), POSITION_OFFSET)
    }

    /// The serial number of the logical stream.
    pub fn serial(&self) -> (r: u32)
        ensures
            r == spec_serial(self@),
    {
        proof {
            use_type_invariant(self);
        }
        read_le_u32(self.inner.as_slice(), SERIAL_OFFSET)
    }

    /// The page sequence number.
    pub fn sequence(&self) -> (r: u32)
        ensures
            r == spec_sequence(self@),
    {
        proof {
            use_type_invariant(self);
        }
        read_le_u32(self.inner.as_slice(), SEQUENCE_OFFSET)
    }

    fn flag(&self, mask: u8) -> (r: bool)
        ensures
            r == spec_flag(self@, mask),
    {
        proof {
            use_type_invariant(self);
        }
        (self.inner[FLAGS_OFFSET] & mask) != 0
    }

    /// Whether the page goes on with a packet begun on the page before.
    pub fn continued(&self) -> (r: bool)
        ensures
            r == spec_flag(self@, FLAG_CONTINUED),
    {
        self.flag(FLAG_CONTINUED)
    }

    /// Whether the page begins its logical stream.
    pub fn bos(&self) -> (r: bool)
        ensures
            r == spec_flag(self@, FLAG_BOS),
    {
        self.flag(FLAG_BOS)
    }

    /// Whether the page ends its logical stream.
    pub fn eos(&self) -> (r: bool)
        ensures
            r == spec_flag(self@, FLAG_EOS),
    {
        self.flag(FLAG_EOS)
    }
}


/// Writes `le_bytes_u32(v)` at `bytes[i..i+4]`.
fn write_u32_at(bytes: &mut Vec<u8>, i: usize, v: u32)
    requires
        i + 4 <= old(bytes)@.len(),
    ensures
        final(bytes)@ == splice(old(bytes)@, i as int, le_bytes_u32(v)),
{
    // reading the length brings in that it fits in a usize
    let _len = bytes.len();
    bytes[i] = #[verifier::truncate] (v as u8);
    bytes[i + 1] = #[verifier::truncate] ((v >> 8u32) as u8);
    bytes[i + 2] = #[verifier::truncate] ((v >> 16u32) as u8);
    bytes[i + 3] = #[verifier::truncate] ((v >> 24u32) as u8);
    assert(bytes@ =~= splice(old(bytes)@, i as int, le_bytes_u32(v)));
}

/// Writes `le_bytes_u64(v)` at `bytes[i..i+8]`.
fn write_u64_at(bytes: &mut Vec<u8>, i: usize, v: u64)
    requires
        i + 8 <= old(bytes)@.len(),
    ensures
        final(bytes)@ == splice(old(bytes)@, i as int, le_bytes_u64(v)),
{
    // reading the length brings in that it fits in a usize
    let _len = bytes.len();
    write_u32_at(bytes, i, #[verifier::truncate] (v as u32));
    write_u32_at(bytes, i + 4, #[verifier::truncate] ((v >> 32u64) as u32));
    assert(bytes@ =~= splice(old(bytes)@, i as int, le_bytes_u64(v)));
}

/// Sets or clears the flag bits of `mask`.
fn write_flag(bytes: &mut Vec<u8>, mask: u8, value: bool)
    requires
        FLAGS_OFFSET < old(bytes)@.len(),
    ensures
        final(bytes)@ == with_flag(old(bytes)@, mask, value),
{
    let header_value = bytes[FLAGS_OFFSET] & (0xFFu8 ^ mask);
    let add_this: u8 = if value {
        mask
    } else {
        0u8
    };
    bytes[FLAGS_OFFSET] = header_value | add_this;
}

/// Edits of the header fields of one page, whose checksum is brought up to date once, when the
/// edit is committed. While the edit is open the checksum field may be stale.
pub struct ChecksumGuard {
    bytes: Vec<u8>,
}

impl View for ChecksumGuard {
    type V = Seq<u8>;

    closed spec fn view(&self) -> Seq<u8> {
        self.bytes@
    }
}

impl ChecksumGuard {
    #[verifier::type_invariant]
    spec fn inv(self) -> bool {
        layout_ok(self.bytes@)
    }

    /// Sets the granule position.
    pub fn set_position(&mut self, granule: u64)
        ensures
            final(self)@ == splice(old(self)@, POSITION_OFFSET as int, le_bytes_u64(granule)),
    {
        proof {
            use_type_invariant(&*self);
        }
        let mut bytes = self.bytes.clone();
        write_u64_at(&mut bytes, POSITION_OFFSET, granule);
        proof {
            lemma_layout_kept(self.bytes@, bytes@);
        }
        *self = ChecksumGuard { bytes };
    }

    /// Sets the serial number.
    pub fn set_serial(&mut self, serial: u32)
        ensures
            final(self)@ == splice(old(self)@, SERIAL_OFFSET as int, le_bytes_u32(serial)),
    {
        proof {
            use_type_invariant(&*self);
        }
        let mut bytes = self.bytes.clone();
        write_u32_at(&mut bytes, SERIAL_OFFSET, serial);
        proof {
            lemma_layout_kept(self.bytes@, bytes@);
        }
        *self = ChecksumGuard { bytes };
    }

    /// Sets the page sequence number.
    pub fn set_sequence(&mut self, sequence: u32)
        ensures
            final(self)@ == splice(old(self)@, SEQUENCE_OFFSET as int, le_bytes_u32(sequence)),
    {
        proof {
            use_type_invariant(&*self);
        }
        let mut bytes = self.bytes.clone();
        write_u32_at(&mut bytes, SEQUENCE_OFFSET, sequence);
        proof {
            lemma_layout_kept(self.bytes@, bytes@);
        }
        *self = ChecksumGuard { bytes };
    }

    fn set_flag(&mut self, mask: u8, value: bool)
        ensures
            final(self)@ == with_flag(old(self)@, mask, value),
    {
        proof {
            use_type_invariant(&*self);
        }
        let mut bytes = self.bytes.clone();
        write_flag(&mut bytes, mask, value);
        proof {
            lemma_layout_kept(self.bytes@, bytes@);
        }
        *self = ChecksumGuard { bytes };
    }

    /// Sets or clears the continued-packet flag.
    pub fn set_continued(&mut self, value: bool)
        ensures
            final(self)@ == with_flag(old(self)@, FLAG_CONTINUED, value),
    {
        self.set_flag(FLAG_CONTINUED, value)
    }

    /// Sets or clears the beginning-of-stream flag.
    pub fn set_bos(&mut self, value: bool)
        ensures
            final(self)@ == with_flag(old(self)@, FLAG_BOS, value),
    {
        self.set_flag(FLAG_BOS, value)
    }

    /// Sets or clears the end-of-stream flag.
    pub fn set_eos(&mut self, value: bool)
        ensures
            final(self)@ == with_flag(old(self)@, FLAG_EOS, value),
    {
        self.set_flag(FLAG_EOS, value)
    }

    /// Ends the edit: the checksum is computed once, over the fields as they now stand.
    pub fn commit(self) -> (r: OggPage)
        ensures
            r@ == sealed(self@),
            valid_page(r@),
    {
        proof {
            use_type_invariant(&self);
        }
        let mut bytes = self.bytes;
        recompute_checksum(&mut bytes);
        proof {
            lemma_sealed(self.bytes@);
        }
        OggPage { inner: bytes }
    }

    /// Runs `func` on the open edit and then commits it, whatever `func` did.
    pub fn scoped<F>(self, func: F) -> (r: OggPage) where F: Fn(ChecksumGuard) -> ChecksumGuard
        requires
            func.requires((self,)),
        ensures
            exists|g: ChecksumGuard| func.ensures((self,), g) && r@ == sealed(g@),
            valid_page(r@),
    {
        let g = func(self);
        g.commit()
    }
}

impl OggPage {
    /// Opens an edit of the header fields; `commit` brings the checksum up to date.
    pub fn begin(self) -> (r: ChecksumGuard)
        ensures
            r@ == self@,
    {
        proof {
            use_type_invariant(&self);
        }
        ChecksumGuard { bytes: self.inner }
    }

    /// Replaces the page by `edited`, committed.
    fn store(&mut self, edited: ChecksumGuard)
        ensures
            final(self)@ == sealed(edited@),
    {
        *self = edited.commit();
    }

    /// Sets the granule position and the checksum.
    pub fn set_position(&mut self, granule: u64)
        ensures
            final(self)@ == sealed(splice(old(self)@, POSITION_OFFSET as int, le_bytes_u64(granule))),
    {
        let mut tx = self.duplicate().begin();
        tx.set_position(granule);
        self.store(tx);
    }

    /// Sets the serial number and the checksum.
    pub fn set_serial(&mut self, serial: u32)
        ensures
            final(self)@ == sealed(splice(old(self)@, SERIAL_OFFSET as int, le_bytes_u32(serial))),
    {
        let mut tx = self.duplicate().begin();
        tx.set_serial(serial);
        self.store(tx);
    }

    /// Sets the page sequence number and the checksum.
    pub fn set_sequence(&mut self, sequence: u32)
        ensures
            final(self)@ == sealed(splice(old(self)@, SEQUENCE_OFFSET as int, le_bytes_u32(sequence))),
    {
        let mut tx = self.duplicate().begin();
        tx.set_sequence(sequence);
        self.store(tx);
    }

    /// Sets or clears the continued-packet flag, and the checksum.
    pub fn set_continued(&mut self, value: bool)
        ensures
            final(self)@ == sealed(with_flag(old(self)@, FLAG_CONTINUED, value)),
    {
        let mut tx = self.duplicate().begin();
        tx.set_continued(value);
        self.store(tx);
    }

    /// Sets or clears the beginning-of-stream flag, and the checksum.
    pub fn set_bos(&mut self, value: bool)
        ensures
            final(self)@ == sealed(with_flag(old(self)@, FLAG_BOS, value)),
    {
        let mut tx = self.duplicate().begin();
        tx.set_bos(value);
        self.store(tx);
    }

    /// Sets or clears the end-of-stream flag, and the checksum.
    pub fn set_eos(&mut self, value: bool)
        ensures
            final(self)@ == sealed(with_flag(old(self)@, FLAG_EOS, value)),
    {
        let mut tx = self.duplicate().begin();
        tx.set_eos(value);
        self.store(tx);
    }

    fn duplicate(&self) -> (r: OggPage)
        ensures
            r@ == self@,
    {
        proof {
            use_type_invariant(self);
        }
        OggPage { inner: self.inner.clone() }
    }

    /// The header, segment table included.
    pub fn header(&self) -> (r: &[u8])
        ensures
            r@ == self@.take(header_len(self@)),
    {
        proof {
            use_type_invariant(self);
        }
        let h = HEADER_LEN + self.inner[SEGMENT_COUNT_OFFSET] as usize;
        vstd::slice::slice_subrange(self.inner.as_slice(), 0, h)
    }

    /// The body: every packet byte of the page.
    pub fn body(&self) -> (r: &[u8])
        ensures
            r@ == page_body(self@),
    {
        proof {
            use_type_invariant(self);
        }
        let h = HEADER_LEN + self.inner[SEGMENT_COUNT_OFFSET] as usize;
        vstd::slice::slice_subrange(self.inner.as_slice(), h, self.inner.len())
    }
}

/// The body of page `p`.
pub open spec fn page_body(p: Seq<u8>) -> Seq<u8> {
    p.subrange(header_len(p), p.len() as int)
}


/// The packets of page `p`, each a piece of its body, in page order.
pub open spec fn page_packets(p: Seq<u8>) -> Seq<Seq<u8>> {
    split_by(page_body(p), packet_sizes(segment_table(p)))
}

impl OggPage {
    /// The packets of the page, in order, one per `next` call.
    pub fn raw_packets<'a>(&'a self) -> (r: RawPackets<'a>)
        ensures
            r.wf(),
            r.page() == self@,
            r.remaining() == page_packets(self@),
    {
        proof {
            use_type_invariant(self);
        }
        let packet_count = self.inner[SEGMENT_COUNT_OFFSET] as usize;
        let r = RawPackets {
            page: self,
            packet: 0,
            packet_count,
            packet_offset: HEADER_LEN,
            body_offset: HEADER_LEN + packet_count,
        };
        proof {
            let t = segment_table(self@);
            assert(t.skip(0) =~= t);
            assert(t.take(0) =~= Seq::<u8>::empty());
            lemma_seq_sum_take_full(t);
        }
        r
    }
}

/// Walks the packets of one page. Packets are page-local: one whose last lacing value on the page
/// is 255 ends with the page.
pub struct RawPackets<'a> {
    page: &'a OggPage,
    // the number of lacing values used so far
    packet: usize,
    // the number of lacing values of the page
    packet_count: usize,
    // where the lacing values start in the page
    packet_offset: usize,
    // where the next packet starts in the page
    body_offset: usize,
}

impl<'a> RawPackets<'a> {
    /// The bytes of the page walked over.
    pub closed spec fn page(&self) -> Seq<u8> {
        self.page@
    }

    pub closed spec fn wf(&self) -> bool {
        let p = self.page@;
        let t = segment_table(p);
        &&& valid_page(p)
        &&& self.packet_count == t.len()
        &&& self.packet_offset == HEADER_LEN
        &&& self.packet <= self.packet_count
        &&& self.body_offset == header_len(p) + seq_sum(t.take(self.packet as int))
    }

    /// The packets not handed out yet.
    pub closed spec fn remaining(&self) -> Seq<Seq<u8>> {
        let p = self.page@;
        split_by(
            p.subrange(self.body_offset as int, p.len() as int),
            packet_sizes(segment_table(p).skip(self.packet as int)),
        )
    }

    /// The next packet of the page, if any is left.
    pub fn next(&mut self) -> (r: Option<&'a [u8]>)
        requires
            old(self).wf(),
        ensures
            final(self).wf(),
            final(self).page() == old(self).page(),
            r is None <==> old(self).remaining().len() == 0,
            r is None ==> final(self).remaining() == old(self).remaining(),
            r matches Some(pkt) ==> pkt@ == old(self).remaining()[0] && final(self).remaining()
                == old(self).remaining().drop_first(),
    {
        let ghost p = self.page@;
        let ghost t = segment_table(p);
        let ghost p0 = self.packet as int;
        proof {
            use_type_invariant(self.page);
            lemma_seq_sum_take_mono(t, p0, t.len() as int);
            lemma_seq_sum_take_full(t);
        }
        if self.packet_count <= self.packet {
            assert(t.skip(p0).len() == 0);
            return None;
        }
        let slice = self.page.as_u8_slice();
        let plen = slice.len();
        assert(page_len(p) == p.len());
        let offset = self.body_offset;
        let mut length: usize = 0;
        proof {
            lemma_lace_nonempty(t.skip(p0), 0, false);
        }
        let mut done = false;
        while self.packet < self.packet_count && !done
            invariant
                self.page@ == p,
                t == segment_table(p),
                valid_page(p),
                slice@ == p,
                plen == p.len(),
                page_len(p) == p.len(),
                seq_sum(t.take(t.len() as int)) == seq_sum(t),
                p0 < self.packet_count,
                self.packet_count == t.len(),
                self.packet_offset == HEADER_LEN,
                p0 <= self.packet <= self.packet_count,
                self.body_offset == offset,
                offset == header_len(p) + seq_sum(t.take(p0)),
                offset + length == header_len(p) + seq_sum(t.take(self.packet as int)),
                !done ==> packet_sizes(t.skip(p0)) == lace(t.skip(self.packet as int), length as nat, self.packet > p0),
                done ==> self.packet > p0 && packet_sizes(t.skip(p0)) == seq![length as nat].add(
                    packet_sizes(t.skip(self.packet as int)),
                ),
            decreases self.packet_count - self.packet,
        {
            let adding = slice[self.packet_offset + self.packet];
            assert(adding == t[self.packet as int]);
            proof {
                lemma_lace_step(t, self.packet as int, length as nat, self.packet > p0);
                assert(t.take(self.packet + 1) =~= t.take(self.packet as int).push(adding));
                lemma_seq_sum_push(t.take(self.packet as int), adding);
                lemma_seq_sum_take_mono(t, self.packet + 1, t.len() as int);
            }
            length = length + adding as usize;
            self.packet = self.packet + 1;
            if adding < 255 {
                done = true;
            }
        }
        if !done {
            assert(t.skip(self.packet as int) =~= Seq::<u8>::empty());
            assert(packet_sizes(t.skip(self.packet as int)) =~= Seq::<nat>::empty());
            assert(packet_sizes(t.skip(p0)) =~= seq![length as nat].add(
                packet_sizes(t.skip(self.packet as int))));
        }
        let ghost sizes = packet_sizes(t.skip(p0));
        assert(sizes[0] == length as nat);
        assert(sizes.drop_first() =~= packet_sizes(t.skip(self.packet as int)));
        proof {
            lemma_seq_sum_take_mono(t, self.packet as int, t.len() as int);
        }
        self.body_offset = offset + length;
        let pkt = vstd::slice::slice_subrange(slice, offset, offset + length);
        proof {
            let rest = p.subrange(offset as int, p.len() as int);
            assert(pkt@ =~= rest.take(length as int));
            assert(rest.skip(length as int) =~= p.subrange(offset + length, p.len() as int));
        }
        Some(pkt)
    }
}

/// A header with capture pattern, version 0, zero flags, granule position, serial, sequence and
/// checksum, and `count` lacing values to follow.
pub open spec fn skeleton(count: u8) -> Seq<u8> {
    capture() + Seq::new(22, |i: int| 0u8) + seq![count]
}

/// The skeleton header as bytes.
pub(crate) fn skeleton_bytes(count: u8) -> (r: Vec<u8>)
    ensures
        r@ == skeleton(count),
{
    let r = vec![
        0x4fu8, 0x67u8, 0x67u8, 0x53u8, // capture
        0u8, // version
        0u8, // flags
        0u8, 0u8, 0u8, 0u8, 0u8, 0u8, 0u8, 0u8, // granule position
        0u8, 0u8, 0u8, 0u8, // serial
        0u8, 0u8, 0u8, 0u8, // sequence
        0u8, 0u8, 0u8, 0u8, // checksum
        count,
    ];
    assert(r@ =~= skeleton(count));
    r
}

/// An owned buffer that holds exactly one valid page.
pub struct OggPageBuf {
    inner: Vec<u8>,
}

impl View for OggPageBuf {
    type V = Seq<u8>;

    closed spec fn view(&self) -> Seq<u8> {
        self.inner@
    }
}

impl OggPageBuf {
    #[verifier::type_invariant]
    spec fn inv(self) -> bool {
        valid_page(self.inner@)
    }

    pub(crate) fn from_built(inner: Vec<u8>) -> (r: OggPageBuf)
        requires
            valid_page(inner@),
        ensures
            r@ == inner@,
    {
        OggPageBuf { inner }
    }

    /// Validates the page at the start of `buf` and keeps the buffer for it, without the bytes
    /// that run on past the page.
    pub fn new(buf: Vec<u8>) -> (r: Result<OggPageBuf, OggPageCheckError>)
        ensures
            match check_page(buf@) {
                Ok(n) => r matches Ok(p) && p@ == buf@.take(n),
                Err(e) => r matches Err(e2) && e2 == e,
            },
    {
        match OggPage::new_mut(buf) {
            Ok(page) => {
                let inner = page.into_inner();
                Ok(OggPageBuf { inner })
            },
            Err(e) => Err(e),
        }
    }

    /// The page with no packets, and all header fields zero but the checksum.
    pub fn empty() -> (r: OggPageBuf)
        ensures
            r@ == sealed(skeleton(0)),
            valid_page(r@),
    {
        let mut inner = skeleton_bytes(0);
        proof {
            let s = skeleton(0);
            assert(s.take(4) =~= capture());
            assert(segment_table(s) =~= Seq::<u8>::empty());
            lemma_sealed(s);
        }
        recompute_checksum(&mut inner);
        OggPageBuf { inner }
    }

    /// The page's bytes.
    pub fn into_inner(self) -> (r: Vec<u8>)
        ensures
            r@ == self@,
    {
        self.inner
    }

    /// The page, as an `OggPage`.
    pub fn into_cow(self) -> (r: OggPage)
        ensures
            r@ == self@,
    {
        proof {
            use_type_invariant(&self);
        }
        OggPage { inner: self.inner }
    }
}

impl OggPage {
    /// The page's bytes.
    pub fn into_inner(self) -> (r: Vec<u8>)
        ensures
            r@ == self@,
            valid_page(r@),
    {
        proof {
            use_type_invariant(&self);
        }
        self.inner
    }

    /// A copy of the page.
    pub fn into_cow(&self) -> (r: OggPage)
        ensures
            r@ == self@,
    {
        self.duplicate()
    }
}

} // verus!
