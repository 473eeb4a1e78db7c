//! Vorbis header packets: classification, identification and comment headers.
use vstd::prelude::*;
use vstd::utf8::{
    decode_utf8, encode_utf8, encode_utf8_decode_utf8, encode_utf8_valid_utf8, valid_utf8,
    valid_utf8_concat,
};

use crate::bytes::{le_bytes_u32, le_u32, lemma_le_u32_of_bytes, read_le_u32};
use crate::page::{page_packets, OggPageCheckError};
use crate::track::{
    check_track, duration_ms, max_position, spec_duration_ms, track_pages, OggTrack,
    TrackPageIter,
};
use crate::reader::{Error, Reader};

verus! {

/// Why a packet is not a well-formed Vorbis packet.
#[derive(Debug, Clone, Copy)]
pub enum VorbisPacketCheckError {
    BadCapture,
    Invalid(&'static str),
    BadIdentificationHeader,
    BadIdentificationHeaderLength,
}

pub const TRUNCATED: &'static str = "truncated comment header";
pub const BAD_UTF8: &'static str = "invalid utf8 in comment header";
pub const NO_EQUALS: &'static str = "Invalid comment";
pub const FRAMING_UNSET: &'static str = "framing bit unset";

/// The kind of a Vorbis packet, from its first byte.
#[derive(Debug, PartialEq, Eq, Structural, Clone, Copy)]
pub enum VorbisPacketType {
    Audio,
    IdentificationHeader,
    CommentHeader,
    SetupHeader,
}

pub open spec fn packet_type_of(n: u8) -> Option<VorbisPacketType> {
    if n == 0 {
        Some(VorbisPacketType::Audio)
    } else if n == 1 {
        Some(VorbisPacketType::IdentificationHeader)
    } else if n == 3 {
        Some(VorbisPacketType::CommentHeader)
    } else if n == 5 {
        Some(VorbisPacketType::SetupHeader)
    } else {
        None
    }
}

impl VorbisPacketType {
    pub fn from_u8(n: u8) -> (r: Option<VorbisPacketType>)
        ensures
            r == packet_type_of(n),
    {
        match n {
            0 => Some(VorbisPacketType::Audio),
            1 => Some(VorbisPacketType::IdentificationHeader),
            3 => Some(VorbisPacketType::CommentHeader),
            5 => Some(VorbisPacketType::SetupHeader),
            _ => None,
        }
    }
}

/// The stream parameters of an identification header.
#[derive(Debug, PartialEq, Eq, Structural, Clone, Copy)]
pub struct IdentificationHeader {
    pub vorbis_version: u32,
    pub audio_channels: u8,
    pub audio_sample_rate: u32,
    pub bitrate_maximum: u32,
    pub bitrate_nominal: u32,
    pub bitrate_minimum: u32,
    pub blocksize_0: u8,
    pub blocksize_1: u8,
}

/// The vendor string and the ordered tags of a comment header.
#[derive(Debug, Clone)]
pub struct Comments {
    pub vendor: String,
    pub comments: Vec<(String, String)>,
}

/// A tag as characters.
pub open spec fn tag_view(kv: (String, String)) -> (Seq<char>, Seq<char>) {
    (kv.0@, kv.1@)
}

impl View for Comments {
    type V = (Seq<char>, Seq<(Seq<char>, Seq<char>)>);

    open spec fn view(&self) -> (Seq<char>, Seq<(Seq<char>, Seq<char>)>) {
        (self.vendor@, self.comments@.map_values(|kv: (String, String)| tag_view(kv)))
    }
}

/// The bytes "vorbis".
pub open spec fn vorbis_magic() -> Seq<u8> {
    seq![0x76u8, 0x6fu8, 0x72u8, 0x62u8, 0x69u8, 0x73u8]
}

pub open spec fn has_magic(b: Seq<u8>) -> bool {
    b.len() >= 7 && b.subrange(1, 7) == vorbis_magic()
}

/// The identification header that packet `b` holds, or why it holds none.
pub open spec fn parse_identification(b: Seq<u8>) -> Result<IdentificationHeader, VorbisPacketCheckError> {
    if b.len() < 30 {
        Err(VorbisPacketCheckError::BadIdentificationHeaderLength)
    } else if b[11] == 0 || le_u32(b, 12) == 0 {
        Err(VorbisPacketCheckError::BadIdentificationHeader)
    } else if b[28] & 0x0f > b[28] >> 4u8 || b[29] & 1 != 1 {
        Err(VorbisPacketCheckError::BadIdentificationHeader)
    } else {
        Ok(
            IdentificationHeader {
                vorbis_version: le_u32(b, 7),
                audio_channels: b[11],
                audio_sample_rate: le_u32(b, 12),
                bitrate_maximum: le_u32(b, 16),
                bitrate_nominal: le_u32(b, 20),
                bitrate_minimum: le_u32(b, 24),
                blocksize_0: b[28] & 0x0f,
                blocksize_1: b[28] >> 4u8,
            },
        )
    }
}

/// The index of the first `x` in `c` from `i` on.
pub open spec fn find_byte(c: Seq<u8>, x: u8, i: int) -> Option<int>
    decreases c.len() - i,
{
    if i < 0 || i >= c.len() {
        None
    } else if c[i] == x {
        Some(i)
    } else {
        find_byte(c, x, i + 1)
    }
}

pub type Tag = (Seq<char>, Seq<char>);

/// The tag that the text of one comment `c` holds: the text before the first `=` and the text
/// after it.
pub open spec fn parse_tag(c: Seq<u8>) -> Result<Tag, VorbisPacketCheckError> {
    if !valid_utf8(c) {
        Err(VorbisPacketCheckError::Invalid(BAD_UTF8))
    } else {
        match find_byte(c, 0x3d, 0) {
            None => Err(VorbisPacketCheckError::Invalid(NO_EQUALS)),
            Some(i) => if valid_utf8(c.take(i)) && valid_utf8(c.skip(i + 1)) {
                Ok((decode_utf8(c.take(i)), decode_utf8(c.skip(i + 1))))
            } else {
                Err(VorbisPacketCheckError::Invalid(BAD_UTF8))
            },
        }
    }
}

/// The `count` comments of `b` from `pos` on, and where they end.
pub open spec fn parse_tags(b: Seq<u8>, pos: int, count: nat) -> Result<(Seq<Tag>, int), VorbisPacketCheckError>
    decreases count,
{
    if count == 0 {
        Ok((seq![], pos))
    } else if pos + 4 > b.len() {
        Err(VorbisPacketCheckError::Invalid(TRUNCATED))
    } else {
        let len = le_u32(b, pos) as int;
        if pos + 4 + len > b.len() {
            Err(VorbisPacketCheckError::Invalid(TRUNCATED))
        } else {
            match parse_tag(b.subrange(pos + 4, pos + 4 + len)) {
                Err(e) => Err(e),
                Ok(tag) => match parse_tags(b, pos + 4 + len, (count - 1) as nat) {
                    Err(e) => Err(e),
                    Ok((rest, end)) => Ok((seq![tag].add(rest), end)),
                },
            }
        }
    }
}

/// The vendor and tags that comment packet `b` holds, or why it holds none.
pub open spec fn parse_comment(b: Seq<u8>) -> Result<(Seq<char>, Seq<Tag>), VorbisPacketCheckError> {
    if 11 > b.len() {
        Err(VorbisPacketCheckError::Invalid(TRUNCATED))
    } else {
        let vlen = le_u32(b, 7) as int;
        if 11 + vlen > b.len() {
            Err(VorbisPacketCheckError::Invalid(TRUNCATED))
        } else if !valid_utf8(b.subrange(11, 11 + vlen)) {
            Err(VorbisPacketCheckError::Invalid(BAD_UTF8))
        } else if 11 + vlen + 4 > b.len() {
            Err(VorbisPacketCheckError::Invalid(TRUNCATED))
        } else {
            match parse_tags(b, 11 + vlen + 4, le_u32(b, 11 + vlen) as nat) {
                Err(e) => Err(e),
                Ok((tags, end)) => if end + 1 > b.len() {
                    Err(VorbisPacketCheckError::Invalid(TRUNCATED))
                } else if b[end] & 1 != 1 {
                    Err(VorbisPacketCheckError::Invalid(FRAMING_UNSET))
                } else {
                    Ok((decode_utf8(b.subrange(11, 11 + vlen)), tags))
                },
            }
        }
    }
}

/// The check of packet `b`: its type, and for the two parsed headers their magic and contents.
pub open spec fn check_packet(b: Seq<u8>) -> Result<(), VorbisPacketCheckError> {
    if b.len() < 1 {
        Err(VorbisPacketCheckError::BadCapture)
    } else {
        match packet_type_of(b[0]) {
            None => Err(VorbisPacketCheckError::BadCapture),
            Some(VorbisPacketType::IdentificationHeader) => if !has_magic(b) {
                Err(VorbisPacketCheckError::BadCapture)
            } else {
                match parse_identification(b) {
                    Ok(_) => Ok(()),
                    Err(e) => Err(e),
                }
            },
            Some(VorbisPacketType::CommentHeader) => if !has_magic(b) {
                Err(VorbisPacketCheckError::BadCapture)
            } else {
                match parse_comment(b) {
                    Ok(_) => Ok(()),
                    Err(e) => Err(e),
                }
            },
            Some(_) => Ok(()),
        }
    }
}

/// Relies on `std::str::from_utf8`: it accepts exactly the valid UTF-8 byte strings, and the
/// text is then the characters that they encode.
#[verifier::external_body]
fn utf8_str(b: &[u8]) -> (r: Option<&str>)
    ensures
        r is Some <==> valid_utf8(b@),
        r matches Some(s) ==> s@ == decode_utf8(b@),
{
    std::str::from_utf8(b).ok()
}

/// Decodes `b` as UTF-8 into an owned string.
fn decode_string(b: &[u8]) -> (r: Result<String, VorbisPacketCheckError>)
    ensures
        r is Ok <==> valid_utf8(b@),
        r matches Ok(s) ==> s@ == decode_utf8(b@),
        r matches Err(e) ==> e == VorbisPacketCheckError::Invalid(BAD_UTF8),
{
    match utf8_str(b) {
        Some(s) => Ok(s.to_owned()),
        None => Err(VorbisPacketCheckError::Invalid(BAD_UTF8)),
    }
}

fn truncated(_e: Error) -> (r: VorbisPacketCheckError)
    ensures
        r == VorbisPacketCheckError::Invalid(TRUNCATED),
{
    VorbisPacketCheckError::Invalid(TRUNCATED)
}

/// Splits the text of one comment at its first `=`.
fn split_comment(c: &[u8]) -> (r: Result<(String, String), VorbisPacketCheckError>)
    ensures
        match parse_tag(c@) {
            Ok(t) => r matches Ok(kv) && tag_view(kv) == t,
            Err(e) => r matches Err(e2) && e2 == e,
        },
{
    if let Err(e) = decode_string(c) {
        return Err(e);
    }
    let n = c.len();
    let mut i: usize = 0;
    while i < n
        invariant
            n == c@.len(),
            i <= n,
            valid_utf8(c@),
            find_byte(c@, 0x3d, 0) == find_byte(c@, 0x3d, i as int),
        decreases n - i,
    {
        if c[i] == 0x3d {
            assert(find_byte(c@, 0x3d, i as int) == Some(i as int));
            let kb = vstd::slice::slice_subrange(c, 0, i);
            let vb = vstd::slice::slice_subrange(c, i + 1, n);
            assert(kb@ =~= c@.take(i as int));
            assert(vb@ =~= c@.skip(i + 1));
            let key = match decode_string(kb) {
                Ok(k) => k,
                Err(e) => return Err(e),
            };
            let val = match decode_string(vb) {
                Ok(v) => v,
                Err(e) => return Err(e),
            };
            return Ok((key, val));
        }
        i = i + 1;
    }
    Err(VorbisPacketCheckError::Invalid(NO_EQUALS))
}


/// The tags as characters.
pub open spec fn tags_view(tags: Seq<(String, String)>) -> Seq<Tag> {
    tags.map_values(|kv: (String, String)| tag_view(kv))
}

/// `r` is the outcome of reading tags `done` and then the outcome `rest` of the others.
pub open spec fn after(done: Seq<Tag>, rest: Result<(Seq<Tag>, int), VorbisPacketCheckError>) -> Result<(Seq<Tag>, int), VorbisPacketCheckError> {
    match rest {
        Ok((tags, end)) => Ok((done + tags, end)),
        Err(e) => Err(e),
    }
}

/// Reads the identification header of packet `buf`.
fn parse_identification_header(buf: &[u8]) -> (r: Result<IdentificationHeader, VorbisPacketCheckError>)
    ensures
        match parse_identification(buf@) {
            Ok(h) => r == Ok::<IdentificationHeader, VorbisPacketCheckError>(h),
            Err(e) => r matches Err(e2) && e2 == e,
        },
{
    if buf.len() < 30 {
        return Err(VorbisPacketCheckError::BadIdentificationHeaderLength);
    }
    let vorbis_version = read_le_u32(buf, 7);
    let audio_channels = buf[11];
    let audio_sample_rate = read_le_u32(buf, 12);
    if audio_channels == 0 || audio_sample_rate == 0 {
        // the version ought to be 0, but is not checked
        return Err(VorbisPacketCheckError::BadIdentificationHeader);
    }
    let bitrate_maximum = read_le_u32(buf, 16);
    let bitrate_nominal = read_le_u32(buf, 20);
    let bitrate_minimum = read_le_u32(buf, 24);
    let blocksize_byte = buf[28];
    let blocksize_0 = blocksize_byte & 0x0f;
    let blocksize_1 = blocksize_byte >> 4u8;
    if blocksize_0 > blocksize_1 || buf[29] & 1 != 1 {
        return Err(VorbisPacketCheckError::BadIdentificationHeader);
    }
    Ok(
        IdentificationHeader {
            vorbis_version,
            audio_channels,
            audio_sample_rate,
            bitrate_maximum,
            bitrate_nominal,
            bitrate_minimum,
            blocksize_0,
            blocksize_1,
        },
    )
}

/// Reads the comment header of packet `buf`, whose first seven bytes are its type and magic.
fn parse_comment_header(buf: &[u8]) -> (r: Result<Comments, VorbisPacketCheckError>)
    requires
        buf@.len() >= 7,
    ensures
        match parse_comment(buf@) {
            Ok(c) => r matches Ok(cs) && cs@ == c,
            Err(e) => r matches Err(e2) && e2 == e,
        },
{
    let ghost b = buf@;
    let mut reader = Reader::new(buf);
    let _magic = reader.read_buffer(7);
    let vendor_len = match reader.read_u32() {
        Ok(v) => v,
        Err(e) => return Err(truncated(e)),
    };
    let vendor_buf = match reader.read_buffer(vendor_len as usize) {
        Ok(v) => v,
        Err(e) => return Err(truncated(e)),
    };
    let vendor = match decode_string(vendor_buf) {
        Ok(v) => v,
        Err(e) => return Err(e),
    };
    let comment_count = match reader.read_u32() {
        Ok(v) => v,
        Err(e) => return Err(truncated(e)),
    };
    let ghost start = reader.pos();
    let ghost vlen = vendor_len as int;
    assert(vendor_buf@ =~= b.subrange(11, 11 + vlen));
    let mut comments: Vec<(String, String)> = Vec::new();
    let mut k: u32 = 0;
    while k < comment_count
        invariant
            reader.wf(),
            reader.data() == b,
            b == buf@,
            start <= reader.pos() <= b.len(),
            vlen == le_u32(b, 7),
            11 + vlen + 4 <= b.len(),
            start == 11 + vlen + 4,
            comment_count == le_u32(b, 11 + vlen),
            valid_utf8(b.subrange(11, 11 + vlen)),
            vendor@ == decode_utf8(b.subrange(11, 11 + vlen)),
            k <= comment_count,
            parse_tags(b, start, comment_count as nat) == after(
                tags_view(comments@),
                parse_tags(b, reader.pos(), (comment_count - k) as nat),
            ),
        decreases comment_count - k,
    {
        let ghost pos = reader.pos();
        let ghost left = (comment_count - k) as nat;
        let comment_len = match reader.read_u32() {
            Ok(v) => v,
            Err(e) => {
                assert(parse_tags(b, pos, left) == Err::<(Seq<Tag>, int), VorbisPacketCheckError>(
                    VorbisPacketCheckError::Invalid(TRUNCATED)));
                assert(parse_tags(b, start, comment_count as nat) == Err::<(Seq<Tag>, int), VorbisPacketCheckError>(
                    VorbisPacketCheckError::Invalid(TRUNCATED)));
                assert(parse_comment(b) == Err::<(Seq<char>, Seq<Tag>), VorbisPacketCheckError>(
                    VorbisPacketCheckError::Invalid(TRUNCATED)));
                return Err(truncated(e));
            },
        };
        let comment_buf = match reader.read_buffer(comment_len as usize) {
            Ok(v) => v,
            Err(e) => {
                assert(parse_tags(b, pos, left) == Err::<(Seq<Tag>, int), VorbisPacketCheckError>(
                    VorbisPacketCheckError::Invalid(TRUNCATED)));
                assert(parse_tags(b, start, comment_count as nat) == Err::<(Seq<Tag>, int), VorbisPacketCheckError>(
                    VorbisPacketCheckError::Invalid(TRUNCATED)));
                assert(parse_comment(b) == Err::<(Seq<char>, Seq<Tag>), VorbisPacketCheckError>(
                    VorbisPacketCheckError::Invalid(TRUNCATED)));
                return Err(truncated(e));
            },
        };
        assert(comment_buf@ =~= b.subrange(pos + 4, pos + 4 + comment_len as int));
        let kv = match split_comment(comment_buf) {
            Ok(kv) => kv,
            Err(e) => {
                assert(parse_tags(b, pos, left) == Err::<(Seq<Tag>, int), VorbisPacketCheckError>(e));
                return Err(e);
            },
        };
        let ghost done = tags_view(comments@);
        comments.push(kv);
        proof {
            assert(tags_view(comments@) =~= done.push(tag_view(kv)));
            let rest = parse_tags(b, reader.pos(), (left - 1) as nat);
            match rest {
                Ok((more, end)) => {
                    assert(done + seq![tag_view(kv)].add(more) =~= done.push(tag_view(kv)) + more);
                },
                Err(_) => {},
            }
        }
        k = k + 1;
    }
    let framing = match reader.read_u8() {
        Ok(v) => v,
        Err(e) => return Err(truncated(e)),
    };
    if framing & 1 != 1 {
        return Err(VorbisPacketCheckError::Invalid(FRAMING_UNSET));
    }
    assert(tags_view(comments@) =~= Seq::<Tag>::empty() + tags_view(comments@));
    Ok(Comments { vendor, comments })
}

/// Checks packet `buf`: its type, and for identification and comment headers their magic and
/// contents.
fn check_bytes(buf: &[u8]) -> (r: Result<(), VorbisPacketCheckError>)
    ensures
        match check_packet(buf@) {
            Ok(_) => r is Ok,
            Err(e) => r matches Err(e2) && e2 == e,
        },
{
    if buf.len() < 1 {
        return Err(VorbisPacketCheckError::BadCapture);
    }
    match VorbisPacketType::from_u8(buf[0]) {
        None => {
            return Err(VorbisPacketCheckError::BadCapture);
        },
        Some(VorbisPacketType::IdentificationHeader) => {
            if !has_vorbis_magic(buf) {
                return Err(VorbisPacketCheckError::BadCapture);
            }
            if let Err(e) = parse_identification_header(buf) {
                return Err(e);
            }
        },
        Some(VorbisPacketType::CommentHeader) => {
            if !has_vorbis_magic(buf) {
                return Err(VorbisPacketCheckError::BadCapture);
            }
            if let Err(e) = parse_comment_header(buf) {
                return Err(e);
            }
        },
        _ => {},
    }
    Ok(())
}

fn has_vorbis_magic(buf: &[u8]) -> (r: bool)
    ensures
        r == has_magic(buf@),
{
    if buf.len() < 7 {
        return false;
    }
    let r = buf[1] == 0x76 && buf[2] == 0x6f && buf[3] == 0x72 && buf[4] == 0x62 && buf[5] == 0x69
        && buf[6] == 0x73;
    proof {
        let m = buf@.subrange(1, 7);
        if r {
            assert(m =~= vorbis_magic());
        } else {
            if m == vorbis_magic() {
                assert(m[0] == buf@[1] && m[1] == buf@[2] && m[2] == buf@[3] && m[3] == buf@[4]
                    && m[4] == buf@[5] && m[5] == buf@[6]);
            }
        }
    }
    r
}

/// One checked Vorbis packet.
pub struct VorbisPacket {
    inner: Vec<u8>,
}

impl View for VorbisPacket {
    type V = Seq<u8>;

    closed spec fn view(&self) -> Seq<u8> {
        self.inner@
    }
}

/// The identification header that checked packet `b` holds, if it is one.
pub open spec fn identification_of(b: Seq<u8>) -> Option<IdentificationHeader> {
    if b.len() > 0 && b[0] == 1 {
        match parse_identification(b) {
            Ok(h) => Some(h),
            Err(_) => None,
        }
    } else {
        None
    }
}

/// The comments that checked packet `b` holds, if it is a comment header.
pub open spec fn comments_of(b: Seq<u8>) -> Option<(Seq<char>, Seq<Tag>)> {
    if b.len() > 0 && b[0] == 3 {
        match parse_comment(b) {
            Ok(c) => Some(c),
            Err(_) => None,
        }
    } else {
        None
    }
}

impl VorbisPacket {
    #[verifier::type_invariant]
    spec fn inv(self) -> bool {
        check_packet(self.inner@) is Ok
    }

    /// Checks `buf` and copies it into a packet.
    pub fn new(buf: &[u8]) -> (r: Result<VorbisPacket, VorbisPacketCheckError>)
        ensures
            match check_packet(buf@) {
                Ok(_) => r matches Ok(p) && p@ == buf@,
                Err(e) => r matches Err(e2) && e2 == e,
            },
    {
        match check_bytes(buf) {
            Ok(()) => {
                let mut inner: Vec<u8> = Vec::new();
                inner.extend_from_slice(buf);
                assert(inner@ =~= buf@);
                Ok(VorbisPacket { inner })
            },
            Err(e) => Err(e),
        }
    }

    /// Checks `buf` and keeps it as a packet.
    pub fn new_mut(buf: Vec<u8>) -> (r: Result<VorbisPacket, VorbisPacketCheckError>)
        ensures
            match check_packet(buf@) {
                Ok(_) => r matches Ok(p) && p@ == buf@,
                Err(e) => r matches Err(e2) && e2 == e,
            },
    {
        match check_bytes(buf.as_slice()) {
            Ok(()) => Ok(VorbisPacket { inner: buf }),
            Err(e) => Err(e),
        }
    }

    /// Checks `buf` as a packet.
    pub fn check(buf: &[u8]) -> (r: Result<(), VorbisPacketCheckError>)
        ensures
            match check_packet(buf@) {
                Ok(_) => r is Ok,
                Err(e) => r matches Err(e2) && e2 == e,
            },
    {
        check_bytes(buf)
    }

    /// The packet's bytes.
    pub fn as_u8_slice(&self) -> (r: &[u8])
        ensures
            r@ == self@,
    {
        self.inner.as_slice()
    }

    /// The identification header, if the packet is one.
    pub fn identification_header(&self) -> (r: Option<IdentificationHeader>)
        ensures
            r == identification_of(self@),
            self@[0] == 1 ==> r is Some,
    {
        proof {
            use_type_invariant(self);
        }
        if self.inner[0] != 1 {
            return None;
        }
        match parse_identification_header(self.inner.as_slice()) {
            Ok(h) => Some(h),
            Err(_) => None,
        }
    }

    /// The comments, if the packet is a comment header.
    pub fn comments(&self) -> (r: Option<Comments>)
        ensures
            match comments_of(self@) {
                Some(c) => r matches Some(cs) && cs@ == c,
                None => r is None,
            },
            self@[0] == 3 ==> r is Some,
    {
        proof {
            use_type_invariant(self);
        }
        if self.inner[0] != 3 {
            return None;
        }
        match parse_comment_header(self.inner.as_slice()) {
            Ok(c) => Some(c),
            Err(_) => None,
        }
    }
}

/// Owned packet bytes.
pub struct VorbisPacketBuf {
    inner: Vec<u8>,
}

impl View for VorbisPacketBuf {
    type V = Seq<u8>;

    closed spec fn view(&self) -> Seq<u8> {
        self.inner@
    }
}

impl VorbisPacketBuf {
    /// Checks `buf` and keeps it.
    pub fn new(buf: Vec<u8>) -> (r: Result<VorbisPacketBuf, VorbisPacketCheckError>)
        ensures
            match check_packet(buf@) {
                Ok(_) => r matches Ok(p) && p@ == buf@,
                Err(e) => r matches Err(e2) && e2 == e,
            },
    {
        match check_bytes(buf.as_slice()) {
            Ok(()) => Ok(VorbisPacketBuf { inner: buf }),
            Err(e) => Err(e),
        }
    }

    /// The packet's bytes.
    pub fn as_u8_slice(&self) -> (r: &[u8])
        ensures
            r@ == self@,
    {
        self.inner.as_slice()
    }

    /// The packet's bytes.
    pub fn into_inner(self) -> (r: Vec<u8>)
        ensures
            r@ == self@,
    {
        self.inner
    }
}


/// The text of one comment: key, `=`, value.
pub open spec fn tag_text(kv: Tag) -> Seq<u8> {
    encode_utf8(kv.0) + seq![0x3du8] + encode_utf8(kv.1)
}

/// The bytes of tags: for each, its length and its text.
pub open spec fn tags_bytes(tags: Seq<Tag>) -> Seq<u8>
    decreases tags.len(),
{
    if tags.len() == 0 {
        seq![]
    } else {
        le_bytes_u32(tag_text(tags[0]).len() as u32) + tag_text(tags[0]) + tags_bytes(
            tags.drop_first(),
        )
    }
}

/// The comment packet for a vendor and tags.
pub open spec fn comment_packet(vendor: Seq<char>, tags: Seq<Tag>) -> Seq<u8> {
    seq![3u8] + vorbis_magic() + le_bytes_u32(encode_utf8(vendor).len() as u32) + encode_utf8(
        vendor,
    ) + le_bytes_u32(tags.len() as u32) + tags_bytes(tags) + seq![1u8]
}

/// Every length that the comment packet records fits in its four bytes, and the packet fits in
/// memory.
pub open spec fn encodable(vendor: Seq<char>, tags: Seq<Tag>) -> bool {
    &&& encode_utf8(vendor).len() <= u32::MAX
    &&& tags.len() <= u32::MAX
    &&& forall|i: int| 0 <= i < tags.len() ==> tag_text(#[trigger] tags[i]).len() <= u32::MAX
    &&& comment_packet(vendor, tags).len() <= usize::MAX
}

proof fn lemma_tags_bytes_push(tags: Seq<Tag>, kv: Tag)
    ensures
        tags_bytes(tags.push(kv)) == tags_bytes(tags) + le_bytes_u32(tag_text(kv).len() as u32)
            + tag_text(kv),
    decreases tags.len(),
{
    if tags.len() == 0 {
        assert(tags.push(kv).drop_first() =~= Seq::<Tag>::empty());
        assert(tags_bytes(tags.push(kv).drop_first()) == Seq::<u8>::empty());
        assert(tags_bytes(tags.push(kv)) =~= tags_bytes(tags) + le_bytes_u32(
            tag_text(kv).len() as u32,
        ) + tag_text(kv));
    } else {
        assert(tags.push(kv).drop_first() =~= tags.drop_first().push(kv));
        lemma_tags_bytes_push(tags.drop_first(), kv);
        assert(tags_bytes(tags.push(kv)) =~= tags_bytes(tags) + le_bytes_u32(
            tag_text(kv).len() as u32,
        ) + tag_text(kv));
    }
}

proof fn lemma_tags_bytes_len_mono(tags: Seq<Tag>, i: int)
    requires
        0 <= i <= tags.len(),
    ensures
        tags_bytes(tags.take(i)).len() <= tags_bytes(tags).len(),
    decreases tags.len() - i,
{
    if i < tags.len() {
        assert(tags.take(i + 1) =~= tags.take(i).push(tags[i]));
        lemma_tags_bytes_push(tags.take(i), tags[i]);
        lemma_tags_bytes_len_mono(tags, i + 1);
    } else {
        assert(tags.take(i) =~= tags);
    }
}

/// Appends the four bytes of `v`, least significant first.
fn push_le_u32(buf: &mut Vec<u8>, v: u32)
    ensures
        final(buf)@ == old(buf)@ + le_bytes_u32(v),
{
    buf.push(#[verifier::truncate] (v as u8));
    buf.push(#[verifier::truncate] ((v >> 8u32) as u8));
    buf.push(#[verifier::truncate] ((v >> 16u32) as u8));
    buf.push(#[verifier::truncate] ((v >> 24u32) as u8));
    assert(buf@ =~= old(buf)@ + le_bytes_u32(v));
}

/// Appends the vendor string, after its length.
fn write_comment_vendor(buf: &mut Vec<u8>, val: &str)
    requires
        encode_utf8(val@).len() <= u32::MAX,
    ensures
        final(buf)@ == old(buf)@ + le_bytes_u32(encode_utf8(val@).len() as u32) + encode_utf8(
            val@,
        ),
{
    let bytes = val.as_bytes();
    push_le_u32(buf, bytes.len() as u32);
    buf.extend_from_slice(bytes);
}

/// Appends one comment, after its length.
fn write_comment_tag(buf: &mut Vec<u8>, key: &str, val: &str)
    requires
        tag_text((key@, val@)).len() <= u32::MAX,
    ensures
        final(buf)@ == old(buf)@ + le_bytes_u32(tag_text((key@, val@)).len() as u32) + tag_text(
            (key@, val@),
        ),
{
    let kb = key.as_bytes();
    let vb = val.as_bytes();
    let length = 1 + kb.len() + vb.len();
    push_le_u32(buf, length as u32);
    buf.extend_from_slice(kb);
    buf.push(0x3d);
    buf.extend_from_slice(vb);
    assert(buf@ =~= old(buf)@ + le_bytes_u32(tag_text((key@, val@)).len() as u32) + tag_text(
        (key@, val@),
    ));
}

impl VorbisPacketBuf {
    /// Encodes a vendor and tags as a comment header packet.
    pub fn build_comment_packet(comments: &Comments) -> (r: VorbisPacketBuf)
        requires
            encodable(comments@.0, comments@.1),
        ensures
            r@ == comment_packet(comments@.0, comments@.1),
            (forall|i: int|
                0 <= i < comments@.1.len() ==> key_without_equals(#[trigger] comments@.1[i]))
                ==> check_packet(r@) is Ok && parse_comment(r@) == Ok::<
                (Seq<char>, Seq<Tag>),
                VorbisPacketCheckError,
            >(comments@),
    {
        let ghost vendor = comments@.0;
        let ghost tags = comments@.1;
        let mut buf: Vec<u8> = vec![3u8, 0x76u8, 0x6fu8, 0x72u8, 0x62u8, 0x69u8, 0x73u8];
        write_comment_vendor(&mut buf, comments.vendor.as_str());
        let n = comments.comments.len();
        push_le_u32(&mut buf, n as u32);
        let ghost head = buf@;
        assert(head =~= seq![3u8] + vorbis_magic() + le_bytes_u32(encode_utf8(vendor).len() as u32)
            + encode_utf8(vendor) + le_bytes_u32(tags.len() as u32));
        let mut i: usize = 0;
        assert(tags.take(0) =~= Seq::<Tag>::empty());
        while i < n
            invariant
                n == comments.comments@.len() == tags.len(),
                tags == comments@.1,
                vendor == comments@.0,
                encodable(vendor, tags),
                i <= n,
                buf@ == head + tags_bytes(tags.take(i as int)),
                comment_packet(vendor, tags) == head + tags_bytes(tags) + seq![1u8],
            decreases n - i,
        {
            let kv = &comments.comments[i];
            assert(tags[i as int] == tag_view(*kv));
            proof {
                assert(tags.take(i + 1) =~= tags.take(i as int).push(tags[i as int]));
                lemma_tags_bytes_push(tags.take(i as int), tags[i as int]);
                lemma_tags_bytes_len_mono(tags, i + 1);
            }
            write_comment_tag(&mut buf, kv.0.as_str(), kv.1.as_str());
            i = i + 1;
        }
        assert(tags.take(n as int) =~= tags);
        buf.push(1u8);
        proof {
            if forall|i: int| 0 <= i < tags.len() ==> key_without_equals(#[trigger] tags[i]) {
                lemma_comment_round_trip(vendor, tags);
            }
        }
        VorbisPacketBuf { inner: buf }
    }
}

/// The packets of pages, page after page.
pub open spec fn packets_of_pages(pages: Seq<Seq<u8>>) -> Seq<Seq<u8>>
    decreases pages.len(),
{
    if pages.len() == 0 {
        seq![]
    } else {
        page_packets(pages[0]) + packets_of_pages(pages.drop_first())
    }
}

/// A packet that checks and whose type byte is `kind`.
pub open spec fn is_wanted(p: Seq<u8>, kind: u8) -> bool {
    check_packet(p) is Ok && p.len() > 0 && p[0] == kind
}

/// The first wanted packet of `ps`.
pub open spec fn first_wanted(ps: Seq<Seq<u8>>, kind: u8) -> Option<Seq<u8>>
    decreases ps.len(),
{
    if ps.len() == 0 {
        None
    } else if is_wanted(ps[0], kind) {
        Some(ps[0])
    } else {
        first_wanted(ps.drop_first(), kind)
    }
}

proof fn lemma_first_wanted_concat(a: Seq<Seq<u8>>, b: Seq<Seq<u8>>, kind: u8)
    ensures
        first_wanted(a + b, kind) == (match first_wanted(a, kind) {
            Some(x) => Some(x),
            None => first_wanted(b, kind),
        }),
    decreases a.len(),
{
    if a.len() == 0 {
        assert(a + b =~= b);
    } else {
        assert((a + b)[0] == a[0]);
        assert((a + b).drop_first() =~= a.drop_first() + b);
        lemma_first_wanted_concat(a.drop_first(), b, kind);
    }
}

proof fn lemma_first_wanted_is_wanted(ps: Seq<Seq<u8>>, kind: u8)
    ensures
        first_wanted(ps, kind) matches Some(p) ==> is_wanted(p, kind),
    decreases ps.len(),
{
    if ps.len() > 0 && !is_wanted(ps[0], kind) {
        lemma_first_wanted_is_wanted(ps.drop_first(), kind);
    }
}

/// The first packet, in the pages that `iter` has left, that checks and has type byte `kind`;
/// the pages up to and including the one that holds it are used up.
fn find_kind(iter: &mut TrackPageIter, kind: u8) -> (r: Option<VorbisPacket>)
    requires
        old(iter).wf(),
    ensures
        final(iter).wf(),
        final(iter).remaining().len() <= old(iter).remaining().len(),
        final(iter).remaining() == old(iter).remaining().skip(
            old(iter).remaining().len() - final(iter).remaining().len(),
        ),
        match first_wanted(packets_of_pages(old(iter).remaining()), kind) {
            Some(p) => r matches Some(v) && v@ == p,
            None => r is None,
        },
{
    let ghost all = old(iter).remaining();
    let ghost want = first_wanted(packets_of_pages(all), kind);
    assert(all.skip(0) =~= all);
    loop
        invariant
            all == old(iter).remaining(),
            iter.wf(),
            iter.remaining().len() <= all.len(),
            iter.remaining() == all.skip(all.len() - iter.remaining().len()),
            want == first_wanted(packets_of_pages(all), kind),
            want == first_wanted(packets_of_pages(iter.remaining()), kind),
        decreases iter.remaining().len(),
    {
        let ghost pages = iter.remaining();
        let page = match iter.next() {
            None => {
                assert(packets_of_pages(pages) =~= Seq::<Seq<u8>>::empty());
                return None;
            },
            Some(page) => page,
        };
        proof {
            lemma_first_wanted_concat(page_packets(page@), packets_of_pages(pages.drop_first()), kind);
            assert(iter.remaining() =~= all.skip(all.len() - iter.remaining().len()));
        }
        let mut raw = page.raw_packets();
        loop
            invariant
                all == old(iter).remaining(),
                iter.wf(),
                iter.remaining().len() <= all.len(),
                iter.remaining() == all.skip(all.len() - iter.remaining().len()),
                want == first_wanted(packets_of_pages(all), kind),
                want == (match first_wanted(page_packets(page@), kind) {
                    Some(x) => Some(x),
                    None => first_wanted(packets_of_pages(iter.remaining()), kind),
                }),
                raw.wf(),
                raw.page() == page@,
                first_wanted(page_packets(page@), kind) == first_wanted(raw.remaining(), kind),
            ensures
                first_wanted(page_packets(page@), kind) is None,
            decreases raw.remaining().len(),
        {
            let ghost left = raw.remaining();
            match raw.next() {
                None => {
                    break;
                },
                Some(pkt) => {
                    if let Ok(vp) = VorbisPacket::new(pkt) {
                        if vp.as_u8_slice()[0] == kind {
                            return Some(vp);
                        }
                    }
                },
            }
        }
    }
}

impl VorbisPacket {
    /// The first identification header in the pages that `iter` has left.
    pub fn find_identification(iter: &mut TrackPageIter) -> (r: Result<VorbisPacket, ()>)
        requires
            old(iter).wf(),
        ensures
            final(iter).wf(),
            match first_wanted(packets_of_pages(old(iter).remaining()), 1) {
                Some(p) => r matches Ok(v) && v@ == p,
                None => r is Err,
            },
    {
        match find_kind(iter, 1) {
            Some(p) => Ok(p),
            None => Err(()),
        }
    }

    /// The first comment header in the pages that `iter` has left.
    pub fn find_comments(iter: &mut TrackPageIter) -> (r: Result<VorbisPacket, ()>)
        requires
            old(iter).wf(),
        ensures
            final(iter).wf(),
            match first_wanted(packets_of_pages(old(iter).remaining()), 3) {
                Some(p) => r matches Ok(v) && v@ == p,
                None => r is Err,
            },
    {
        match find_kind(iter, 3) {
            Some(p) => Ok(p),
            None => Err(()),
        }
    }
}


/// What a caller of the library keeps of a Vorbis file.
pub struct TrackSummary {
    pub sample_rate: u32,
    pub duration_ms: u32,
    pub tags: Vec<(String, String)>,
}

/// Why a file could not be summarised.
#[derive(Debug, Clone, Copy)]
pub enum SummaryError {
    Page(OggPageCheckError),
    NoIdentification,
    NoComments,
    DurationOverflow,
}

/// The identification header of a packet known to hold one.
pub open spec fn ident_of(p: Seq<u8>) -> IdentificationHeader {
    parse_identification(p)->Ok_0
}

/// The tags of a packet known to hold a comment header.
pub open spec fn tags_of(p: Seq<u8>) -> Seq<Tag> {
    parse_comment(p)->Ok_0.1
}

/// Summarises the Vorbis file `buf`: the sample rate of its first identification header, its
/// playing time in milliseconds from the largest granule position, and the tags of its first
/// comment header.
pub fn summarize(buf: &[u8]) -> (r: Result<TrackSummary, SummaryError>)
    ensures
        match check_track(buf@) {
            Err(e) => r matches Err(SummaryError::Page(e2)) && e2 == e,
            Ok(pages) => match (
                first_wanted(packets_of_pages(pages), 1),
                first_wanted(packets_of_pages(pages), 3),
            ) {
                (None, _) => r matches Err(SummaryError::NoIdentification),
                (Some(_), None) => r matches Err(SummaryError::NoComments),
                (Some(i), Some(c)) => {
                    let rate = ident_of(i).audio_sample_rate;
                    let d = spec_duration_ms(max_position(pages), rate);
                    if d > u32::MAX {
                        r matches Err(SummaryError::DurationOverflow)
                    } else {
                        r matches Ok(s) && s.sample_rate == rate && s.duration_ms == d
                            && tags_view(s.tags@) == tags_of(c)
                    }
                },
            },
        },
{
    let track = match OggTrack::new(buf) {
        Ok(t) => t,
        Err(e) => return Err(SummaryError::Page(e)),
    };
    let mut pages = track.pages();
    let ident = match VorbisPacket::find_identification(&mut pages) {
        Ok(p) => p,
        Err(()) => return Err(SummaryError::NoIdentification),
    };
    let mut pages = track.pages();
    let comments = match VorbisPacket::find_comments(&mut pages) {
        Ok(p) => p,
        Err(()) => return Err(SummaryError::NoComments),
    };
    proof {
        lemma_first_wanted_is_wanted(packets_of_pages(track_pages(buf@)), 1);
        lemma_first_wanted_is_wanted(packets_of_pages(track_pages(buf@)), 3);
    }
    let id = match ident.identification_header() {
        Some(h) => h,
        None => return Err(SummaryError::NoIdentification),
    };
    let tags = match comments.comments() {
        Some(c) => c.comments,
        None => return Err(SummaryError::NoComments),
    };
    let granule = track.max_position();
    match duration_ms(granule, id.audio_sample_rate) {
        Some(d) => Ok(TrackSummary { sample_rate: id.audio_sample_rate, duration_ms: d, tags }),
        None => Err(SummaryError::DurationOverflow),
    }
}


/// The key of a tag holds no `=`, so that its text splits back at the right place.
pub open spec fn key_without_equals(kv: Tag) -> bool {
    !encode_utf8(kv.0).contains(0x3du8)
}

/// The four bytes at `s[i..i+4]` read back as what was written there.
proof fn lemma_le_u32_at(s: Seq<u8>, i: int, v: u32)
    requires
        0 <= i,
        i + 4 <= s.len(),
        s.subrange(i, i + 4) == le_bytes_u32(v),
    ensures
        le_u32(s, i) == v,
{
    lemma_le_u32_of_bytes(v);
    let w = le_bytes_u32(v);
    assert(s[i] == w[0] && s[i + 1] == w[1] && s[i + 2] == w[2] && s[i + 3] == w[3]);
}

proof fn lemma_find_byte_after(c: Seq<u8>, x: u8, i: int, k: int)
    requires
        0 <= i <= k < c.len(),
        c[k] == x,
        forall|j: int| i <= j < k ==> c[j] != x,
    ensures
        find_byte(c, x, i) == Some(k),
    decreases k - i,
{
    if i < k {
        lemma_find_byte_after(c, x, i + 1, k);
    }
}

proof fn lemma_parse_tag_text(kv: Tag)
    requires
        key_without_equals(kv),
    ensures
        parse_tag(tag_text(kv)) == Ok::<Tag, VorbisPacketCheckError>(kv),
{
    let k = encode_utf8(kv.0);
    let v = encode_utf8(kv.1);
    let c = tag_text(kv);
    encode_utf8_valid_utf8(kv.0);
    encode_utf8_valid_utf8(kv.1);
    encode_utf8_decode_utf8(kv.0);
    encode_utf8_decode_utf8(kv.1);
    let e = seq!['='];
    let eq = encode_utf8(e);
    assert(eq =~= seq![0x3du8]) by {
        assert(e[0] as u32 == 0x3du32);
        assert((0x3du32 & 0x7Fu32) as u8 == 0x3du8) by (bit_vector);
        assert(e.drop_first() =~= Seq::<char>::empty());
        assert(encode_utf8(e.drop_first()) =~= Seq::<u8>::empty());
    }
    encode_utf8_valid_utf8(e);
    valid_utf8_concat(k, eq);
    valid_utf8_concat(k + eq, v);
    assert(c =~= k + eq + v);
    assert forall|j: int| 0 <= j < k.len() implies c[j] != 0x3du8 by {
        assert(c[j] == k[j]);
        if k[j] == 0x3du8 {
            assert(k.contains(0x3du8));
        }
    }
    lemma_find_byte_after(c, 0x3d, 0, k.len() as int);
    assert(c.take(k.len() as int) =~= k);
    assert(c.skip(k.len() as int + 1) =~= v);
}

/// Tags written at `x[pos..]` read back as themselves.
proof fn lemma_parse_tags_bytes(x: Seq<u8>, pos: int, tags: Seq<Tag>)
    requires
        0 <= pos,
        pos + tags_bytes(tags).len() <= x.len(),
        x.subrange(pos, pos + tags_bytes(tags).len()) == tags_bytes(tags),
        forall|i: int| 0 <= i < tags.len() ==> tag_text(#[trigger] tags[i]).len() <= u32::MAX,
        forall|i: int| 0 <= i < tags.len() ==> key_without_equals(#[trigger] tags[i]),
    ensures
        parse_tags(x, pos, tags.len()) == Ok::<(Seq<Tag>, int), VorbisPacketCheckError>(
            (tags, pos + tags_bytes(tags).len()),
        ),
    decreases tags.len(),
{
    if tags.len() > 0 {
        let t = tags[0];
        let text = tag_text(t);
        let l = text.len() as int;
        let rest = tags.drop_first();
        let all = tags_bytes(tags);
        assert(all =~= le_bytes_u32(l as u32) + text + tags_bytes(rest));
        assert(x.subrange(pos, pos + 4) =~= all.subrange(0, 4));
        assert(all.subrange(0, 4) =~= le_bytes_u32(l as u32));
        lemma_le_u32_at(x, pos, l as u32);
        assert(x.subrange(pos + 4, pos + 4 + l) =~= all.subrange(4, 4 + l));
        assert(all.subrange(4, 4 + l) =~= text);
        lemma_parse_tag_text(t);
        assert forall|i: int| 0 <= i < rest.len() implies tag_text(#[trigger] rest[i]).len()
            <= u32::MAX && key_without_equals(rest[i]) by {
            assert(rest[i] == tags[i + 1]);
        }
        assert(x.subrange(pos + 4 + l, pos + 4 + l + tags_bytes(rest).len()) =~= all.subrange(
            4 + l,
            all.len() as int,
        ));
        assert(all.subrange(4 + l, all.len() as int) =~= tags_bytes(rest));
        lemma_parse_tags_bytes(x, pos + 4 + l, rest);
        assert(seq![t].add(rest) =~= tags);
    } else {
        assert(tags =~= Seq::<Tag>::empty());
    }
}

/// The comment packet for a vendor and tags checks, and reads back as that vendor and those
/// tags, when every key is free of `=`.
pub proof fn lemma_comment_round_trip(vendor: Seq<char>, tags: Seq<Tag>)
    requires
        encodable(vendor, tags),
        forall|i: int| 0 <= i < tags.len() ==> key_without_equals(#[trigger] tags[i]),
    ensures
        parse_comment(comment_packet(vendor, tags)) == Ok::<
            (Seq<char>, Seq<Tag>),
            VorbisPacketCheckError,
        >((vendor, tags)),
        check_packet(comment_packet(vendor, tags)) is Ok,
{
    let b = comment_packet(vendor, tags);
    let ev = encode_utf8(vendor);
    let vlen = ev.len() as int;
    let tb = tags_bytes(tags);
    encode_utf8_valid_utf8(vendor);
    encode_utf8_decode_utf8(vendor);
    assert(b.subrange(7, 11) =~= le_bytes_u32(vlen as u32));
    lemma_le_u32_at(b, 7, vlen as u32);
    assert(b.subrange(11, 11 + vlen) =~= ev);
    assert(b.subrange(11 + vlen, 15 + vlen) =~= le_bytes_u32(tags.len() as u32));
    lemma_le_u32_at(b, 11 + vlen, tags.len() as u32);
    assert(b.subrange(15 + vlen, 15 + vlen + tb.len()) =~= tb);
    lemma_parse_tags_bytes(b, 15 + vlen, tags);
    let end = 15 + vlen + tb.len();
    assert(b.len() == end + 1);
    assert(b[end] == 1u8);
    assert((1u8 & 1u8) == 1u8) by (bit_vector);
    assert(le_u32(b, 7) as int == vlen);
    assert(le_u32(b, 11 + vlen) as nat == tags.len());
    assert(valid_utf8(b.subrange(11, 11 + vlen)));
    assert(decode_utf8(b.subrange(11, 11 + vlen)) == vendor);
    assert(parse_tags(b, 11 + vlen + 4, le_u32(b, 11 + vlen) as nat) == Ok::<
        (Seq<Tag>, int),
        VorbisPacketCheckError,
    >((tags, end)));
    assert(b.subrange(1, 7) =~= vorbis_magic());
    assert(b[0] == 3u8);
}

} // verus!
