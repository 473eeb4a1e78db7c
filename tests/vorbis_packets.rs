use ogg::builder::OggBuilder;
use ogg::track::{duration_ms, OggTrack};
use ogg::page::OggPageCheckError;
use ogg::vorbis::{
    summarize, Comments, SummaryError, VorbisPacket, VorbisPacketBuf, VorbisPacketCheckError,
    VorbisPacketType,
};

static COMMENT_HEADER_VALID: &'static [u8] = &[
    0x03, b'v', b'o', b'r', b'b', b'i', b's',
    0x04, 0x00, 0x00, 0x00, // vendor length = 4
    b't', b'e', b's', b't',
    0x02, 0x00, 0x00, 0x00, // comment count
    0x04, 0x00, 0x00, 0x00, // comment length = 4
    b'A', b'=', b'a', b'a',
    0x04, 0x00, 0x00, 0x00, // comment length = 4
    b'B', b'=', b'b', b'b',
    0x01,
];

static COMMENT_HEADER_UNSET_FRAMING_BIT: &'static [u8] = &[
    0x03, b'v', b'o', b'r', b'b', b'i', b's',
    0x04, 0x00, 0x00, 0x00,
    b't', b'e', b's', b't',
    0x02, 0x00, 0x00, 0x00,
    0x04, 0x00, 0x00, 0x00,
    b'A', b'=', b'a', b'a',
    0x04, 0x00, 0x00, 0x00,
    b'B', b'=', b'b', b'b',
    0x00, // unset framing bit
];

static COMMENT_HEADER_FRAMING_BIT_TRUNCATED: &'static [u8] = &[
    0x03, b'v', b'o', b'r', b'b', b'i', b's',
    0x04, 0x00, 0x00, 0x00,
    b't', b'e', b's', b't',
    0x02, 0x00, 0x00, 0x00,
    0x04, 0x00, 0x00, 0x00,
    b'A', b'=', b'a', b'a',
    0x04, 0x00, 0x00, 0x00,
    b'B', b'=', b'b', b'b',
    // truncated: missing framing bit
];

static COMMENT_HEADER_TRUNCATED_MID_COMMENT: &'static [u8] = &[
    0x03, b'v', b'o', b'r', b'b', b'i', b's',
    0x04, 0x00, 0x00, 0x00,
    b't', b'e', b's', b't',
    0x02, 0x00, 0x00, 0x00,
    0x04, 0x00, 0x00, 0x00,
    b'A', b'=', b'a', b'a',
    0x04, 0x00, 0x00, 0x00,
    b'B', b'=',
    // truncated: the second comment should have continued, but didn't.
];

static COMMENT_HEADER_TRUNCATED_COMMENTS: &'static [u8] = &[
    0x03, b'v', b'o', b'r', b'b', b'i', b's',
    0x04, 0x00, 0x00, 0x00,
    b't', b'e', b's', b't',
    0x02, 0x00, 0x00, 0x00,
    0x04, 0x00, 0x00, 0x00,
    b'A', b'=', b'a', b'a',
    // truncated: we should have a comment here, but we don't.
];

const VENDOR: &str = "Xiph.Org libVorbis I 20020713";

fn comments_helper(items: &[(&str, &str)]) -> Vec<(String, String)> {
    items.iter().map(|&(k, v)| (k.to_string(), v.to_string())).collect()
}

fn sample_tags() -> Vec<(String, String)> {
    comments_helper(&[
        ("TITLE", "Hydrate - Kenny Beltrey"),
        ("ARTIST", "Kenny Beltrey"),
        ("ALBUM", "Favorite Things"),
        ("DATE", "2002"),
        ("COMMENT", "http://www.kahvi.org"),
        ("TRACKNUMBER", "2"),
    ])
}

fn ident_packet() -> Vec<u8> {
    vec![
        0x01, 0x76, 0x6f, 0x72, 0x62, 0x69, 0x73, 0x00, 0x00, 0x00, 0x00, 0x02, 0x44, 0xac, 0x00,
        0x00, 0x00, 0x00, 0x00, 0x00, 0x80, 0xb5, 0x01, 0x00, 0x00, 0x00, 0x00, 0x00, 0xb8, 0x01,
    ]
}

fn page_of(packets: &[Vec<u8>], granule: u64, sequence: u32) -> Vec<u8> {
    let mut b = OggBuilder::new();
    for p in packets {
        b.add_packet(p);
    }
    let mut page = b.build().unwrap().into_cow();
    page.set_position(granule);
    page.set_sequence(sequence);
    page.into_inner()
}

/// An Ogg/Vorbis stream with the tags of the Hydrate sample: identification header, comment and
/// setup headers, then audio pages up to granule position 3_000_000 at 44100 Hz.
fn sample_ogg() -> Vec<u8> {
    let comments = Comments { vendor: VENDOR.to_string(), comments: sample_tags() };
    let comment = VorbisPacketBuf::build_comment_packet(&comments).into_inner();
    let mut setup = b"\x05vorbis".to_vec();
    setup.extend_from_slice(&[0u8; 100]);
    let mut track = page_of(&[ident_packet()], 0, 0);
    track.extend(page_of(&[comment, setup], 0, 1));
    track.extend(page_of(&[vec![0u8; 400], vec![0u8; 20]], 1_500_000, 2));
    track.extend(page_of(&[vec![0u8; 700]], 3_000_000, 3));
    track
}

#[test]
fn test_parse_identification_header() {
    let header_buf = [
        0x01, // 0     packet type, 1 = id header
        0x76, 0x6f, 0x72, 0x62, 0x69, 0x73, // 1-6   vorbis
        0x00, 0x00, 0x00, 0x00, // 7-10  version
        0x02, // 11    channels
        0x80, 0xbb, 0x00, 0x00, // 12-15 sample_rate (48000)
        0x00, 0x00, 0x00, 0x00, // 16-19 bitrate_minimum
        0x80, 0xb5, 0x01, 0x00, // 20-23 bitrate_nominal
        0x00, 0x00, 0x00, 0x00, // 24-27 bitrate_maximum
        0xb8, // 28    [blocksize_0][blocksize_1]
        0x01, // 29    framing_flag
    ];

    let test_header = VorbisPacket::new(&header_buf).unwrap();
    let id_header = test_header.identification_header().unwrap();

    assert_eq!(id_header.vorbis_version, 0);
    assert_eq!(id_header.audio_channels, 2);
    assert_eq!(id_header.audio_sample_rate, 48000);
    assert_eq!(id_header.bitrate_maximum, 0);
    assert_eq!(id_header.bitrate_nominal, 112000);
    assert_eq!(id_header.bitrate_minimum, 0);
    assert_eq!(id_header.blocksize_0, 0b1000);
    assert_eq!(id_header.blocksize_1, 0b1011);
}

#[test]
fn test_parse_non_identification_headers() {
    let not_an_id_header_buf = [0x00, 0x76, 0x6f, 0x72, 0x62, 0x69, 0x73, 0x00, 0x00, 0x00, 0x00];

    let negative_test_header = VorbisPacket::new(&not_an_id_header_buf).unwrap();
    let negative_id_header = negative_test_header.identification_header();
    assert!(negative_id_header.is_none());
}

#[test]
fn test_parse_malformed_identification_header() {
    let malformed_header_buf = [0x01, 0x76, 0x6f, 0x72, 0x62, 0x69, 0x73];
    let malformed_test_header = VorbisPacket::new(&malformed_header_buf);
    assert!(malformed_test_header.is_err());
}

#[test]
fn test_comment_from_ogg() {
    let data = sample_ogg();
    let track = OggTrack::new(&data).unwrap();
    let comm_packet = VorbisPacket::find_comments(&mut track.pages()).unwrap();

    let comments = comm_packet.comments().unwrap();
    assert_eq!(comments.vendor, "Xiph.Org libVorbis I 20020713");
    assert_eq!(comments.comments, sample_tags());
}

#[test]
fn test_rebuild_comment() {
    let data = sample_ogg();
    let track = OggTrack::new(&data).unwrap();
    let expected_packet = VorbisPacket::find_comments(&mut track.pages()).unwrap();

    let comments = Comments { vendor: VENDOR.to_string(), comments: sample_tags() };

    let pkt = VorbisPacketBuf::build_comment_packet(&comments);
    assert_eq!(expected_packet.as_u8_slice(), pkt.as_u8_slice());
}

#[test]
fn test_parse_comment_header_valid() {
    let test_header = VorbisPacket::new(COMMENT_HEADER_VALID).unwrap();
    let comments = test_header.comments().unwrap();
    assert_eq!(comments.vendor, "test");
    assert_eq!(comments.comments.len(), 2);
}

#[test]
fn test_parse_malformed_comment_header_unset_framing_bit() {
    VorbisPacket::new(COMMENT_HEADER_UNSET_FRAMING_BIT).err().unwrap();
}

#[test]
fn test_parse_malformed_comment_header_framing_bit_truncated() {
    VorbisPacket::new(COMMENT_HEADER_FRAMING_BIT_TRUNCATED).err().unwrap();
}

#[test]
fn test_parse_malformed_comment_header_truncated_mid_comment() {
    VorbisPacket::new(COMMENT_HEADER_TRUNCATED_MID_COMMENT).err().unwrap();
}

#[test]
fn test_parse_malformed_comment_header_truncated_comments() {
    VorbisPacket::new(COMMENT_HEADER_TRUNCATED_COMMENTS).err().unwrap();
}

#[test]
fn comment_errors_carry_reasons() {
    match VorbisPacket::check(COMMENT_HEADER_UNSET_FRAMING_BIT) {
        Err(VorbisPacketCheckError::Invalid(r)) => assert_eq!(r, "framing bit unset"),
        _ => panic!("expected an invalid comment header"),
    }
    match VorbisPacket::check(COMMENT_HEADER_TRUNCATED_COMMENTS) {
        Err(VorbisPacketCheckError::Invalid(r)) => assert_eq!(r, "truncated comment header"),
        _ => panic!("expected a truncated comment header"),
    }
    let mut no_equals = COMMENT_HEADER_VALID.to_vec();
    no_equals[24] = b'x';
    match VorbisPacket::check(&no_equals) {
        Err(VorbisPacketCheckError::Invalid(r)) => assert_eq!(r, "Invalid comment"),
        _ => panic!("expected an invalid comment"),
    }
    let mut bad_utf8 = COMMENT_HEADER_VALID.to_vec();
    bad_utf8[12] = 0xff;
    match VorbisPacket::check(&bad_utf8) {
        Err(VorbisPacketCheckError::Invalid(r)) => assert_eq!(r, "invalid utf8 in comment header"),
        _ => panic!("expected invalid utf8"),
    }
}

#[test]
fn comment_split_on_first_equals() {
    let mut buf = b"\x03vorbis".to_vec();
    buf.extend_from_slice(&[0, 0, 0, 0, 2, 0, 0, 0]);
    buf.extend_from_slice(&[5, 0, 0, 0]);
    buf.extend_from_slice(b"K=v=w");
    buf.extend_from_slice(&[5, 0, 0, 0]);
    buf.extend_from_slice(b"K=\xc3\xa9=");
    buf.push(1);
    let c = VorbisPacket::new(&buf).unwrap().comments().unwrap();
    assert_eq!(c.vendor, "");
    assert_eq!(c.comments, comments_helper(&[("K", "v=w"), ("K", "\u{e9}=")]));
}

#[test]
fn packet_classification() {
    assert_eq!(VorbisPacketType::from_u8(0), Some(VorbisPacketType::Audio));
    assert_eq!(VorbisPacketType::from_u8(1), Some(VorbisPacketType::IdentificationHeader));
    assert_eq!(VorbisPacketType::from_u8(3), Some(VorbisPacketType::CommentHeader));
    assert_eq!(VorbisPacketType::from_u8(5), Some(VorbisPacketType::SetupHeader));
    assert_eq!(VorbisPacketType::from_u8(2), None);
    assert!(matches!(VorbisPacket::new(&[2u8]), Err(VorbisPacketCheckError::BadCapture)));
    assert!(matches!(VorbisPacket::new(&[]), Err(VorbisPacketCheckError::BadCapture)));
    assert!(matches!(VorbisPacket::new(b"\x01vorbix"), Err(VorbisPacketCheckError::BadCapture)));
    assert!(VorbisPacket::new(b"\x05").is_ok());
}

#[test]
fn identification_header_errors() {
    let good = ident_packet();
    assert!(matches!(
        VorbisPacket::new(&good[..29]),
        Err(VorbisPacketCheckError::BadIdentificationHeaderLength)
    ));
    let mut no_channels = good.clone();
    no_channels[11] = 0;
    assert!(matches!(VorbisPacket::new(&no_channels), Err(VorbisPacketCheckError::BadIdentificationHeader)));
    let mut no_rate = good.clone();
    no_rate[12..16].copy_from_slice(&[0, 0, 0, 0]);
    assert!(matches!(VorbisPacket::new(&no_rate), Err(VorbisPacketCheckError::BadIdentificationHeader)));
    let mut blocks = good.clone();
    blocks[28] = 0x8b;
    assert!(matches!(VorbisPacket::new(&blocks), Err(VorbisPacketCheckError::BadIdentificationHeader)));
    let mut framing = good.clone();
    framing[29] = 0x02;
    assert!(matches!(VorbisPacket::new(&framing), Err(VorbisPacketCheckError::BadIdentificationHeader)));
    assert!(VorbisPacketBuf::new(good).is_ok());
}

#[test]
fn end_to_end_sample() {
    let data = sample_ogg();
    let track = OggTrack::new(&data).unwrap();
    let mut pages = track.pages();
    let ident = VorbisPacket::find_identification(&mut pages).unwrap();
    let id = ident.identification_header().unwrap();
    assert_eq!(id.audio_channels, 2);
    assert_eq!(id.audio_sample_rate, 44100);
    assert_eq!(id.bitrate_nominal, 112000);
    let comments = VorbisPacket::find_comments(&mut pages).unwrap().comments().unwrap();
    assert_eq!(comments.comments, sample_tags());
    let granule = track.max_position();
    assert_eq!(granule, 3_000_000);
    assert_eq!(duration_ms(granule, id.audio_sample_rate), Some(68027));
}

#[test]
fn search_without_match_fails() {
    let data = page_of(&[vec![0u8; 5]], 0, 0);
    let track = OggTrack::new(&data).unwrap();
    assert!(VorbisPacket::find_identification(&mut track.pages()).is_err());
    assert!(VorbisPacket::find_comments(&mut track.pages()).is_err());
}

#[test]
fn comment_encode_round_trip() {
    let comments = Comments { vendor: "v".to_string(), comments: comments_helper(&[("A", "1"), ("A", "2")]) };
    let pkt = VorbisPacketBuf::build_comment_packet(&comments);
    let bytes = pkt.as_u8_slice();
    assert_eq!(&bytes[0..7], b"\x03vorbis");
    assert_eq!(&bytes[7..12], &[1, 0, 0, 0, b'v']);
    assert_eq!(&bytes[12..16], &[2, 0, 0, 0]);
    assert_eq!(&bytes[16..23], &[3, 0, 0, 0, b'A', b'=', b'1']);
    assert_eq!(*bytes.last().unwrap(), 1);
    let back = VorbisPacket::new(bytes).unwrap().comments().unwrap();
    assert_eq!(back.vendor, "v");
    assert_eq!(back.comments, comments.comments);
}

#[test]
fn summary_of_sample() {
    let data = sample_ogg();
    let s = summarize(&data).unwrap();
    assert_eq!(s.sample_rate, 44100);
    assert_eq!(s.duration_ms, 68027);
    assert_eq!(s.tags, sample_tags());
}

#[test]
fn summary_errors() {
    let mut data = sample_ogg();
    data[0] = b'X';
    assert!(matches!(summarize(&data), Err(SummaryError::Page(OggPageCheckError::BadCapture))));
    let no_ident = page_of(&[vec![0u8; 3]], 10, 0);
    assert!(matches!(summarize(&no_ident), Err(SummaryError::NoIdentification)));
    let no_comments = page_of(&[ident_packet()], 10, 0);
    assert!(matches!(summarize(&no_comments), Err(SummaryError::NoComments)));
    let comments = Comments { vendor: String::new(), comments: Vec::new() };
    let comment = VorbisPacketBuf::build_comment_packet(&comments).into_inner();
    let mut slow = ident_packet();
    slow[12..16].copy_from_slice(&[1, 0, 0, 0]);
    let overflow = page_of(&[slow, comment], u64::MAX, 0);
    assert!(matches!(summarize(&overflow), Err(SummaryError::DurationOverflow)));
}
