use ogg::builder::OggBuilder;
use ogg::page::{OggPage, OggPageBuf, OggPageCheckError};
use ogg::recapture::Recapture;
use ogg::track::{duration_ms, OggTrack, OggTrackBuf};

fn ident_packet() -> Vec<u8> {
    vec![
        0x01, 0x76, 0x6f, 0x72, 0x62, 0x69, 0x73, // type, "vorbis"
        0x00, 0x00, 0x00, 0x00, // version
        0x02, // channels
        0x44, 0xac, 0x00, 0x00, // sample rate 44100
        0x00, 0x00, 0x00, 0x00, // bitrate maximum
        0x80, 0xb5, 0x01, 0x00, // bitrate nominal 112000
        0x00, 0x00, 0x00, 0x00, // bitrate minimum
        0xb8, // block sizes
        0x01, // framing
    ]
}

fn page_of(packets: &[Vec<u8>], granule: u64, sequence: u32) -> Vec<u8> {
    let mut b = OggBuilder::new();
    for p in packets {
        b.add_packet(p);
    }
    let mut page = b.build().unwrap().into_cow();
    page.set_position(granule);
    page.set_sequence(sequence);
    page.set_serial(0x1234);
    page.into_inner()
}

fn sample_track() -> Vec<u8> {
    let mut comment = b"\x03vorbis".to_vec();
    comment.extend_from_slice(&[4, 0, 0, 0]);
    comment.extend_from_slice(b"test");
    comment.extend_from_slice(&[0, 0, 0, 0, 1]);
    let mut setup = b"\x05vorbis".to_vec();
    setup.extend_from_slice(&[0u8; 40]);
    let mut track = page_of(&[ident_packet()], 0, 0);
    track.extend(page_of(&[comment, setup], 0, 1));
    track.extend(page_of(&[vec![0u8; 300]], 88200, 2));
    track
}

#[test]
fn test_capture() {
    let mut cap = Recapture::new();
    cap.push_byte(b'O');
    assert_eq!(false, cap.is_captured());
    cap.push_byte(b'g');
    assert_eq!(false, cap.is_captured());
    cap.push_byte(b'g');
    assert_eq!(false, cap.is_captured());
    cap.push_byte(b'S');
    assert_eq!(true, cap.is_captured());
    cap.push_byte(b'g');
    assert_eq!(false, cap.is_captured());
    cap.push_byte(b'g');
    assert_eq!(false, cap.is_captured());
    cap.push_byte(b'S');
    assert_eq!(false, cap.is_captured());
    cap.push_byte(b'O');
    assert_eq!(false, cap.is_captured());
    cap.push_byte(b'g');
    assert_eq!(false, cap.is_captured());
    cap.push_byte(b'g');
    assert_eq!(false, cap.is_captured());
    cap.push_byte(b'S');
    assert_eq!(true, cap.is_captured());
}

#[test]
fn test_packets() {
    let data = sample_track();
    let track = OggTrack::new(&data).unwrap();
    let mut pages = track.pages();

    let page0 = pages.next().unwrap();
    let mut page0packets = page0.raw_packets();
    assert!(page0packets.next().unwrap().starts_with(b"\x01vorbis"));
    assert!(page0packets.next().is_none());

    let page1 = pages.next().unwrap();
    let mut page1packets = page1.raw_packets();
    assert!(page1packets.next().unwrap().starts_with(b"\x03vorbis"));
    assert!(page1packets.next().unwrap().starts_with(b"\x05vorbis"));
    assert!(page1packets.next().is_none());
}

#[test]
fn test_ogg_page_buf() {
    let _ = OggPageBuf::empty();
}

#[test]
fn empty_page_has_known_checksum() {
    let bytes = OggPageBuf::empty().into_inner();
    assert_eq!(bytes.len(), 27);
    assert_eq!(&bytes[0..4], b"OggS");
    assert_eq!(&bytes[22..26], &[0x11, 0xA5, 0xA1, 0x9E]);
    assert!(OggPage::new(&bytes).is_ok());
}

#[test]
fn validated_page_checksum_matches_stored() {
    let bytes = page_of(&[vec![7u8; 10], vec![9u8; 3]], 5, 6);
    let page = OggPage::new(&bytes).unwrap();
    assert_eq!(page.as_u8_slice(), &bytes[..]);
    let mut zeroed = bytes.clone();
    zeroed[22..26].copy_from_slice(&[0, 0, 0, 0]);
    zeroed.push(0);
    let mut extended = bytes.clone();
    extended.extend_from_slice(&[1, 2, 3]);
    assert_eq!(OggPage::new(&extended).unwrap().as_u8_slice(), &bytes[..]);
}

#[test]
fn build_round_trip() {
    let packets = vec![vec![1u8; 10], vec![], vec![2u8; 255], vec![3u8; 600]];
    let mut b = OggBuilder::new();
    for p in &packets {
        b.add_packet(p);
    }
    let page = b.build().unwrap().into_cow();
    let mut raw = page.raw_packets();
    for p in &packets {
        assert_eq!(raw.next().unwrap(), &p[..]);
    }
    assert!(raw.next().is_none());
    assert_eq!(page.header()[26], 1 + 1 + 2 + 3);
    assert_eq!(page.body().len(), 10 + 255 + 600);
}

#[test]
fn multiple_of_255_ends_with_zero_segment() {
    let mut b = OggBuilder::new();
    b.add_packet(&vec![5u8; 510]);
    let page = b.build().unwrap().into_cow();
    let header = page.header();
    assert_eq!(header[26], 3);
    assert_eq!(&header[27..30], &[255, 255, 0]);
    let mut raw = page.raw_packets();
    assert_eq!(raw.next().unwrap().len(), 510);
    assert!(raw.next().is_none());
}

#[test]
fn builder_overflow_fails() {
    let mut b = OggBuilder::new();
    for _ in 0..255 {
        b.add_packet(&[1u8]);
    }
    assert!(b.build().is_ok());
    b.add_packet(&[1u8]);
    assert!(b.build().is_err());
    let mut big = OggBuilder::new();
    big.add_packet(&vec![0u8; 255 * 255]);
    assert!(big.build().is_err());
}

#[test]
fn guard_edits_keep_page_valid() {
    let page = OggBuilder::new().build().unwrap().into_cow();
    let mut tx = page.begin();
    tx.set_position(0x0102030405060708);
    tx.set_serial(77);
    tx.set_sequence(3);
    tx.set_continued(true);
    tx.set_bos(true);
    tx.set_eos(true);
    tx.set_bos(false);
    let page = tx.commit();
    let bytes = page.into_inner();
    let again = OggPage::new(&bytes).unwrap();
    assert_eq!(again.position(), 0x0102030405060708);
    assert_eq!(again.serial(), 77);
    assert_eq!(again.sequence(), 3);
    assert!(again.continued());
    assert!(!again.bos());
    assert!(again.eos());
    assert_eq!(bytes[5], 0x05);
}

#[test]
fn scoped_edit_commits_once() {
    let page = OggBuilder::new().build().unwrap().into_cow();
    let page = page.begin().scoped(|mut g| {
        g.set_eos(true);
        g
    });
    let bytes = page.into_inner();
    let again = OggPage::new(&bytes).unwrap();
    assert!(again.eos());
    assert!(!again.continued());
}

#[test]
fn page_setters_keep_checksum() {
    let mut page = OggPageBuf::empty().into_cow();
    page.set_position(42);
    page.set_serial(9);
    page.set_sequence(11);
    page.set_continued(true);
    page.set_bos(true);
    page.set_eos(true);
    page.set_continued(false);
    let bytes = page.into_inner();
    let again = OggPage::new(&bytes).unwrap();
    assert_eq!(again.position(), 42);
    assert_eq!(again.serial(), 9);
    assert_eq!(again.sequence(), 11);
    assert!(!again.continued());
    assert!(again.bos());
    assert!(again.eos());
}

#[test]
fn bad_capture_is_reported() {
    let mut bytes = OggPageBuf::empty().into_inner();
    bytes[1] = b'x';
    assert!(matches!(OggPage::new(&bytes), Err(OggPageCheckError::BadCapture)));
    assert!(matches!(OggTrack::new(&bytes), Err(OggPageCheckError::BadCapture)));
}

#[test]
fn page_errors() {
    let good = OggPageBuf::empty().into_inner();
    assert!(matches!(OggPage::new(&good[..26]), Err(OggPageCheckError::TooShort)));
    let mut bad_version = good.clone();
    bad_version[4] = 1;
    assert!(matches!(OggPage::new(&bad_version), Err(OggPageCheckError::BadVersion)));
    let mut bad_crc = good.clone();
    bad_crc[10] = 1;
    assert!(matches!(OggPage::new(&bad_crc), Err(OggPageCheckError::BadCrc)));
    let mut short_table = good.clone();
    short_table[26] = 2;
    assert!(matches!(OggPage::new(&short_table), Err(OggPageCheckError::TooShort)));
    let mut short_body = good.clone();
    short_body[26] = 1;
    short_body.push(5);
    assert!(matches!(OggPage::new(&short_body), Err(OggPageCheckError::TooShort)));
    assert!(matches!(OggPageBuf::new(bad_crc), Err(OggPageCheckError::BadCrc)));
}

#[test]
fn track_validation_and_pages() {
    let data = sample_track();
    let track = OggTrack::new(&data).unwrap();
    let mut pages = track.pages();
    let mut count = 0;
    let mut total = 0;
    while let Some(p) = pages.next() {
        total += p.as_u8_slice().len();
        count += 1;
    }
    assert_eq!(count, 3);
    assert_eq!(total, data.len());
    assert_eq!(track.max_position(), 88200);
    let mut truncated = data.clone();
    truncated.pop();
    assert!(matches!(OggTrack::new(&truncated), Err(OggPageCheckError::TooShort)));
    assert!(OggTrack::new(&[]).is_ok());
}

#[test]
fn duration_rounds_down() {
    assert_eq!(duration_ms(88200, 44100), Some(2000));
    assert_eq!(duration_ms(1, 44100), Some(0));
    assert_eq!(duration_ms(44101, 44100), Some(1000));
    assert_eq!(duration_ms(u64::MAX, 1), None);
}

#[test]
fn edit_pages_in_place() {
    let data = sample_track();
    let mut walker = OggTrackBuf::new(data.clone()).unwrap().pages_mut();
    let mut n = 0;
    while let Some(mut page) = walker.next() {
        page.set_serial(1000 + n);
        page.set_eos(n == 2);
        walker.put_back(page);
        n += 1;
    }
    assert_eq!(n, 3);
    let edited = walker.into_track().into_inner();
    assert_eq!(edited.len(), data.len());
    let track = OggTrack::new(&edited).unwrap();
    let mut pages = track.pages();
    for i in 0..3u32 {
        let p = pages.next().unwrap();
        assert_eq!(p.serial(), 1000 + i);
        assert_eq!(p.eos(), i == 2);
    }
    assert!(pages.next().is_none());
}
