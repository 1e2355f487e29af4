use img_parts::markers::{APP1, APP2, SOI, SOS};
use img_parts::{Entropy, Error, JpegSegment};

#[test]
fn icc_segment_is_tagged_and_read_back() {
    let seg = JpegSegment::new_icc(2, 3, &[0xAA, 0xBB]);
    assert_eq!(seg.marker(), APP2);
    let (seqno, num, data) = seg.icc().unwrap();
    assert_eq!((seqno, num, data), (2, 3, &[0xAA, 0xBB][..]));
    assert_eq!(&seg.contents()[..12], b"ICC_PROFILE\0");
}

#[test]
fn icc_absent_without_signature_or_marker() {
    let plain = JpegSegment::new_with_contents(APP2, b"NOT_A_PROFILE\x01\x01".to_vec());
    assert!(plain.icc().is_none());
    let other = JpegSegment::new_with_contents(APP1, b"ICC_PROFILE\0\x01\x01".to_vec());
    assert!(other.icc().is_none());
    let short = JpegSegment::new_with_contents(APP2, b"ICC_PROFILE\0\x01".to_vec());
    assert!(short.icc().is_none());
    let empty = JpegSegment::new(APP2);
    assert!(empty.icc().is_none());
}

#[test]
fn exif_segment_is_tagged_and_read_back() {
    let seg = JpegSegment::new_exif(&[1, 2, 3]);
    assert_eq!(seg.marker(), APP1);
    assert_eq!(seg.contents(), b"Exif\0\0\x01\x02\x03");
    assert_eq!(seg.exif(), Some(&[1u8, 2, 3][..]));
    assert!(JpegSegment::new_with_contents(APP1, vec![1, 2, 3]).exif().is_none());
    assert!(JpegSegment::new_with_contents(APP2, b"Exif\0\0".to_vec()).exif().is_none());
}

#[test]
fn len_and_write_agree_with_length_field() {
    let seg = JpegSegment::new_with_contents(0xE0, vec![1, 2, 3]);
    assert_eq!(seg.len(), 7);
    assert_eq!(seg.len_with_entropy(), 7);
    let mut out = Vec::new();
    seg.write_to(&mut out).unwrap();
    assert_eq!(out, vec![0xFF, 0xE0, 0x00, 0x05, 1, 2, 3]);
    assert_eq!(out.len(), seg.len());
}

#[test]
fn standalone_marker_has_no_length_field() {
    let seg = JpegSegment::new(SOI);
    assert_eq!(seg.len(), 2);
    let mut out = Vec::new();
    seg.write_to(&mut out).unwrap();
    assert_eq!(out, vec![0xFF, 0xD8]);
    let (read, n) = JpegSegment::read(SOI, &[0xFF, 0xD9]).unwrap();
    assert_eq!(n, 0);
    assert!(read.contents().is_empty());
}

#[test]
fn read_takes_length_field_contents() {
    let (seg, n) = JpegSegment::read(0xE0, &[0x00, 0x05, 1, 2, 3, 9, 9]).unwrap();
    assert_eq!(n, 5);
    assert_eq!(seg.marker(), 0xE0);
    assert_eq!(seg.contents(), &[1, 2, 3]);
    assert!(!seg.has_entropy());
}

#[test]
fn read_errors() {
    assert_eq!(JpegSegment::read(0xE0, &[0x00]).err(), Some(Error::Truncated));
    assert_eq!(JpegSegment::read(0xE0, &[0x00, 0x06, 1]).err(), Some(Error::Truncated));
    assert_eq!(JpegSegment::read(0xE0, &[0x00, 0x01]).err(), Some(Error::BadSegmentLength));
}

#[test]
fn scan_segment_keeps_entropy_data() {
    let input = [0x00, 0x03, 7, 0x11, 0xFF, 0x00, 0x22, 0xFF, 0xD0, 0x33, 0xFF, 0xD9];
    let (seg, n) = JpegSegment::read(SOS, &input).unwrap();
    assert_eq!(n, 10);
    assert!(seg.has_entropy());
    assert_eq!(seg.contents(), &[7]);
    assert_eq!(seg.len(), 5);
    assert_eq!(seg.len_with_entropy(), 12);
    let mut out = Vec::new();
    seg.write_to(&mut out).unwrap();
    assert_eq!(out.len(), seg.len_with_entropy());
    assert_eq!(&out[2..], &input[..10]);
    assert_eq!(&out[..2], &[0xFF, SOS]);
}

#[test]
fn entropy_runs_to_end_of_input() {
    let (e, end) = Entropy::read(&[1, 2, 0xFF, 0x00, 3], 1);
    assert_eq!(end, 5);
    assert_eq!(e.raw(), &[2, 0xFF, 0x00, 3]);
    assert_eq!(e.len(), 4);
}

#[test]
fn segment_round_trip() {
    let seg = JpegSegment::new_with_entropy(SOS, vec![1, 2], Entropy::new(vec![5, 0xFF, 0x00, 6]));
    let mut out = Vec::new();
    seg.write_to(&mut out).unwrap();
    let (back, n) = JpegSegment::read(out[1], &out[2..]).unwrap();
    assert_eq!(n, out.len() - 2);
    assert!(back == seg);
}

#[test]
fn oversized_contents_overflow() {
    let seg = JpegSegment::new_with_contents(0xE0, vec![0; 0xFFFE]);
    let mut out = vec![7];
    assert_eq!(seg.write_to(&mut out), Err(Error::Overflow));
    assert_eq!(out, vec![7]);
    let fits = JpegSegment::new_with_contents(0xE0, vec![0; 0xFFFD]);
    let mut out = Vec::new();
    assert!(fits.write_to(&mut out).is_ok());
    assert_eq!(&out[2..4], &[0xFF, 0xFF]);
}
