use bytes::Bytes;
use img_parts::{Error, RiffChunk, RiffContent};

fn webp_tree() -> RiffChunk {
    let leaf = RiffChunk::new(*b"VP8 ", RiffContent::Data(Bytes::from(vec![1u8, 2, 3])));
    RiffChunk::new(
        *b"RIFF",
        RiffContent::List {
            kind: Some(*b"WEBP"),
            subchunks: vec![leaf],
        },
    )
}

fn webp_bytes() -> Vec<u8> {
    let mut v = Vec::new();
    v.extend_from_slice(b"RIFF");
    v.extend_from_slice(&[16, 0, 0, 0]);
    v.extend_from_slice(b"WEBP");
    v.extend_from_slice(b"VP8 ");
    v.extend_from_slice(&[3, 0, 0, 0, 1, 2, 3, 0]);
    v
}

#[test]
fn encode_tree_with_padding() {
    let tree = webp_tree();
    assert_eq!(tree.len(), 24);
    assert_eq!(tree.content().len(), 16);
    let mut out = Vec::new();
    tree.write_to(&mut out).unwrap();
    assert_eq!(out, webp_bytes());
    assert_eq!(out.len(), tree.len() as usize);
}

#[test]
fn even_data_has_no_pad() {
    let chunk = RiffChunk::new(*b"ICCP", RiffContent::Data(Bytes::from(vec![9u8, 8])));
    assert_eq!(chunk.len(), 10);
    let mut out = Vec::new();
    chunk.write_to(&mut out).unwrap();
    assert_eq!(out, vec![b'I', b'C', b'C', b'P', 2, 0, 0, 0, 9, 8]);
}

#[test]
fn decode_then_encode_reproduces_bytes() {
    let input = webp_bytes();
    let chunk = RiffChunk::from_bytes(Bytes::from(input.clone())).unwrap();
    assert_eq!(chunk.id(), *b"RIFF");
    let (kind, subchunks) = chunk.content().list().unwrap();
    assert_eq!(*kind, Some(*b"WEBP"));
    assert_eq!(subchunks.len(), 1);
    assert_eq!(subchunks[0].id(), *b"VP8 ");
    assert_eq!(subchunks[0].content().data().unwrap(), Bytes::from(vec![1u8, 2, 3]));
    assert!(subchunks[0].content().list().is_none());
    assert!(chunk.content().data().is_none());
    let mut out = Vec::new();
    chunk.write_to(&mut out).unwrap();
    assert_eq!(out, input);
    assert!(chunk == webp_tree());
}

#[test]
fn decode_stops_at_length_field() {
    let mut input = webp_bytes();
    input.extend_from_slice(b"trailing");
    let chunk = RiffChunk::from_bytes(Bytes::from(input)).unwrap();
    assert_eq!(chunk.len(), 24);
}

#[test]
fn root_tag_is_required() {
    let mut input = webp_bytes();
    input[..4].copy_from_slice(b"LIST");
    let b = Bytes::from(input);
    assert!(matches!(RiffChunk::from_bytes(b.clone()), Err(Error::NoRiffHeader)));
    let nested = RiffChunk::from_bytes_impl(&b, 0, b.len(), false);
    let (chunk, n) = nested.unwrap();
    assert_eq!(n, 24);
    assert_eq!(chunk.id(), *b"LIST");
}

#[test]
fn length_beyond_input_is_truncated() {
    let mut input = webp_bytes();
    input[4] = 100;
    assert!(matches!(RiffChunk::from_bytes(Bytes::from(input)), Err(Error::Truncated)));
    assert!(matches!(RiffChunk::from_bytes(Bytes::from(b"RIFF\x04".to_vec())), Err(Error::Truncated)));
}

#[test]
fn child_overrunning_container_is_malformed() {
    let mut input = webp_bytes();
    input[16] = 20;
    input.extend_from_slice(&[0; 32]);
    assert!(matches!(RiffChunk::from_bytes(Bytes::from(input)), Err(Error::MalformedNesting)));
}

#[test]
fn nonzero_pad_is_refused() {
    let mut input = webp_bytes();
    input[23] = 7;
    assert!(matches!(RiffChunk::from_bytes(Bytes::from(input)), Err(Error::BadPadding)));
}

#[test]
fn content_can_be_replaced() {
    let mut chunk = webp_tree();
    *chunk.content_mut() = RiffContent::Data(Bytes::from(vec![1u8]));
    assert_eq!(chunk.id(), *b"RIFF");
    assert_eq!(chunk.len(), 10);
    let mut out = Vec::new();
    chunk.write_to(&mut out).unwrap();
    assert_eq!(out, vec![b'R', b'I', b'F', b'F', 1, 0, 0, 0, 1, 0]);
}

#[test]
fn tag_classification() {
    assert!(img_parts::riff::has_subchunks(*b"RIFF"));
    assert!(img_parts::riff::has_subchunks(*b"seqt"));
    assert!(!img_parts::riff::has_subchunks(*b"VP8 "));
    assert!(img_parts::riff::has_kind(*b"LIST"));
    assert!(!img_parts::riff::has_kind(*b"seqt"));
}

#[test]
fn empty_list_decodes_without_root_check() {
    let mut v = Vec::new();
    v.extend_from_slice(b"LIST");
    v.extend_from_slice(&[4, 0, 0, 0]);
    v.extend_from_slice(b"INFO");
    let b = Bytes::from(v.clone());
    let (chunk, n) = RiffChunk::from_bytes_impl(&b, 0, b.len(), false).unwrap();
    assert_eq!(n, 12);
    assert_eq!(chunk.id(), *b"LIST");
    let (kind, subchunks) = chunk.content().list().unwrap();
    assert_eq!(*kind, Some(*b"INFO"));
    assert!(subchunks.is_empty());
    let mut out = Vec::new();
    chunk.write_to(&mut out).unwrap();
    assert_eq!(out, v);
}

#[test]
fn root_shorter_than_kind_is_truncated() {
    let mut v = Vec::new();
    v.extend_from_slice(b"RIFF");
    v.extend_from_slice(&[2, 0, 0, 0, b'W', b'E']);
    assert!(matches!(RiffChunk::from_bytes(Bytes::from(v)), Err(Error::Truncated)));
}

#[test]
fn child_overrun_does_not_read_past_container() {
    let mut v = Vec::new();
    v.extend_from_slice(b"RIFF");
    v.extend_from_slice(&[12, 0, 0, 0]);
    v.extend_from_slice(b"WEBP");
    v.extend_from_slice(b"VP8 ");
    v.extend_from_slice(&[16, 0, 0, 0]);
    v.extend_from_slice(&[0; 16]);
    assert!(matches!(RiffChunk::from_bytes(Bytes::from(v)), Err(Error::MalformedNesting)));
}
