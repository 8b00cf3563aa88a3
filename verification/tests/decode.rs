//! Decoding scenarios over hand-built byte sequences.

use nbt::nbt_stream::{NBTRead, NbtError};
use nbt::tag::{parse_nbt, payload_by_id, tag_by_id, Tag};

#[test]
fn byte_forty_two() {
    let mut s = NBTRead::from_bytes(vec![0x2A]);
    let t = payload_by_id(&mut s, 1).unwrap();
    assert_eq!(t, Tag::Byte(42));
}

#[test]
fn named_byte_forty_two() {
    let mut s = NBTRead::from_bytes(vec![0x00, 0x00, 0x2A]);
    let (name, t) = tag_by_id(&mut s, 1, true).unwrap();
    assert_eq!(name, Some(String::new()));
    assert_eq!(t, Tag::Byte(42));
}

#[test]
fn empty_int_list() {
    let mut s = NBTRead::from_bytes(vec![3, 0, 0, 0, 0, 9, 9]);
    let t = payload_by_id(&mut s, 9).unwrap();
    assert_eq!(t, Tag::List(vec![]));
    assert_eq!(s.consume_bytes(2).unwrap(), vec![9, 9]);
}

#[test]
fn compound_single_short() {
    let mut bytes = vec![10u8];
    bytes.extend_from_slice(&[0, 0]);
    bytes.push(2);
    bytes.extend_from_slice(&[0, 1]);
    bytes.push(b'x');
    bytes.extend_from_slice(&[0, 7]);
    bytes.push(0);
    bytes.push(0x55);
    let mut s = NBTRead::from_bytes(bytes);
    let (_, t) = parse_nbt(&mut s, true).unwrap();
    assert_eq!(t, Tag::Compound(vec![("x".to_string(), Tag::Short(7))]));
    assert_eq!(s.consume_bytes(1).unwrap(), vec![0x55]);
}

#[test]
fn truncated_int_fails_with_eof() {
    let mut s = NBTRead::from_bytes(vec![0x01]);
    assert_eq!(payload_by_id(&mut s, 3), Err(NbtError::UnexpectedEof));
    assert_eq!(s.consume_bytes(1), Err(NbtError::UnexpectedEof));
}

#[test]
fn unknown_id_is_malformed() {
    let mut s = NBTRead::from_bytes(vec![0xFF, 0x00, 0x00]);
    let r = parse_nbt(&mut s, true);
    assert_eq!(r, Err(NbtError::Malformed));
}

#[test]
fn int_array_three_elements() {
    let mut bytes = vec![0u8, 0, 0, 3];
    for v in [1i32, -2, 300] {
        bytes.extend_from_slice(&v.to_be_bytes());
    }
    let mut s = NBTRead::from_bytes(bytes);
    let t = payload_by_id(&mut s, 11).unwrap();
    assert_eq!(t, Tag::IntArray(vec![1, -2, 300]));
}

#[test]
fn string_payload() {
    let mut s = NBTRead::from_bytes(vec![0, 2, b'h', b'i']);
    let t = payload_by_id(&mut s, 8).unwrap();
    assert_eq!(t, Tag::String("hi".to_string()));
}

#[test]
fn negative_count_is_malformed() {
    let mut s = NBTRead::from_bytes(vec![0xFF, 0xFF, 0xFF, 0xFF]);
    assert_eq!(payload_by_id(&mut s, 7), Err(NbtError::Malformed));
}
