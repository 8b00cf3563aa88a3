use nbt::nbt_stream::{NBTRead, NbtError};
use nbt::proxy::{Data, Level, TagProxy};
use nbt::tag::{parse_nbt, payload_by_id, tag_by_id, Tag};
use std::io::Write;

fn reader(bytes: Vec<u8>) -> NBTRead {
    NBTRead::from_bytes(bytes)
}

#[test]
fn byte_payload_decodes_forty_two() {
    let mut s = reader(vec![0x2A]);
    assert_eq!(payload_by_id(&mut s, 1), Ok(Tag::Byte(42)));
}

#[test]
fn named_byte_decodes_forty_two() {
    // type id 1 already consumed; zero-length name, then the payload byte.
    let mut s = reader(vec![0x00, 0x00, 0x2A]);
    let (name, tag) = tag_by_id(&mut s, 1, true).unwrap();
    assert_eq!(name, Some(String::new()));
    assert_eq!(tag, Tag::Byte(42));
}

#[test]
fn end_payload_consumes_nothing() {
    let mut s = reader(vec![0x07, 0x08]);
    assert_eq!(payload_by_id(&mut s, 0), Ok(Tag::END));
    assert_eq!(s.consume_bytes(2), Ok(vec![0x07, 0x08]));
}

#[test]
fn short_payload_big_endian() {
    let mut s = reader(vec![0x00, 0x07]);
    assert_eq!(payload_by_id(&mut s, 2), Ok(Tag::Short(7)));
    let mut s = reader(vec![0xFF, 0xFE]);
    assert_eq!(payload_by_id(&mut s, 2), Ok(Tag::Short(-2)));
}

#[test]
fn int_payload_big_endian() {
    let mut s = reader(vec![0x00, 0x00, 0x00, 0x2A]);
    assert_eq!(payload_by_id(&mut s, 3), Ok(Tag::Int(42)));
    let mut s = reader(vec![0xFF, 0xFF, 0xFF, 0xFE]);
    assert_eq!(payload_by_id(&mut s, 3), Ok(Tag::Int(-2)));
}

#[test]
fn long_payload_big_endian() {
    let mut s = reader(vec![0x00, 0x00, 0x00, 0x00, 0x00, 0x00, 0x01, 0x00]);
    assert_eq!(payload_by_id(&mut s, 4), Ok(Tag::Long(256)));
    let mut s = reader(vec![0xFF; 8]);
    assert_eq!(payload_by_id(&mut s, 4), Ok(Tag::Long(-1)));
}

#[test]
fn float_payload_holds_bit_pattern() {
    let bits = 1.5f32.to_bits();
    let mut s = reader(bits.to_be_bytes().to_vec());
    let tag = payload_by_id(&mut s, 5).unwrap();
    assert_eq!(tag, Tag::Float(bits));
    match tag {
        Tag::Float(b) => assert_eq!(f32::from_bits(b), 1.5),
        _ => panic!("not a float"),
    }
}

#[test]
fn double_payload_holds_bit_pattern() {
    let bits = (-2.5f64).to_bits();
    let mut s = reader(bits.to_be_bytes().to_vec());
    assert_eq!(payload_by_id(&mut s, 6), Ok(Tag::Double(bits)));
}

#[test]
fn byte_array_payload() {
    let mut s = reader(vec![0x00, 0x00, 0x00, 0x03, 1, 2, 3]);
    assert_eq!(payload_by_id(&mut s, 7), Ok(Tag::ByteArray(vec![1, 2, 3])));
}

#[test]
fn string_payload_ascii() {
    let mut s = reader(vec![0x00, 0x05, b'h', b'e', b'l', b'l', b'o']);
    assert_eq!(
        payload_by_id(&mut s, 8),
        Ok(Tag::String("hello".to_string()))
    );
}

#[test]
fn string_payload_multibyte_text() {
    let text = "héllo";
    let mut bytes = vec![0x00, text.len() as u8];
    bytes.extend_from_slice(text.as_bytes());
    let mut s = reader(bytes);
    assert_eq!(payload_by_id(&mut s, 8), Ok(Tag::String(text.to_string())));
}

#[test]
fn string_payload_invalid_utf8_is_malformed() {
    let mut s = reader(vec![0x00, 0x02, 0xC3, 0x28]);
    assert_eq!(payload_by_id(&mut s, 8), Err(NbtError::Malformed));
}

#[test]
fn empty_int_list_consumes_no_element_bytes() {
    // element type id 3 (Int), count 0, then two trailing bytes.
    let mut s = reader(vec![0x03, 0x00, 0x00, 0x00, 0x00, 0x09, 0x08]);
    assert_eq!(payload_by_id(&mut s, 9), Ok(Tag::List(vec![])));
    assert_eq!(s.consume_bytes(2), Ok(vec![0x09, 0x08]));
}

#[test]
fn list_of_bytes() {
    let mut s = reader(vec![0x01, 0x00, 0x00, 0x00, 0x02, 0x0A, 0x0B]);
    assert_eq!(
        payload_by_id(&mut s, 9),
        Ok(Tag::List(vec![Tag::Byte(10), Tag::Byte(11)]))
    );
}

#[test]
fn list_negative_count_is_malformed() {
    let mut s = reader(vec![0x01, 0xFF, 0xFF, 0xFF, 0xFF]);
    assert_eq!(payload_by_id(&mut s, 9), Err(NbtError::Malformed));
}

#[test]
fn compound_single_short_stops_at_end_marker() {
    // one named Short field "a" = 7, then End, then one trailing byte.
    let mut s = reader(vec![
        0x02, 0x00, 0x01, b'a', 0x00, 0x07, 0x00, 0x77,
    ]);
    let tag = payload_by_id(&mut s, 10).unwrap();
    assert_eq!(
        tag,
        Tag::Compound(vec![("a".to_string(), Tag::Short(7))])
    );
    // the loop terminated without consuming bytes past the End marker
    assert_eq!(s.consume_bytes(1), Ok(vec![0x77]));
}

#[test]
fn compound_duplicate_key_keeps_last_value() {
    let mut s = reader(vec![
        0x01, 0x00, 0x01, b'k', 0x01, // k = Byte(1)
        0x01, 0x00, 0x01, b'k', 0x02, // k = Byte(2)
        0x00,
    ]);
    assert_eq!(
        payload_by_id(&mut s, 10),
        Ok(Tag::Compound(vec![("k".to_string(), Tag::Byte(2))]))
    );
}

#[test]
fn int_array_payload() {
    let mut s = reader(vec![
        0x00, 0x00, 0x00, 0x02, //
        0x00, 0x00, 0x00, 0x01, //
        0xFF, 0xFF, 0xFF, 0xFF,
    ]);
    assert_eq!(payload_by_id(&mut s, 11), Ok(Tag::IntArray(vec![1, -1])));
}

#[test]
fn long_array_payload() {
    let mut s = reader(vec![
        0x00, 0x00, 0x00, 0x01, //
        0x00, 0x00, 0x00, 0x00, 0x00, 0x00, 0x00, 0x05,
    ]);
    assert_eq!(payload_by_id(&mut s, 12), Ok(Tag::LongArray(vec![5])));
}

#[test]
fn negative_array_count_is_malformed() {
    let mut s = reader(vec![0xFF, 0xFF, 0xFF, 0xFF]);
    assert_eq!(payload_by_id(&mut s, 7), Err(NbtError::Malformed));
}

#[test]
fn truncated_int_fails_with_eof_and_exhausts_source() {
    let mut s = reader(vec![0x01]);
    assert_eq!(payload_by_id(&mut s, 3), Err(NbtError::UnexpectedEof));
    // the source is considered exhausted: nothing more can be read
    assert_eq!(s.consume_bytes(1), Err(NbtError::UnexpectedEof));
}

#[test]
fn unrecognized_type_id_is_malformed_not_fatal() {
    let mut s = reader(vec![0xFF, 0x00, 0x00, 0x2A]);
    assert_eq!(parse_nbt(&mut s, true), Err(NbtError::Malformed));
    // the process carries on; a fresh decode still works
    let mut s2 = reader(vec![0x01, 0x00, 0x00, 0x2A]);
    assert!(parse_nbt(&mut s2, true).is_ok());
}

#[test]
fn from_stream_reads_root_compound() {
    let mut s = reader(vec![
        0x0A, 0x00, 0x00, // root compound, empty name
        0x01, 0x00, 0x01, b'b', 0x05, // "b" = Byte(5)
        0x00,
    ]);
    assert_eq!(
        Tag::from_stream(&mut s),
        Ok(Tag::Compound(vec![("b".to_string(), Tag::Byte(5))]))
    );
}

#[test]
fn gzipped_stream_round_trips_through_new() {
    let plain = vec![
        0x0A, 0x00, 0x00, //
        0x02, 0x00, 0x01, b's', 0x00, 0x09, //
        0x00,
    ];
    let mut enc =
        flate2::write::GzEncoder::new(Vec::new(), flate2::Compression::default());
    enc.write_all(&plain).unwrap();
    let compressed = enc.finish().unwrap();
    assert_ne!(compressed, plain);
    let mut s = NBTRead::new(compressed).unwrap();
    assert_eq!(
        Tag::from_stream(&mut s),
        Ok(Tag::Compound(vec![("s".to_string(), Tag::Short(9))]))
    );
}

#[test]
fn garbage_is_not_gzip() {
    assert!(matches!(NBTRead::new(vec![1, 2, 3]), Err(NbtError::BadGzip)));
}

#[test]
fn accessors_project_the_matching_variant() {
    assert_eq!(Tag::Byte(3).byte(), Some(3));
    assert_eq!(Tag::Short(4).byte(), None);
    assert_eq!(Tag::Short(-7).short(), Some(-7));
    assert_eq!(Tag::Int(9).int_value(), Some(9));
    assert_eq!(Tag::Long(-1).long(), Some(-1));
    assert_eq!(Tag::Float(0x3FC00000).float(), Some(0x3FC00000));
    assert_eq!(Tag::Double(5).double(), Some(5));
    assert_eq!(
        Tag::String("x".to_string()).string(),
        Some(&"x".to_string())
    );
    assert_eq!(Tag::List(vec![]).list(), Some(&vec![]));
    assert_eq!(Tag::IntArray(vec![1]).int_array(), Some(&vec![1]));
    assert_eq!(Tag::END.compound(), None);
}

#[test]
fn compound_insert_replaces_in_place_and_appends() {
    let mut t = Tag::Compound(vec![("a".to_string(), Tag::Byte(1))]);
    assert!(t.compound_insert("a".to_string(), Tag::Byte(9)));
    assert!(t.compound_insert("b".to_string(), Tag::Byte(2)));
    assert_eq!(
        t,
        Tag::Compound(vec![
            ("a".to_string(), Tag::Byte(9)),
            ("b".to_string(), Tag::Byte(2)),
        ])
    );
    let mut n = Tag::Byte(0);
    assert!(!n.compound_insert("a".to_string(), Tag::Byte(1)));
    assert_eq!(n, Tag::Byte(0));
}

#[test]
fn proxy_reads_save_file_fields() {
    let data = Tag::Compound(vec![
        ("allowCommands".to_string(), Tag::Byte(1)),
        ("raining".to_string(), Tag::Byte(0)),
        (
            "ServerBrands".to_string(),
            Tag::List(vec![Tag::String("vanilla".to_string())]),
        ),
    ]);
    let level = Level::from_tag(Tag::Compound(vec![("Data".to_string(), data)]));
    let d = level.data().unwrap();
    assert_eq!(d.allow_commands(), Some(1));
    assert_eq!(d.raining(), Some(0));
    assert_eq!(
        d.server_brands(),
        Some(&vec![Tag::String("vanilla".to_string())])
    );
}

#[test]
fn proxy_navigation_failures_yield_none() {
    let level = Level::from_tag(Tag::Byte(1));
    assert!(level.data().is_none());
    let empty = Tag::Compound(vec![]);
    let d = Data::from_tag(&empty);
    assert_eq!(d.allow_commands(), None);
    assert_eq!(d.server_brands(), None);
    assert_eq!(d.as_tag(), &Tag::Compound(vec![]));
}

#[test]
fn encode_then_decode_reproduces_the_tree() {
    let tree = Tag::Compound(vec![
        ("b".to_string(), Tag::Byte(7)),
        ("s".to_string(), Tag::Short(-2)),
        ("i".to_string(), Tag::Int(123456)),
        ("l".to_string(), Tag::Long(-99999999999)),
        ("f".to_string(), Tag::Float(1.5f32.to_bits())),
        ("d".to_string(), Tag::Double(2.5f64.to_bits())),
        ("ba".to_string(), Tag::ByteArray(vec![1, 2, 3])),
        ("st".to_string(), Tag::String("héllo".to_string())),
        (
            "li".to_string(),
            Tag::List(vec![Tag::Int(1), Tag::Int(2)]),
        ),
        (
            "co".to_string(),
            Tag::Compound(vec![("x".to_string(), Tag::Byte(1))]),
        ),
        ("ia".to_string(), Tag::IntArray(vec![-1, 0, 1])),
        ("la".to_string(), Tag::LongArray(vec![5, -5])),
    ]);
    let bytes = tree.to_bytes().unwrap();
    let mut s = NBTRead::from_bytes(bytes);
    let back = payload_by_id(&mut s, nbt::tag::tag_id(&tree)).unwrap();
    assert_eq!(back, tree);
    // the decode consumed the whole encoding
    assert_eq!(s.consume_bytes(1), Err(NbtError::UnexpectedEof));
}

#[test]
fn empty_list_round_trips() {
    let tree = Tag::List(vec![]);
    let bytes = tree.to_bytes().unwrap();
    assert_eq!(bytes, vec![0, 0, 0, 0, 0]);
    let mut s = NBTRead::from_bytes(bytes);
    assert_eq!(payload_by_id(&mut s, 9), Ok(tree));
}

#[test]
fn short_encoding_is_big_endian() {
    assert_eq!(Tag::Short(-2).to_bytes().unwrap(), vec![0xFF, 0xFE]);
    assert_eq!(Tag::Int(42).to_bytes().unwrap(), vec![0, 0, 0, 42]);
}

#[test]
fn mixed_list_is_not_encodable() {
    let tree = Tag::List(vec![Tag::Byte(1), Tag::Short(2)]);
    assert_eq!(tree.to_bytes(), Err(NbtError::Unencodable));
    let stray_end = Tag::Compound(vec![("e".to_string(), Tag::END)]);
    assert_eq!(stray_end.to_bytes(), Err(NbtError::Unencodable));
}
