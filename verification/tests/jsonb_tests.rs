use binlog_codec::jsonb::{read_binary_json, JsonValue};
use binlog_codec::BinlogError;

#[test]
fn literal_true() {
    // A literal tag with the `true` sub-code.
    let bytes = vec![0x04, 0x01];
    assert_eq!(read_binary_json(&bytes, 2), Ok(JsonValue::Bool(true)));
}

#[test]
fn literal_false_and_null() {
    assert_eq!(read_binary_json(&[0x04, 0x02], 2), Ok(JsonValue::Bool(false)));
    assert_eq!(read_binary_json(&[0x04, 0x00], 2), Ok(JsonValue::Null));
    // Lenient: an out-of-range literal sub-code decodes to null.
    assert_eq!(read_binary_json(&[0x04, 0x77], 2), Ok(JsonValue::Null));
}

#[test]
fn string_foo() {
    // A string of length 3.
    let bytes = vec![0x0c, 0x03, 0x66, 0x6f, 0x6f];
    assert_eq!(read_binary_json(&bytes, 5), Ok(JsonValue::Str(b"foo".to_vec())));
}

#[test]
fn small_object_one_int16() {
    // {"a": 1} as a small object with an int16-inlined value.
    let bytes = vec![
        0x00, // small object
        0x01, 0x00, // element count 1
        0x0c, 0x00, // byte size 12
        0x0b, 0x00, 0x01, 0x00, // key entry: offset 11, length 1
        0x05, 0x01, 0x00, // value entry: int16 inlined, value 1
        0x61, // key "a"
    ];
    assert_eq!(
        read_binary_json(&bytes, 13),
        Ok(JsonValue::Obj(vec![(b"a".to_vec(), JsonValue::Integer(1))]))
    );
}

#[test]
fn small_array_inline_int16() {
    // [1, 2] with both elements inlined.
    let bytes = vec![
        0x02, // small array
        0x02, 0x00, // count 2
        0x0a, 0x00, // size 10
        0x05, 0x01, 0x00, // int16 1
        0x05, 0x02, 0x00, // int16 2
    ];
    assert_eq!(
        read_binary_json(&bytes, 11),
        Ok(JsonValue::Arr(vec![JsonValue::Integer(1), JsonValue::Integer(2)]))
    );
}

#[test]
fn small_array_indirect_int32() {
    // [1234] — int32 is not inlined in a small container: 2-byte offset.
    let bytes = vec![
        0x02, // small array
        0x01, 0x00, // count 1
        0x0b, 0x00, // size 11
        0x07, 0x07, 0x00, // entry: int32 at offset 7
        0xd2, 0x04, 0x00, 0x00, // 1234 little-endian
    ];
    assert_eq!(read_binary_json(&bytes, 12), Ok(JsonValue::Arr(vec![JsonValue::Integer(1234)])));
}

#[test]
fn large_object_int16_pad() {
    // {"a": 7} as a large object: the int16 word carries a 2-byte pad.
    let bytes = vec![
        0x01, // large object
        0x01, 0x00, 0x00, 0x00, // count 1
        0x14, 0x00, 0x00, 0x00, // size 20
        0x13, 0x00, 0x00, 0x00, 0x01, 0x00, // key entry: offset 19, length 1
        0x05, 0x07, 0x00, 0x00, 0x00, // value entry: int16 7, then pad
        0x61, // key "a"
    ];
    assert_eq!(
        read_binary_json(&bytes, 21),
        Ok(JsonValue::Obj(vec![(b"a".to_vec(), JsonValue::Integer(7))]))
    );
}

#[test]
fn large_array_inline_uint32() {
    // [0x12345678] — uint32 is inlined in a large container.
    let bytes = vec![
        0x03, // large array
        0x01, 0x00, 0x00, 0x00, // count 1
        0x0d, 0x00, 0x00, 0x00, // size 13
        0x08, 0x78, 0x56, 0x34, 0x12, // uint32 inlined
    ];
    assert_eq!(
        read_binary_json(&bytes, 14),
        Ok(JsonValue::Arr(vec![JsonValue::Unsigned(0x12345678)]))
    );
}

#[test]
fn scalar_tags() {
    // One vector per remaining scalar tag of the enumeration.
    assert_eq!(read_binary_json(&[0x05, 0x2a, 0x00], 3), Ok(JsonValue::Integer(42)));
    assert_eq!(read_binary_json(&[0x05, 0xff, 0xff], 3), Ok(JsonValue::Integer(-1)));
    assert_eq!(read_binary_json(&[0x06, 0xff, 0xff], 3), Ok(JsonValue::Unsigned(65535)));
    assert_eq!(
        read_binary_json(&[0x07, 0xfe, 0xff, 0xff, 0xff], 5),
        Ok(JsonValue::Integer(-2))
    );
    assert_eq!(
        read_binary_json(&[0x08, 0xff, 0xff, 0xff, 0xff], 5),
        Ok(JsonValue::Unsigned(4294967295))
    );
    assert_eq!(
        read_binary_json(&[0x09, 0xff, 0xff, 0xff, 0xff, 0xff, 0xff, 0xff, 0xff], 9),
        Ok(JsonValue::Integer(-1))
    );
    assert_eq!(
        read_binary_json(&[0x0a, 0xff, 0xff, 0xff, 0xff, 0xff, 0xff, 0xff, 0xff], 9),
        Ok(JsonValue::Unsigned(u64::MAX))
    );
    // Double 1.5: IEEE-754 bits kept as they came off the wire.
    let mut d = vec![0x0b];
    d.extend_from_slice(&1.5f64.to_bits().to_le_bytes());
    assert_eq!(read_binary_json(&d, 9), Ok(JsonValue::DoubleBits(1.5f64.to_bits())));
}

#[test]
fn varlen_string_length_300() {
    // The prefix [0xAC 0x02] encodes 300; exactly 300 payload bytes follow.
    let mut bytes = vec![0x0c, 0xac, 0x02];
    bytes.extend(std::iter::repeat(0x41u8).take(300));
    match read_binary_json(&bytes, bytes.len()) {
        Ok(JsonValue::Str(s)) => {
            assert_eq!(s.len(), 300);
            assert_eq!(s, vec![0x41u8; 300]);
        },
        other => panic!("expected a 300-byte string, got {:?}", other),
    }
}

#[test]
fn budget_exceeded_is_corrupt() {
    // An object that declares 12 bytes but only 5 are allowed.
    let bytes = vec![
        0x00, 0x01, 0x00, 0x0c, 0x00, 0x0b, 0x00, 0x01, 0x00, 0x05, 0x01, 0x00, 0x61,
    ];
    assert_eq!(read_binary_json(&bytes, 5), Err(BinlogError::CorruptPayload));
}

#[test]
fn unknown_tag() {
    assert_eq!(read_binary_json(&[0x0d, 0x00], 2), Err(BinlogError::UnknownType));
    assert_eq!(read_binary_json(&[0xff, 0x00], 2), Err(BinlogError::UnknownType));
}

#[test]
fn truncated_reads_are_corrupt() {
    assert_eq!(read_binary_json(&[], 0), Err(BinlogError::CorruptPayload));
    assert_eq!(read_binary_json(&[0x09, 0x01], 9), Err(BinlogError::CorruptPayload));
    assert_eq!(read_binary_json(&[0x0c, 0x05, 0x61], 3), Err(BinlogError::CorruptPayload));
    // A zero budget cannot even pay for the tag byte.
    assert_eq!(read_binary_json(&[0x04, 0x01], 0), Err(BinlogError::CorruptPayload));
}

#[test]
fn nested_document_round_trip() {
    // {"k": "foo", "n": [1, 2]}, hand-encoded as MySQL lays it out,
    // decodes back to the same document.
    let bytes = vec![
        0x00, // small object
        0x02, 0x00, // count 2
        0x22, 0x00, // size 34
        0x12, 0x00, 0x01, 0x00, // key entry "k": offset 18, length 1
        0x13, 0x00, 0x01, 0x00, // key entry "n": offset 19, length 1
        0x0c, 0x14, 0x00, // value entry: string at offset 20
        0x02, 0x18, 0x00, // value entry: small array at offset 24
        0x6b, // "k"
        0x6e, // "n"
        0x03, 0x66, 0x6f, 0x6f, // "foo"
        0x02, 0x00, 0x0a, 0x00, 0x05, 0x01, 0x00, 0x05, 0x02, 0x00, // [1, 2]
    ];
    assert_eq!(
        read_binary_json(&bytes, 35),
        Ok(JsonValue::Obj(vec![
            (b"k".to_vec(), JsonValue::Str(b"foo".to_vec())),
            (
                b"n".to_vec(),
                JsonValue::Arr(vec![JsonValue::Integer(1), JsonValue::Integer(2)])
            ),
        ]))
    );
}

#[test]
fn empty_object_decodes_as_array() {
    // A container without keys comes back as an array, as the source
    // encoding's assembly rule says.
    let bytes = vec![0x00, 0x00, 0x00, 0x04, 0x00];
    assert_eq!(read_binary_json(&bytes, 5), Ok(JsonValue::Arr(vec![])));
}
