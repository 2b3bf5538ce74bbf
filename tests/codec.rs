use internet2::codec::{push_prefixed, push_u16, push_u32, read_u16, read_u32, DecodeError, Value, ValueKind};

#[test]
fn integers_are_little_endian() {
    let mut out = Vec::new();
    push_u16(&mut out, 0xBEEF);
    push_u32(&mut out, 0xDEADCAFE);
    assert_eq!(out, vec![0xEF, 0xBE, 0xFE, 0xCA, 0xAD, 0xDE]);
    assert_eq!(read_u16(&out, 0), Ok(0xBEEF));
    assert_eq!(read_u32(&out, 2), Ok(0xDEADCAFE));
    assert_eq!(read_u32(&out, 3), Err(DecodeError::UnexpectedEof));
}

#[test]
fn empty_byte_string_is_its_prefix() {
    let mut out = Vec::new();
    push_prefixed(&mut out, &[]);
    assert_eq!(out, vec![0x00, 0x00]);
    assert_eq!(Value::decode_at(ValueKind::Bytes, &out, 0), Ok((Value::Bytes(vec![]), 2)));
}

#[test]
fn value_round_trip() {
    for v in [
        Value::U8(7),
        Value::U16(0x1234),
        Value::U32(1),
        Value::Bytes(vec![9, 8, 7]),
        Value::ByteMap(vec![(1, vec![]), (200, vec![5])]),
    ] {
        let mut out = Vec::new();
        v.encode_into(&mut out);
        assert_eq!(Value::decode_at(v.kind(), &out, 0), Ok((v.clone(), out.len())));
    }
}

#[test]
fn byte_map_keys_must_ascend() {
    let data = [0x02, 0x00, 0x05, 0x00, 0x00, 0x05, 0x00, 0x00];
    assert_eq!(Value::decode_at(ValueKind::ByteMap, &data, 0), Err(DecodeError::UnorderedKeys));
    let empty = [0x00, 0x00];
    assert_eq!(Value::decode_at(ValueKind::ByteMap, &empty, 0), Ok((Value::ByteMap(vec![]), 2)));
}
