use internet2::codec::{DecodeError, Value, ValueKind};
use internet2::record::{Record, Schema};
use internet2::tlv::{TlvEntry, TlvStream};

const TLV_U32: u32 = 0xDEADCAFE;

fn tlv_u32() -> Vec<u8> {
    vec![
        // Count of TLV elements:
        0x01, 0x00, //
        // Type field:
        0xEF, 0xBE, //
        // Length:
        0x04, 0x00, //
        // Value field:
        0xFE, 0xCA, 0xAD, 0xDE,
    ]
}

fn schema(fixed: Vec<ValueKind>, tlv: &[(u16, ValueKind, bool)], bucket: bool) -> Schema {
    let mut s = Schema::new(fixed, bucket);
    for (id, kind, optional) in tlv {
        s.add_tlv_field(*id, *kind, *optional).unwrap();
    }
    s
}

fn record(fixed: Vec<Value>, tlv: Vec<Option<Value>>) -> Record {
    Record { fixed, tlv, unknown: TlvStream::new() }
}

fn roundtrip(schema: &Schema, rec: &Record, bytes: &[u8]) {
    assert_eq!(rec.encode(schema), bytes.to_vec());
    assert_eq!(&Record::decode(schema, bytes).unwrap(), rec);
}

#[test]
fn tlv_optional() {
    let s = schema(vec![ValueKind::U8], &[(0xBEEF, ValueKind::U32, true)], false);
    roundtrip(&s, &record(vec![Value::U8(0xDD)], vec![None]), &[0xDD, 0x00, 0x00]);
    let mut expected = vec![0xDD];
    expected.extend(tlv_u32());
    roundtrip(&s, &record(vec![Value::U8(0xDD)], vec![Some(Value::U32(TLV_U32))]), &expected);
}

#[test]
fn tlv_newtype() {
    let s = schema(vec![], &[(0xBEEF, ValueKind::U32, true)], false);
    roundtrip(&s, &record(vec![], vec![None]), &[0x00, 0x00]);
    roundtrip(&s, &record(vec![], vec![Some(Value::U32(TLV_U32))]), &tlv_u32());
}

#[test]
fn tlv_default() {
    let s = schema(vec![ValueKind::U8], &[(0xBEEF, ValueKind::Bytes, false)], false);
    roundtrip(&s, &record(vec![Value::U8(0)], vec![None]), &[0x00; 3]);
    roundtrip(
        &s,
        &record(vec![Value::U8(0xDD)], vec![Some(Value::Bytes(TLV_U32.to_le_bytes().to_vec()))]),
        &[
            0xdd, // =fixed
            0x01, 0x00, // # of TLVs
            0xef, 0xbe, // TLV type
            0x06, 0x00, // TLV length
            0x04, 0x00, 0xfe, 0xca, 0xad, 0xde, // Value: length + vec
        ],
    );
}

#[test]
fn tlv_ordering() {
    // Fields are declared out of order; the schema keeps them by type id.
    let s = schema(vec![], &[(0xCAFE, ValueKind::U8, true), (0x0BAD, ValueKind::U8, true)], false);
    let data = [
        // Count of TLV fields
        0x02, 0x00, //
        // First goes first
        0xAD, 0x0B, // type
        0x01, 0x00, // length
        0xA1, // value
        // Second goes second
        0xFE, 0xCA, // type
        0x01, 0x00, // length
        0xA2, // value
    ];
    Record::decode(&s, &data).unwrap();

    roundtrip(&s, &record(vec![], vec![None, None]), &[0x00; 2]);
    roundtrip(&s, &record(vec![], vec![Some(Value::U8(0xA1)), Some(Value::U8(0xA2))]), &data);

    // Now lets switch ordering
    let err = Record::decode(
        &s,
        &[
            // Count of TLV fields
            0x02, 0x00, //
            // Second goes first
            0xFE, 0xCA, // type
            0x01, 0x00, // length
            0xA1, // value
            // First goes second
            0xAD, 0x0B, // type
            0x01, 0x00, // length
            0xA1, // value
        ],
    )
    .expect_err("");
    assert_eq!(err, DecodeError::OutOfOrderTlv);
}

#[test]
fn tlv_stream() {
    let s = schema(
        vec![ValueKind::Bytes],
        &[(1, ValueKind::U16, true), (2, ValueKind::Bytes, true)],
        true,
    );
    roundtrip(&s, &record(vec![Value::Bytes(vec![])], vec![None, None]), &[0x00; 4]);
}

#[test]
fn pseudo_tlv() {
    // A record with no TLV field still ends with an (empty) TLV stream.
    let s = schema(vec![ValueKind::Bytes, ValueKind::ByteMap], &[], false);
    let data1 = [0x00, 0x00, 0x00, 0x00, 0x00, 0x00];
    let data2 = [
        // vec:
        0x03, 0x00, 0xB1, 0xB2, 0xB3, // empty map:
        0x00, 0x00, // TLV stream, added on top
        0x00, 0x00,
    ];

    // Checking that the data are entirely consumed
    Record::decode(&s, &data1).unwrap();
    Record::decode(&s, &data2).unwrap();

    roundtrip(&s, &record(vec![Value::Bytes(vec![]), Value::ByteMap(vec![])], vec![]), &data1);
    roundtrip(
        &s,
        &record(vec![Value::Bytes(vec![0xB1, 0xB2, 0xB3]), Value::ByteMap(vec![])], vec![]),
        &data2,
    );
}

#[test]
fn tlv_collection() {
    let s = schema(vec![], &[(0xCAFE, ValueKind::ByteMap, false), (0x0BAD, ValueKind::Bytes, false)], false);
    roundtrip(&s, &record(vec![], vec![None, None]), &[0x00, 0x00]);
    roundtrip(
        &s,
        &record(
            vec![],
            vec![
                Some(Value::Bytes(vec![0xB1, 0xB2, 0xB3])),
                Some(Value::ByteMap(vec![
                    (0xA1u8, "First".as_bytes().to_vec()),
                    (0xA2u8, "Second".as_bytes().to_vec()),
                ])),
            ],
        ),
        &[
            // Count of TLV fields
            0x02, 0x00, //
            // First goes first
            0xAD, 0x0B, // type
            0x05, 0x00, // length
            0x03, 0x00, 0xB1, 0xB2, 0xB3, // value
            // Second goes second
            0xFE, 0xCA, // type
            0x13, 0x00, // length
            0x02, 0x00, // value: # of map elements
            0xA1, 0x05, 0x00, b'F', b'i', b'r', b's', b't', // first entry
            0xA2, 0x06, 0x00, b'S', b'e', b'c', b'o', b'n', b'd',
        ],
    );
}

#[test]
fn unknown_type_without_bucket_is_refused() {
    let s = schema(vec![], &[(1, ValueKind::U8, true)], false);
    let data = [0x01, 0x00, 0x05, 0x00, 0x01, 0x00, 0x07];
    assert_eq!(Record::decode(&s, &data), Err(DecodeError::UnknownTlvType(5)));
}

#[test]
fn unknown_entries_kept_in_bucket_and_sorted_back() {
    let s = schema(vec![], &[(3, ValueKind::U8, true)], true);
    let data = [
        0x03, 0x00, //
        0x01, 0x00, 0x01, 0x00, 0xAA, //
        0x03, 0x00, 0x01, 0x00, 0xBB, //
        0x09, 0x00, 0x02, 0x00, 0xCC, 0xDD,
    ];
    let rec = Record::decode(&s, &data).unwrap();
    assert_eq!(rec.tlv, vec![Some(Value::U8(0xBB))]);
    assert_eq!(
        rec.unknown.entries,
        vec![
            TlvEntry { type_id: 1, value: vec![0xAA] },
            TlvEntry { type_id: 9, value: vec![0xCC, 0xDD] },
        ]
    );
    assert_eq!(rec.encode(&s), data.to_vec());
}

#[test]
fn duplicate_type_in_stream_is_refused() {
    let s = schema(vec![], &[(1, ValueKind::U8, true)], true);
    let data = [0x02, 0x00, 0x01, 0x00, 0x01, 0x00, 0x07, 0x01, 0x00, 0x01, 0x00, 0x08];
    assert_eq!(Record::decode(&s, &data), Err(DecodeError::OutOfOrderTlv));
}

#[test]
fn trailing_bytes_are_refused() {
    let s = schema(vec![ValueKind::U8], &[], false);
    assert_eq!(Record::decode(&s, &[0x01, 0x00, 0x00, 0xFF]), Err(DecodeError::TrailingBytes));
    assert_eq!(TlvStream::decode(&[0x00, 0x00, 0x00]), Err(DecodeError::TrailingBytes));
}

#[test]
fn tlv_value_must_use_its_entry_whole() {
    let s = schema(vec![], &[(1, ValueKind::U8, true)], false);
    let data = [0x01, 0x00, 0x01, 0x00, 0x02, 0x00, 0x07, 0x08];
    assert_eq!(Record::decode(&s, &data), Err(DecodeError::TrailingBytes));
}

#[test]
fn truncated_input_is_unexpected_eof() {
    let s = schema(vec![ValueKind::U32], &[], false);
    assert_eq!(Record::decode(&s, &[0x01, 0x02]), Err(DecodeError::UnexpectedEof));
    // A declared length past the end of the input.
    assert_eq!(
        TlvStream::decode(&[0x01, 0x00, 0x01, 0x00, 0x05, 0x00, 0xAA]),
        Err(DecodeError::UnexpectedEof)
    );
}

#[test]
fn duplicate_schema_field_is_refused() {
    let mut s = Schema::new(vec![], false);
    s.add_tlv_field(7, ValueKind::U8, true).unwrap();
    assert_eq!(s.add_tlv_field(7, ValueKind::U16, false), Err(DecodeError::DuplicateTlvType(7)));
    assert_eq!(s.tlv.len(), 1);
}

#[test]
fn stream_round_trip_and_order() {
    let st = TlvStream {
        entries: vec![
            TlvEntry { type_id: 2, value: vec![1, 2] },
            TlvEntry { type_id: 0x100, value: vec![] },
        ],
    };
    let bytes = st.encode();
    assert_eq!(bytes, vec![0x02, 0x00, 0x02, 0x00, 0x02, 0x00, 1, 2, 0x00, 0x01, 0x00, 0x00]);
    assert_eq!(TlvStream::decode(&bytes), Ok(st));
    let reversed = [0x02, 0x00, 0x00, 0x01, 0x00, 0x00, 0x02, 0x00, 0x02, 0x00, 1, 2];
    assert_eq!(TlvStream::decode(&reversed), Err(DecodeError::OutOfOrderTlv));
}

#[test]
fn default_field_is_omitted_and_decodes_to_default() {
    let s = schema(vec![], &[(1, ValueKind::U8, true), (2, ValueKind::U8, true)], false);
    let rec = record(vec![], vec![None, Some(Value::U8(0))]);
    let bytes = rec.encode(&s);
    assert_eq!(bytes, vec![0x01, 0x00, 0x02, 0x00, 0x01, 0x00, 0x00]);
    assert_eq!(Record::decode(&s, &bytes).unwrap().tlv[0], None);
}

#[test]
fn present_default_of_required_field_is_refused() {
    let s = schema(vec![], &[(1, ValueKind::Bytes, false)], false);
    // An empty byte string is the field's default and must be left out.
    let data = [0x01, 0x00, 0x01, 0x00, 0x02, 0x00, 0x00, 0x00];
    assert_eq!(Record::decode(&s, &data), Err(DecodeError::DefaultValuePresent(1)));
    roundtrip(&s, &record(vec![], vec![None]), &[0x00, 0x00]);
}
