use internet2::codec::{DecodeError, Value, ValueKind};
use internet2::record::{Record, Schema};
use internet2::registry::{DuplicateTypeError, Message, Registry};
use internet2::tlv::TlvStream;

fn registry() -> Registry {
    let mut reg = Registry::new();
    reg.register(0x0001, Schema::new(vec![ValueKind::Bytes], false)).unwrap();
    let mut keylist = Schema::new(vec![], false);
    keylist.add_tlv_field(0x10, ValueKind::U32, true).unwrap();
    reg.register(0x0103, keylist).unwrap();
    reg
}

#[test]
fn dispatch_identity() {
    let reg = registry();
    let msg = Message {
        type_id: 0x0001,
        payload: Record {
            fixed: vec![Value::Bytes(b"fail".to_vec())],
            tlv: vec![],
            unknown: TlvStream::new(),
        },
    };
    let payload = reg.encode_payload(&msg);
    assert_eq!(payload, vec![0x04, 0x00, b'f', b'a', b'i', b'l', 0x00, 0x00]);
    assert_eq!(reg.dispatch(msg.type_of(), &payload), Ok(msg.clone()));
    let frame = reg.encode_frame(&msg);
    assert_eq!(&frame[..2], &[0x01, 0x00]);
    assert_eq!(reg.decode_frame(&frame), Ok(msg));
}

#[test]
fn dispatch_unknown_type() {
    let reg = registry();
    assert_eq!(reg.dispatch(0x0005, &[]), Err(DecodeError::UnknownType(0x0005)));
}

#[test]
fn duplicate_registration_is_refused() {
    let mut reg = registry();
    assert_eq!(
        reg.register(0x0103, Schema::new(vec![], false)),
        Err(DuplicateTypeError(0x0103))
    );
}

#[test]
fn frame_too_short_is_unexpected_eof() {
    assert_eq!(registry().decode_frame(&[0x01]), Err(DecodeError::UnexpectedEof));
}
