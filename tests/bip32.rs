use internet2::codec::DecodeError;
use internet2::bip32::{
    DerivationPathMaster, DerivationRange, DerivationStep, DerivationTemplate, HardenedIndex,
    IndexOverflowError, UnhardenedIndex, HARDENED_INDEX_BOUNDARY,
};

#[test]
fn unhardened_index_bounds() {
    assert_eq!(UnhardenedIndex::zero().into_u32(), 0);
    assert_eq!(UnhardenedIndex::one().into_u32(), 1);
    assert_eq!(UnhardenedIndex::zero().try_decrement(), Err(IndexOverflowError));
    assert_eq!(UnhardenedIndex::one().try_increment().unwrap().into_u32(), 2);
    let last = UnhardenedIndex::try_from_u32(HARDENED_INDEX_BOUNDARY - 1).unwrap();
    assert_eq!(last.try_increment(), Err(IndexOverflowError));
    assert_eq!(UnhardenedIndex::try_from_u32(HARDENED_INDEX_BOUNDARY), Err(IndexOverflowError));
}

#[test]
fn hardened_index_bounds() {
    assert_eq!(HardenedIndex::zero().into_u32(), 0x8000_0000);
    assert_eq!(HardenedIndex::one().into_ordinal(), 1);
    assert_eq!(HardenedIndex::from_ordinal(5).into_u32(), 0x8000_0005);
    assert_eq!(HardenedIndex::from_ordinal(0x8000_0005).into_ordinal(), 5);
    assert_eq!(HardenedIndex::zero().try_decrement(), Err(IndexOverflowError));
    assert_eq!(HardenedIndex::one().try_decrement().unwrap(), HardenedIndex::zero());
    let last = HardenedIndex::from_ordinal(u32::MAX);
    assert_eq!(last.try_increment(), Err(IndexOverflowError));
}

#[test]
fn hardened_normal_split() {
    let t = DerivationTemplate(vec![
        DerivationStep::Hardened(84),
        DerivationStep::Normal(1),
        DerivationStep::WildcardHardened,
        DerivationStep::Normal(0),
        DerivationStep::Normal(7),
    ]);
    let (branch, terminal) = t.hardened_normal_split();
    assert_eq!(branch.0, t.0[..3].to_vec());
    assert_eq!(terminal, vec![0, 7]);
    assert!(DerivationTemplate::master().is_master());
    assert!(!t.is_master());
}

#[test]
fn derivation_range() {
    let r = DerivationRange(5, 9);
    assert_eq!(r.count(), 5);
    assert_eq!((r.start(), r.end()), (5, 9));
    assert!(DerivationRange(1, 9) < DerivationRange(2, 3));
    assert!(DerivationStep::Normal(9) < DerivationStep::Hardened(0));
}

#[test]
fn derivation_range_strict_encoding() {
    let r = DerivationRange(1, 0x0102_0304);
    let bytes = r.strict_encode();
    assert_eq!(bytes, vec![1, 0, 0, 0, 4, 3, 2, 1]);
    assert_eq!(DerivationRange::strict_decode(&bytes), Ok(r));
    assert_eq!(DerivationRange::strict_decode(&bytes[..7]), Err(DecodeError::UnexpectedEof));
    let mut longer = bytes.clone();
    longer.push(0);
    assert_eq!(DerivationRange::strict_decode(&longer), Err(DecodeError::TrailingBytes));
}

#[test]
fn derivation_range_read_at_position() {
    let data = [0xFF, 9, 0, 0, 0, 2, 0, 0, 0, 0xEE];
    // A range with start above end is read as it is.
    assert_eq!(DerivationRange::decode_at(&data, 1), Ok((DerivationRange(9, 2), 9)));
    assert_eq!(DerivationRange::decode_at(&data, 3), Err(DecodeError::UnexpectedEof));
}

#[test]
fn index_conversions_from_wider_integers() {
    assert_eq!(UnhardenedIndex::try_from_u64(7).unwrap().into_u32(), 7);
    assert_eq!(UnhardenedIndex::try_from_u64(1 << 31), Err(IndexOverflowError));
    assert_eq!(UnhardenedIndex::try_from_u64(1 << 40), Err(IndexOverflowError));
    assert_eq!(UnhardenedIndex::try_from_usize(3).unwrap().into_u32(), 3);
    assert_eq!(HardenedIndex::try_from_u64(5).unwrap().into_u32(), 0x8000_0005);
    assert_eq!(HardenedIndex::try_from_u64(1 << 32), Err(IndexOverflowError));
    assert_eq!(HardenedIndex::try_from_usize(0x8000_0001).unwrap().into_ordinal(), 1);
}
