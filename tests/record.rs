use smartcontract_template::processor::ProcessError;
use smartcontract_template::record::AccountData;

#[test]
fn record_encodes_little_endian() {
    let rec = AccountData { result_bits: 2.0f32.to_bits() };
    assert_eq!(rec.to_bytes(), vec![0x00, 0x00, 0x00, 0x40]);
    let rec = AccountData { result_bits: 0x1234_5678 };
    assert_eq!(rec.to_bytes(), vec![0x78, 0x56, 0x34, 0x12]);
}

#[test]
fn record_round_trip() {
    for v in [0.0f32, -0.0, 1.0, 2.5, 1030.0, -3.75, f32::MAX, f32::MIN_POSITIVE, f32::INFINITY, f32::NEG_INFINITY] {
        let rec = AccountData { result_bits: v.to_bits() };
        let back = AccountData::try_from_slice(&rec.to_bytes()).unwrap();
        assert_eq!(back, rec);
        assert_eq!(f32::from_bits(back.result_bits).to_bits(), v.to_bits());
    }
}

#[test]
fn record_decoding_refuses_wrong_length_and_nan() {
    assert_eq!(AccountData::try_from_slice(&[0, 0, 0]), Err(ProcessError::MalformedAccountData));
    assert_eq!(AccountData::try_from_slice(&[0, 0, 0, 0, 0]), Err(ProcessError::MalformedAccountData));
    assert_eq!(AccountData::try_from_slice(&[0x01, 0x00, 0xc0, 0x7f]), Err(ProcessError::MalformedAccountData));
    assert_eq!(AccountData::try_from_slice(&[0x00, 0x00, 0x80, 0xff]), Ok(AccountData { result_bits: 0xff80_0000 }));
}

#[test]
fn nan_patterns() {
    assert!(AccountData::is_nan(f32::NAN.to_bits()));
    assert!(AccountData::is_nan(0xffff_ffff));
    assert!(AccountData::is_nan(0x7f80_0001));
    assert!(!AccountData::is_nan(0x7f80_0000));
    assert!(!AccountData::is_nan(0));
}

#[test]
fn serialize_overwrites_the_front_only() {
    let rec = AccountData { result_bits: 0x0403_0201 };
    let mut buf = vec![9u8; 6];
    assert_eq!(rec.serialize(&mut buf), Ok(()));
    assert_eq!(buf, vec![1, 2, 3, 4, 9, 9]);
    let mut short = vec![9u8; 3];
    assert_eq!(rec.serialize(&mut short), Err(ProcessError::MalformedAccountData));
    assert_eq!(short, vec![9u8; 3]);
    let nan = AccountData { result_bits: f32::NAN.to_bits() };
    let mut buf = vec![0u8; 4];
    assert_eq!(nan.serialize(&mut buf), Err(ProcessError::NotANumber));
    assert_eq!(buf, vec![0u8; 4]);
}
