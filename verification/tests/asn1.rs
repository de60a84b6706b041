use der::{Decode, Encode, EncodeValue, ErrorKind, Length, Reader, SliceReader};

#[test]
fn bool_encode() {
    let mut buf = [0u8; 3];
    assert_eq!(true.encode_to_slice(&mut buf), Ok(&[0x01u8, 0x01, 0xFF][..]));
    assert_eq!(false.encode_to_slice(&mut buf), Ok(&[0x01u8, 0x01, 0x00][..]));
    assert_eq!(true.encoded_len(), Ok(Length::new(3)));
    assert_eq!(true.value_len(), Ok(Length::new(1)));
    let mut short = [0u8; 2];
    assert_eq!(
        true.encode_to_slice(&mut short).unwrap_err().kind(),
        ErrorKind::Overlength
    );
}

#[test]
fn i8_encode() {
    let mut buf = [0u8; 3];
    assert_eq!(42i8.encode_to_slice(&mut buf), Ok(&[0x02u8, 0x01, 0x2A][..]));
    assert_eq!(0i8.encode_to_slice(&mut buf), Ok(&[0x02u8, 0x01, 0x00][..]));
    assert_eq!((-1i8).encode_to_slice(&mut buf), Ok(&[0x02u8, 0x01, 0xFF][..]));
    assert_eq!(i8::MIN.encode_to_slice(&mut buf), Ok(&[0x02u8, 0x01, 0x80][..]));
    assert_eq!(i8::MAX.encode_to_slice(&mut buf), Ok(&[0x02u8, 0x01, 0x7F][..]));
}

#[test]
fn values_round_trip() {
    for value in [false, true] {
        let mut buf = [0u8; 3];
        let encoded = value.encode_to_slice(&mut buf).unwrap();
        let mut reader = SliceReader::new(encoded).unwrap();
        assert_eq!(bool::decode(&mut reader), Ok(value));
        assert!(reader.is_finished());
    }
    for value in i8::MIN..=i8::MAX {
        let mut buf = [0u8; 3];
        let encoded = value.encode_to_slice(&mut buf).unwrap();
        let mut reader = SliceReader::new(encoded).unwrap();
        assert_eq!(i8::decode(&mut reader), Ok(value));
        assert!(reader.is_finished());
    }
}
