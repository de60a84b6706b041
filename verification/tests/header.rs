use der::{Decode, Encode, ErrorKind, Header, Length, Reader, SliceReader, Tag, TagNumber};

#[test]
fn header_decode() {
    let mut reader = SliceReader::new(&[0x30, 0x82, 0x01, 0x00, 0xAA]).unwrap();
    let header = Header::decode(&mut reader).unwrap();
    assert_eq!(header, Header::new(Tag::Sequence, Length::new(0x100)));
    assert_eq!(header.tag, Tag::Sequence);
    assert_eq!(header.length, Length::new(0x100));
    assert_eq!(reader.position(), Length::new(4));
}

#[test]
fn header_round_trip() {
    let headers = [
        Header::new(Tag::Integer, Length::new(1)),
        Header::new(Tag::Sequence, Length::new(0x7F)),
        Header::new(Tag::OctetString, Length::new(0x80)),
        Header::new(
            Tag::ContextSpecific {
                constructed: true,
                number: TagNumber::new(31),
            },
            Length::new(0x1_0000),
        ),
        Header::new(
            Tag::Private {
                constructed: false,
                number: TagNumber::new(65535),
            },
            Length::max(),
        ),
    ];
    for header in headers {
        let mut buf = [0u8; 9];
        let encoded = header.encode_to_slice(&mut buf).unwrap();
        assert_eq!(
            header.encoded_len().unwrap(),
            Length::try_from(encoded.len()).unwrap()
        );
        let mut reader = SliceReader::new(encoded).unwrap();
        assert_eq!(Header::decode(&mut reader), Ok(header));
        assert!(reader.is_finished());
    }
}

#[test]
fn header_widest() {
    let header = Header::new(
        Tag::Private {
            constructed: true,
            number: TagNumber::new(65535),
        },
        Length::max(),
    );
    let mut buf = [0u8; 9];
    assert_eq!(
        header.encode_to_slice(&mut buf).unwrap(),
        &[0xFF, 0x83, 0xFF, 0x7F, 0x84, 0xFF, 0xFF, 0xFF, 0xFF]
    );
    let mut short = [0u8; 8];
    let err = header.encode_to_slice(&mut short).unwrap_err();
    assert_eq!(err.kind(), ErrorKind::Overlength);
}

#[test]
fn header_length_errors_name_the_tag() {
    let mut reader = SliceReader::new(&[0x04, 0x85, 0x01, 0x00, 0x00, 0x00, 0x00]).unwrap();
    let err = Header::decode(&mut reader).unwrap_err();
    assert_eq!(
        err.kind(),
        ErrorKind::Length {
            tag: Tag::OctetString
        }
    );
    assert_eq!(err.position(), Some(Length::new(2)));

    let mut reader = SliceReader::new(&[0x04, 0x81, 0x05]).unwrap();
    let err = Header::decode(&mut reader).unwrap_err();
    assert_eq!(
        err.kind(),
        ErrorKind::Noncanonical {
            tag: Tag::OctetString
        }
    );
    assert_eq!(err.position(), Some(Length::new(3)));
    assert!(reader.is_failed());
}

#[test]
fn header_indefinite_length_is_rejected() {
    let mut reader = SliceReader::new(&[0x30, 0x80, 0x00, 0x00]).unwrap();
    let err = Header::decode(&mut reader).unwrap_err();
    assert_eq!(err.kind(), ErrorKind::IndefiniteLength);
    assert_eq!(err.position(), Some(Length::new(2)));
}

#[test]
fn header_without_length() {
    let mut reader = SliceReader::new(&[0x30]).unwrap();
    let err = Header::decode(&mut reader).unwrap_err();
    assert_eq!(
        err.kind(),
        ErrorKind::Incomplete {
            expected_len: Length::new(2),
            actual_len: Length::new(1),
        }
    );
    assert_eq!(err.position(), Some(Length::new(1)));
}
