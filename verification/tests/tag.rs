use std::cmp::Ordering;

use der::{
    Class, Decode, Encode, ErrorKind, Length, Reader, SliceReader, Tag, TagMode, TagNumber,
};

#[test]
fn tag_class() {
    assert_eq!(Tag::Boolean.class(), Class::Universal);
    assert_eq!(Tag::Integer.class(), Class::Universal);
    assert_eq!(Tag::BitString.class(), Class::Universal);
    assert_eq!(Tag::OctetString.class(), Class::Universal);
    assert_eq!(Tag::Null.class(), Class::Universal);
    assert_eq!(Tag::ObjectIdentifier.class(), Class::Universal);
    assert_eq!(Tag::Real.class(), Class::Universal);
    assert_eq!(Tag::Enumerated.class(), Class::Universal);
    assert_eq!(Tag::Utf8String.class(), Class::Universal);
    assert_eq!(Tag::SetOf.class(), Class::Universal);
    assert_eq!(Tag::NumericString.class(), Class::Universal);
    assert_eq!(Tag::PrintableString.class(), Class::Universal);
    assert_eq!(Tag::TeletexString.class(), Class::Universal);
    assert_eq!(Tag::VideotexString.class(), Class::Universal);
    assert_eq!(Tag::Ia5String.class(), Class::Universal);
    assert_eq!(Tag::UtcTime.class(), Class::Universal);
    assert_eq!(Tag::GeneralizedTime.class(), Class::Universal);
    assert_eq!(Tag::Sequence.class(), Class::Universal);

    for num in 0..=30 {
        for &constructed in &[false, true] {
            let number = TagNumber::new(num);

            assert_eq!(
                Tag::Application {
                    constructed,
                    number
                }
                .class(),
                Class::Application
            );

            assert_eq!(
                Tag::ContextSpecific {
                    constructed,
                    number
                }
                .class(),
                Class::ContextSpecific
            );

            assert_eq!(
                Tag::Private {
                    constructed,
                    number
                }
                .class(),
                Class::Private
            );
        }
    }
}

#[test]
fn peek() {
    let reader = SliceReader::new(&[0x02]).unwrap();
    assert_eq!(reader.position(), Length::zero());
    assert_eq!(Tag::peek(&reader).unwrap(), Tag::Integer);
    assert_eq!(reader.position(), Length::zero()); // Position unchanged
}

#[test]
fn decode_application() {
    const TAG_APPLICATION: [u8; 2] = [0x7F, 0x21];
    let mut reader = SliceReader::new(&TAG_APPLICATION).unwrap();
    let tag = Tag::decode(&mut reader).unwrap();

    assert_eq!(
        tag,
        Tag::Application {
            constructed: true,
            number: TagNumber(33)
        }
    );

    let mut buf = [0u8; 8];
    let encoded = tag.encode_to_slice(&mut buf).unwrap();

    assert_eq!(TAG_APPLICATION, encoded);
}

#[test]
fn decode_private_out_of_range() {
    const TAG_PRIVATE: [u8; 4] = [0xFF, 0xFF, 0xFF, 0x7f];
    let mut reader = SliceReader::new(&TAG_PRIVATE).unwrap();
    let result = Tag::decode(&mut reader);
    assert!(result.is_err());
}

#[test]
fn decode_private() {
    const TAG_PRIVATE: [u8; 4] = [0xFF, 0x83, 0xFF, 0x70];
    let mut reader = SliceReader::new(&TAG_PRIVATE).unwrap();
    let tag = Tag::decode(&mut reader).unwrap();

    assert_eq!(
        tag,
        Tag::Private {
            constructed: true,
            number: TagNumber(0xfff0)
        }
    );

    let mut buf = [0u8; 8];
    let encoded = tag.encode_to_slice(&mut buf).unwrap();

    assert_eq!(TAG_PRIVATE, encoded);
}

fn all_shapes() -> Vec<Tag> {
    let mut tags = Vec::new();
    for num in [0u16, 1, 30, 31, 127, 128, 16383, 16384, 65535] {
        for constructed in [false, true] {
            let number = TagNumber::new(num);
            tags.push(Tag::Application {
                constructed,
                number,
            });
            tags.push(Tag::ContextSpecific {
                constructed,
                number,
            });
            tags.push(Tag::Private {
                constructed,
                number,
            });
        }
    }
    tags.extend_from_slice(&[
        Tag::Boolean,
        Tag::Integer,
        Tag::BitString,
        Tag::OctetString,
        Tag::Null,
        Tag::ObjectIdentifier,
        Tag::Real,
        Tag::Enumerated,
        Tag::Utf8String,
        Tag::Sequence,
        Tag::SetOf,
        Tag::NumericString,
        Tag::PrintableString,
        Tag::TeletexString,
        Tag::VideotexString,
        Tag::Ia5String,
        Tag::UtcTime,
        Tag::GeneralizedTime,
        Tag::VisibleString,
        Tag::GeneralString,
        Tag::BmpString,
    ]);
    tags
}

fn encode_tag(tag: Tag) -> Vec<u8> {
    let mut buf = [0u8; 4];
    tag.encode_to_slice(&mut buf).unwrap().to_vec()
}

#[test]
fn tag_round_trip() {
    for tag in all_shapes() {
        let encoded = encode_tag(tag);
        let mut reader = SliceReader::new(&encoded).unwrap();
        let decoded = Tag::decode(&mut reader).unwrap();
        assert_eq!(decoded, tag);
        assert_eq!(decoded.class(), tag.class());
        assert_eq!(decoded.is_constructed(), tag.is_constructed());
        assert_eq!(decoded.number(), tag.number());
        assert!(reader.is_finished());
    }
}

#[test]
fn tag_encoded_len_is_what_is_written() {
    for tag in all_shapes() {
        let encoded = encode_tag(tag);
        assert_eq!(
            tag.encoded_len().unwrap(),
            Length::try_from(encoded.len()).unwrap()
        );
    }
}

#[test]
fn tag_width_boundary() {
    let tag = |num: u16| Tag::ContextSpecific {
        constructed: false,
        number: TagNumber::new(num),
    };
    assert_eq!(encode_tag(tag(30)), vec![0x9E]);
    assert_eq!(encode_tag(tag(31)), vec![0x9F, 0x1F]);
    assert_eq!(encode_tag(tag(127)), vec![0x9F, 0x7F]);
    assert_eq!(encode_tag(tag(128)), vec![0x9F, 0x81, 0x00]);
    assert_eq!(encode_tag(tag(16383)), vec![0x9F, 0xFF, 0x7F]);
    assert_eq!(encode_tag(tag(16384)), vec![0x9F, 0x81, 0x80, 0x00]);
    assert_eq!(encode_tag(tag(65535)), vec![0x9F, 0x83, 0xFF, 0x7F]);
    assert_eq!(der::tag::tag_length(30), Length::new(1));
    assert_eq!(der::tag::tag_length(31), Length::new(2));
    assert_eq!(der::tag::tag_length(16383), Length::new(3));
    assert_eq!(der::tag::tag_length(16384), Length::new(4));
    assert_eq!(der::tag::tag_length(65535), Length::new(4));
}

#[test]
fn tag_number_bytes_fills_the_buffer_from_its_start() {
    let mut buf = [0u8; 4];
    assert_eq!(der::tag::tag_number_bytes(0x40, 5, &mut buf), &[0x45]);
    let mut buf = [0u8; 4];
    assert_eq!(
        der::tag::tag_number_bytes(0xE0, 0xfff0, &mut buf),
        &[0xFF, 0x83, 0xFF, 0x70]
    );
}

#[test]
fn tag_number_beyond_the_largest_is_rejected() {
    // 65536 = 4 * 128 * 128
    let mut reader = SliceReader::new(&[0xBF, 0x84, 0x80, 0x00]).unwrap();
    let err = Tag::decode(&mut reader).unwrap_err();
    assert_eq!(err.kind(), ErrorKind::TagNumberInvalid);
    assert_eq!(err.position(), Some(Length::new(3)));
    assert!(reader.is_failed());
}

#[test]
fn tag_number_that_does_not_end_is_rejected() {
    let mut reader = SliceReader::new(&[0xBF, 0x81, 0x80, 0x80, 0x00]).unwrap();
    let err = Tag::decode(&mut reader).unwrap_err();
    assert_eq!(err.kind(), ErrorKind::TagNumberInvalid);
    assert_eq!(err.position(), Some(Length::new(4)));
}

#[test]
fn tag_number_truncated() {
    let mut reader = SliceReader::new(&[0xBF, 0x81]).unwrap();
    let err = Tag::decode(&mut reader).unwrap_err();
    assert_eq!(
        err.kind(),
        ErrorKind::Incomplete {
            expected_len: Length::new(3),
            actual_len: Length::new(2),
        }
    );
    assert_eq!(err.position(), Some(Length::new(2)));
}

#[test]
fn tag_unknown() {
    for byte in [0x00u8, 0x07, 0x08, 0x0B, 0x10, 0x11, 0x1F, 0x20, 0x3F] {
        let bytes = [byte];
        let mut reader = SliceReader::new(&bytes).unwrap();
        let err = Tag::decode(&mut reader).unwrap_err();
        assert_eq!(err.kind(), ErrorKind::TagUnknown { byte });
        assert_eq!(err.position(), Some(Length::new(1)));
    }
}

#[test]
fn tag_decode_on_failed_reader() {
    let mut reader = SliceReader::new(&[0x00, 0x02]).unwrap();
    assert!(Tag::decode(&mut reader).is_err());
    let err = Tag::decode(&mut reader).unwrap_err();
    assert_eq!(err.kind(), ErrorKind::Failed);
    assert_eq!(err.position(), Some(Length::new(1)));
}

#[test]
fn tag_universal_octets() {
    let table: [(u8, Tag); 21] = [
        (0x01, Tag::Boolean),
        (0x02, Tag::Integer),
        (0x03, Tag::BitString),
        (0x04, Tag::OctetString),
        (0x05, Tag::Null),
        (0x06, Tag::ObjectIdentifier),
        (0x09, Tag::Real),
        (0x0A, Tag::Enumerated),
        (0x0C, Tag::Utf8String),
        (0x12, Tag::NumericString),
        (0x13, Tag::PrintableString),
        (0x14, Tag::TeletexString),
        (0x15, Tag::VideotexString),
        (0x16, Tag::Ia5String),
        (0x17, Tag::UtcTime),
        (0x18, Tag::GeneralizedTime),
        (0x1A, Tag::VisibleString),
        (0x1B, Tag::GeneralString),
        (0x1E, Tag::BmpString),
        (0x30, Tag::Sequence),
        (0x31, Tag::SetOf),
    ];
    for (byte, tag) in table {
        let bytes = [byte];
        let mut reader = SliceReader::new(&bytes).unwrap();
        assert_eq!(Tag::decode(&mut reader), Ok(tag));
        assert_eq!(encode_tag(tag), vec![byte]);
        assert!(tag.is_universal());
        assert!(!tag.is_application());
        assert!(!tag.is_context_specific());
        assert!(!tag.is_private());
        assert_eq!(u16::from(byte & 0x1F), tag.number().value());
        assert_eq!(byte & 0x20 != 0, tag.is_constructed());
    }
}

#[test]
fn tag_class_predicates() {
    let number = TagNumber::new(3);
    let application = Tag::Application {
        constructed: false,
        number,
    };
    let context_specific = Tag::ContextSpecific {
        constructed: true,
        number,
    };
    let private = Tag::Private {
        constructed: false,
        number,
    };
    assert!(application.is_application() && !application.is_universal());
    assert!(context_specific.is_context_specific() && context_specific.is_constructed());
    assert!(private.is_private() && !private.is_constructed());
    assert_eq!(Class::Universal.bits(), 0x00);
    assert_eq!(Class::Application.bits(), 0x40);
    assert_eq!(Class::ContextSpecific.bits(), 0x80);
    assert_eq!(Class::Private.bits(), 0xC0);
    assert_eq!(TagNumber::MASK, 0x1F);
}

#[test]
fn tag_assert_eq() {
    assert_eq!(Tag::Integer.assert_eq(Tag::Integer), Ok(Tag::Integer));
    let err = Tag::Integer.assert_eq(Tag::Boolean).unwrap_err();
    assert_eq!(
        err.kind(),
        ErrorKind::TagUnexpected {
            expected: Some(Tag::Boolean),
            actual: Tag::Integer,
        }
    );
    assert_eq!(err.position(), None);
}

#[test]
fn tag_errors() {
    assert_eq!(
        Tag::BitString.length_error().kind(),
        ErrorKind::Length {
            tag: Tag::BitString
        }
    );
    assert_eq!(
        Tag::Boolean.non_canonical_error().kind(),
        ErrorKind::Noncanonical { tag: Tag::Boolean }
    );
    assert_eq!(
        Tag::Null.value_error().kind(),
        ErrorKind::Value { tag: Tag::Null }
    );
    assert_eq!(
        Tag::Null.unexpected_error(None).kind(),
        ErrorKind::TagUnexpected {
            expected: None,
            actual: Tag::Null,
        }
    );
}

#[test]
fn tag_der_cmp() {
    let context = |constructed: bool, num: u16| Tag::ContextSpecific {
        constructed,
        number: TagNumber::new(num),
    };
    // by class
    assert_eq!(
        Tag::BmpString.der_cmp(&Tag::Application {
            constructed: false,
            number: TagNumber::new(0)
        }),
        Ok(Ordering::Less)
    );
    assert_eq!(
        Tag::Private {
            constructed: false,
            number: TagNumber::new(0)
        }
        .der_cmp(&context(true, 9)),
        Ok(Ordering::Greater)
    );
    // then primitive before constructed
    assert_eq!(context(false, 9).der_cmp(&context(true, 1)), Ok(Ordering::Less));
    assert_eq!(Tag::Sequence.der_cmp(&Tag::BmpString), Ok(Ordering::Greater));
    // then by number
    assert_eq!(context(true, 1).der_cmp(&context(true, 2)), Ok(Ordering::Less));
    assert_eq!(Tag::Integer.der_cmp(&Tag::Boolean), Ok(Ordering::Greater));
    assert_eq!(Tag::SetOf.der_cmp(&Tag::SetOf), Ok(Ordering::Equal));
}

#[test]
fn peek_multi_octet_tag() {
    let bytes = [0xFF, 0x83, 0xFF, 0x70, 0x00];
    let reader = SliceReader::new(&bytes).unwrap();
    assert_eq!(
        Tag::peek(&reader),
        Ok(Tag::Private {
            constructed: true,
            number: TagNumber(0xfff0)
        })
    );
    assert_eq!(reader.position(), Length::zero());
    assert_eq!(reader.remaining_len(), Length::new(5));
}

#[test]
fn peek_nothing_ahead() {
    let reader = SliceReader::new(&[]).unwrap();
    assert_eq!(Tag::peek_optional(&reader), Ok(None));
    let err = Tag::peek(&reader).unwrap_err();
    assert_eq!(
        err.kind(),
        ErrorKind::Incomplete {
            expected_len: Length::new(1),
            actual_len: Length::new(0),
        }
    );
}

#[test]
fn peek_no_tag_ahead() {
    for bytes in [&[0x00u8][..], &[0x9F, 0x81][..], &[0x9F, 0xFF, 0xFF, 0xFF][..]] {
        let mut reader = SliceReader::new(bytes).unwrap();
        let err = Tag::peek(&reader).unwrap_err();
        assert_eq!(err.kind(), ErrorKind::TagNumberInvalid);
        assert_eq!(err.position(), Some(Length::zero()));
        assert_eq!(reader.position(), Length::zero());
        assert!(!reader.is_failed());
        assert_eq!(reader.read_byte(), Ok(bytes[0]));
    }
}

#[test]
fn peek_then_decode_agree() {
    for tag in all_shapes() {
        let encoded = encode_tag(tag);
        let mut reader = SliceReader::new(&encoded).unwrap();
        let peeked = Tag::peek(&reader).unwrap();
        assert_eq!(reader.position(), Length::zero());
        assert_eq!(Tag::decode(&mut reader), Ok(peeked));
    }
}

#[test]
fn tag_mode_default() {
    assert_eq!(TagMode::default(), TagMode::Explicit);
}
