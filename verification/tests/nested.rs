use der::{
    Decode, Error, ErrorKind, Header, Length, NestedDecoder, SliceReader, Tag, TagMode, TagNumber,
};

fn decoder(bytes: &[u8]) -> NestedDecoder<SliceReader<'_>> {
    SliceReader::new(bytes).unwrap().root_nest()
}

#[test]
fn nest_boundary() {
    let bytes = [1u8, 2, 3, 4, 5, 6];
    let reader = SliceReader::new(&bytes).unwrap();
    let mut nested = NestedDecoder::new(reader, Length::new(4)).unwrap();
    assert_eq!(nested.remaining_len(), Length::new(4));

    let err = nested.read_slice(Length::new(5)).unwrap_err();
    assert_eq!(
        err.kind(),
        ErrorKind::Incomplete {
            expected_len: Length::new(5),
            actual_len: Length::new(4),
        }
    );
    assert_eq!(err.position(), Some(Length::zero()));

    assert_eq!(nested.read_slice(Length::new(4)), Ok(&bytes[..4]));
    assert_eq!(nested.remaining_len(), Length::zero());
    assert!(nested.is_finished());

    let err = nested.read_slice(Length::new(1)).unwrap_err();
    assert_eq!(
        err.kind(),
        ErrorKind::Incomplete {
            expected_len: Length::new(5),
            actual_len: Length::new(4),
        }
    );
    assert_eq!(err.position(), Some(Length::new(4)));
    assert_eq!(nested.read_byte().unwrap_err().kind(), err.kind());
    assert_eq!(nested.finish(()), Ok(()));

    // the reader underneath has lost nothing
    let mut reader = nested.into_inner();
    assert_eq!(der::Reader::position(&reader), Length::new(4));
    assert_eq!(
        der::Reader::read_slice(&mut reader, Length::new(2)),
        Ok(&bytes[4..])
    );
}

#[test]
fn nest_longer_than_the_input() {
    let reader = SliceReader::new(&[1, 2, 3]).unwrap();
    let err = NestedDecoder::new(reader, Length::new(4)).err().unwrap();
    assert_eq!(
        err.kind(),
        ErrorKind::Incomplete {
            expected_len: Length::new(4),
            actual_len: Length::new(3),
        }
    );
    assert_eq!(err.position(), Some(Length::zero()));

    let reader = SliceReader::new(&[1, 2, 3]).unwrap();
    assert!(NestedDecoder::new(reader, Length::new(3)).is_ok());
}

#[test]
fn nest_within_nest_is_no_wider() {
    let bytes = [1u8, 2, 3, 4, 5, 6];
    let outer = NestedDecoder::new(SliceReader::new(&bytes).unwrap(), Length::new(4)).unwrap();
    let err = NestedDecoder::new(outer, Length::new(5)).err().unwrap();
    assert_eq!(
        err.kind(),
        ErrorKind::Incomplete {
            expected_len: Length::new(5),
            actual_len: Length::new(4),
        }
    );
    let outer = NestedDecoder::new(SliceReader::new(&bytes).unwrap(), Length::new(4)).unwrap();
    let mut inner = NestedDecoder::new(outer, Length::new(2)).unwrap();
    assert_eq!(inner.read_slice(Length::new(2)), Ok(&bytes[..2]));
    assert!(inner.read_byte().is_err());
    let mut outer = inner.into_inner();
    assert_eq!(outer.read_slice(Length::new(2)), Ok(&bytes[2..4]));
    assert!(outer.read_byte().is_err());
}

#[test]
fn check_out_of_bounds() {
    let bytes = [1u8, 2, 3, 4];
    let mut nested = decoder(&bytes);
    assert_eq!(nested.read_byte(), Ok(1));
    assert_eq!(nested.readable(), Length::new(1)..Length::new(4));
    assert_eq!(nested.check_out_of_bounds(Length::new(3)), Ok(Length::new(4)));
    let err = nested.check_out_of_bounds(Length::new(4)).unwrap_err();
    assert_eq!(
        err,
        ErrorKind::Incomplete {
            expected_len: Length::new(5),
            actual_len: Length::new(4),
        }
        .at(Length::new(1))
    );
    assert_eq!(
        NestedDecoder::<SliceReader<'_>>::is_out_of_bounds(
            Length::new(2)..Length::new(9),
            Length::new(7)
        ),
        Ok(Length::new(9))
    );
    let err = NestedDecoder::<SliceReader<'_>>::is_out_of_bounds(
        Length::new(2)..Length::new(9),
        Length::max(),
    )
    .unwrap_err();
    assert_eq!(err, ErrorKind::Overflow.at(Length::new(2)));
}

#[test]
fn read_nested_moves_the_boundary_in_and_back() {
    let bytes = [0x01, 0x01, 0xFF, 0x02, 0x01, 0x05, 0xAA];
    let mut outer = decoder(&bytes);
    let pair = outer.read_nested(Length::new(6), |nested| {
        assert_eq!(nested.remaining_len(), Length::new(6));
        let flag = bool::decode(nested)?;
        assert_eq!(nested.remaining_len(), Length::new(3));
        let number = i8::decode(nested)?;
        assert!(nested.is_finished());
        assert!(nested.read_byte().is_err());
        Ok((flag, number))
    });
    assert_eq!(pair, Ok((true, 5)));
    assert_eq!(outer.position(), Length::new(6));
    assert_eq!(outer.remaining_len(), Length::new(1));
    assert_eq!(outer.read_byte(), Ok(0xAA));
}

#[test]
fn read_nested_requires_the_content_to_be_read() {
    let bytes = [0x01, 0x01, 0xFF, 0x02, 0x01, 0x05, 0xAA];
    let mut outer = decoder(&bytes);
    let err = outer
        .read_nested(Length::new(6), |nested| bool::decode(nested))
        .unwrap_err();
    assert_eq!(
        err.kind(),
        ErrorKind::TrailingData {
            decoded: Length::new(3),
            remaining: Length::new(3),
        }
    );
    assert_eq!(err.position(), Some(Length::new(3)));
    assert!(outer.is_failed());
    assert_eq!(outer.read_byte().unwrap_err().kind(), ErrorKind::Failed);
}

#[test]
fn read_nested_keeps_the_body_within_the_content() {
    let bytes = [0x01, 0x01, 0xFF, 0x02, 0x01, 0x05, 0xAA];
    let mut outer = decoder(&bytes);
    let err = outer
        .read_nested(Length::new(5), |nested| {
            bool::decode(nested)?;
            i8::decode(nested)
        })
        .unwrap_err();
    assert_eq!(
        err.kind(),
        ErrorKind::Incomplete {
            expected_len: Length::new(6),
            actual_len: Length::new(5),
        }
    );
    assert_eq!(err.position(), Some(Length::new(5)));
    assert!(outer.is_failed());
}

#[test]
fn read_nested_that_does_not_fit_changes_nothing() {
    let bytes = [0x01, 0x01, 0xFF];
    let mut outer = decoder(&bytes);
    let err = outer
        .read_nested(Length::new(4), |nested| bool::decode(nested))
        .unwrap_err();
    assert_eq!(
        err.kind(),
        ErrorKind::Incomplete {
            expected_len: Length::new(4),
            actual_len: Length::new(3),
        }
    );
    assert!(!outer.is_failed());
    assert_eq!(outer.position(), Length::zero());
    assert_eq!(
        outer.read_nested(Length::new(3), |nested| bool::decode(nested)),
        Ok(true)
    );
    assert!(outer.is_finished());
}

#[test]
fn read_nested_hands_on_the_failure_of_the_body() {
    let bytes = [0x01, 0x01, 0xFF];
    let mut outer = decoder(&bytes);
    let failure = Tag::Boolean.value_error();
    let res: Result<(), Error> = outer.read_nested(Length::new(3), |_| Err(failure));
    assert_eq!(res, Err(failure));
    assert!(outer.is_failed());
}

#[test]
fn sequence_of_sequence() {
    // SEQUENCE { SEQUENCE { BOOLEAN true, INTEGER 5 }, INTEGER -1 }
    let bytes = [
        0x30, 0x0B, 0x30, 0x06, 0x01, 0x01, 0xFF, 0x02, 0x01, 0x05, 0x02, 0x01, 0xFF,
    ];
    let mut outer = decoder(&bytes);
    let value = outer.sequence(|d| {
        let inner = d.sequence(|d| {
            let flag = bool::decode(d)?;
            let number: i8 = d.decode()?;
            Ok((flag, number))
        })?;
        let last = i8::decode(d)?;
        Ok((inner, last))
    });
    assert_eq!(value, Ok(((true, 5), -1)));
    assert!(outer.is_finished());
    assert_eq!(outer.finish(()), Ok(()));
}

#[test]
fn sequence_with_another_tag() {
    let bytes = [0x31, 0x03, 0x01, 0x01, 0xFF];
    let mut outer = decoder(&bytes);
    let err = outer.sequence(|d| bool::decode(d)).unwrap_err();
    assert_eq!(
        err.kind(),
        ErrorKind::TagUnexpected {
            expected: Some(Tag::Sequence),
            actual: Tag::SetOf,
        }
    );
    assert_eq!(err.position(), Some(Length::new(2)));
    assert!(outer.is_failed());
}

#[test]
fn sequence_longer_than_the_input() {
    let bytes = [0x30, 0x04, 0x01, 0x01, 0xFF];
    let mut outer = decoder(&bytes);
    let err = outer.sequence(|d| bool::decode(d)).unwrap_err();
    assert_eq!(
        err.kind(),
        ErrorKind::Incomplete {
            expected_len: Length::new(6),
            actual_len: Length::new(5),
        }
    );
    assert_eq!(err.position(), Some(Length::new(2)));
}

#[test]
fn inner_sequence_longer_than_the_outer() {
    // the inner SEQUENCE claims four octets, the outer has three left for it
    let bytes = [0x30, 0x05, 0x30, 0x04, 0x01, 0x01, 0xFF, 0x00];
    let mut outer = decoder(&bytes);
    let err = outer
        .sequence(|d| d.sequence(|d| bool::decode(d)))
        .unwrap_err();
    assert_eq!(
        err.kind(),
        ErrorKind::Incomplete {
            expected_len: Length::new(8),
            actual_len: Length::new(7),
        }
    );
    assert_eq!(err.position(), Some(Length::new(4)));
}

#[test]
fn sequence_with_trailing_data() {
    let bytes = [0x30, 0x04, 0x01, 0x01, 0xFF, 0x00];
    let mut outer = decoder(&bytes);
    let err = outer.sequence(|d| bool::decode(d)).unwrap_err();
    assert_eq!(
        err.kind(),
        ErrorKind::TrailingData {
            decoded: Length::new(5),
            remaining: Length::new(1),
        }
    );
}

#[test]
fn peek_header_keeps_the_position() {
    let bytes = [0x30, 0x03, 0x01, 0x01, 0xFF];
    let mut outer = decoder(&bytes);
    assert_eq!(
        outer.peek_header(),
        Ok(Header::new(Tag::Sequence, Length::new(3)))
    );
    assert_eq!(outer.peek_tag(), Ok(Tag::Sequence));
    assert_eq!(outer.peek_byte(), Some(0x30));
    assert_eq!(outer.position(), Length::zero());
    assert_eq!(outer.remaining_len(), Length::new(5));
    assert_eq!(
        outer.peek_header_len(),
        Ok((Header::new(Tag::Sequence, Length::new(3)), Length::new(2)))
    );
    assert_eq!(outer.sequence(|d| bool::decode(d)), Ok(true));
}

#[test]
fn peek_header_content_must_fit() {
    let bytes = [0x30, 0x04, 0x01, 0x01, 0xFF];
    let outer = decoder(&bytes);
    let err = outer.peek_header().unwrap_err();
    assert_eq!(
        err.kind(),
        ErrorKind::Incomplete {
            expected_len: Length::new(6),
            actual_len: Length::new(5),
        }
    );
    assert_eq!(err.position(), Some(Length::zero()));
    assert_eq!(outer.position(), Length::zero());
}

#[test]
fn peek_header_nothing_ahead() {
    let mut outer = decoder(&[0x05, 0x00]);
    assert_eq!(outer.read_tlv_bytes(), Ok(&[0x05u8, 0x00][..]));
    let err = outer.peek_header().unwrap_err();
    assert_eq!(
        err.kind(),
        ErrorKind::Incomplete {
            expected_len: Length::new(3),
            actual_len: Length::new(2),
        }
    );
    assert_eq!(err.position(), Some(Length::new(2)));
    assert_eq!(
        outer.peek_tag().unwrap_err().kind(),
        ErrorKind::Incomplete {
            expected_len: Length::new(3),
            actual_len: Length::new(2),
        }
    );
}

#[test]
fn peek_does_not_look_behind_the_boundary() {
    let bytes = [0x01, 0x01, 0xFF, 0x02, 0x01, 0x05];
    let mut outer = decoder(&bytes);
    let res = outer.read_nested(Length::new(3), |nested| {
        assert_eq!(nested.peek_bytes(), &[0x01, 0x01, 0xFF]);
        let flag = bool::decode(nested)?;
        assert_eq!(nested.peek_byte(), None);
        assert_eq!(nested.peek_bytes(), &[] as &[u8]);
        assert!(nested.peek_header().is_err());
        assert!(nested.peek_tag().is_err());
        Ok(flag)
    });
    assert_eq!(res, Ok(true));
    assert_eq!(outer.peek_byte(), Some(0x02));
}

#[test]
fn peek_widest_header() {
    // a header of nine octets, which announces more content than there is
    let bytes = [0xFF, 0x83, 0xFF, 0x7F, 0x84, 0x01, 0x00, 0x00, 0x00, 0xAA];
    let outer = decoder(&bytes);
    let err = outer.peek_header().unwrap_err();
    assert_eq!(
        err.kind(),
        ErrorKind::Incomplete {
            expected_len: Length::new(9 + 0x100_0000),
            actual_len: Length::new(10),
        }
    );
    // the same header, with a length that is not minimal
    let bytes = [0xFF, 0x83, 0xFF, 0x7F, 0x84, 0x00, 0x00, 0x00, 0x01, 0xAA];
    let outer = decoder(&bytes);
    let err = outer.peek_header().unwrap_err();
    assert_eq!(
        err.kind(),
        ErrorKind::Noncanonical {
            tag: Tag::Private {
                constructed: true,
                number: TagNumber::new(65535)
            }
        }
    );
    assert_eq!(err.position(), Some(Length::new(9)));
}

#[test]
fn read_tlv_bytes() {
    let bytes = [0x30, 0x03, 0x01, 0x01, 0xFF, 0x02, 0x01, 0x05];
    let mut outer = decoder(&bytes);
    assert_eq!(outer.read_tlv_bytes(), Ok(&bytes[..5]));
    assert_eq!(outer.position(), Length::new(5));
    assert_eq!(outer.read_tlv_bytes(), Ok(&bytes[5..]));
    assert!(outer.is_finished());
}

#[test]
fn read_tlv_bytes_with_a_tag_number_in_more_octets_than_it_needs() {
    // [5] written in two octets
    let bytes = [0x9F, 0x05, 0x01, 0xAA, 0xBB];
    let mut outer = decoder(&bytes);
    assert_eq!(outer.read_tlv_bytes(), Ok(&bytes[..4]));
    assert_eq!(outer.read_byte(), Ok(0xBB));
}

#[test]
fn read_tlv_bytes_truncated() {
    let bytes = [0x30, 0x03, 0x01, 0x01];
    let mut outer = decoder(&bytes);
    let err = outer.read_tlv_bytes().unwrap_err();
    assert_eq!(
        err.kind(),
        ErrorKind::Incomplete {
            expected_len: Length::new(5),
            actual_len: Length::new(4),
        }
    );
    assert_eq!(outer.position(), Length::zero());
    assert!(!outer.is_failed());
}

#[test]
fn read_vec_and_read_into() {
    let bytes = [1u8, 2, 3, 4, 5];
    let mut outer = decoder(&bytes);
    assert_eq!(outer.read_vec(Length::new(2)), Ok(vec![1, 2]));
    let mut buf = [0u8; 2];
    assert_eq!(outer.read_into(&mut buf), Ok(&[3u8, 4][..]));
    let mut buf = [0u8; 2];
    assert!(outer.read_into(&mut buf).is_err());
    assert!(outer.read_vec(Length::new(2)).is_err());
    assert_eq!(outer.read_vec(Length::new(1)), Ok(vec![5]));
}

#[test]
fn context_specific_explicit() {
    // [1] EXPLICIT INTEGER 5
    let bytes = [0xA1, 0x03, 0x02, 0x01, 0x05];
    let mut outer = decoder(&bytes);
    assert_eq!(
        outer.context_specific::<i8>(TagNumber::new(1), TagMode::Explicit),
        Ok(Some(5))
    );
    assert!(outer.is_finished());
}

#[test]
fn context_specific_implicit() {
    // [1] IMPLICIT INTEGER 5
    let bytes = [0x81, 0x01, 0x05];
    let mut outer = decoder(&bytes);
    assert_eq!(
        outer.context_specific::<i8>(TagNumber::new(1), TagMode::Implicit),
        Ok(Some(5))
    );
    assert!(outer.is_finished());
}

#[test]
fn context_specific_absent() {
    // another number, another class, nothing at all
    for bytes in [&[0xA2u8, 0x03, 0x02, 0x01, 0x05][..], &[0x02, 0x01, 0x05][..], &[][..]] {
        let mut outer = decoder(bytes);
        assert_eq!(
            outer.context_specific::<i8>(TagNumber::new(1), TagMode::Explicit),
            Ok(None)
        );
        assert_eq!(
            outer.context_specific::<i8>(TagNumber::new(1), TagMode::Implicit),
            Ok(None)
        );
        assert_eq!(outer.position(), Length::zero());
        assert!(!outer.is_failed());
    }
}

#[test]
fn context_specific_optional_field_in_sequence() {
    // SEQUENCE { [0] EXPLICIT INTEGER OPTIONAL, BOOLEAN }
    let with = [0x30, 0x08, 0xA0, 0x03, 0x02, 0x01, 0x07, 0x01, 0x01, 0xFF];
    let without = [0x30, 0x03, 0x01, 0x01, 0x00];
    let decode = |bytes: &[u8]| {
        decoder(bytes).sequence(|d| {
            let number = d.context_specific::<i8>(TagNumber::new(0), TagMode::Explicit)?;
            let flag = bool::decode(d)?;
            Ok((number, flag))
        })
    };
    assert_eq!(decode(&with), Ok((Some(7), true)));
    assert_eq!(decode(&without), Ok((None, false)));
}

#[test]
fn context_specific_explicit_must_be_constructed() {
    let bytes = [0x81, 0x03, 0x02, 0x01, 0x05];
    let mut outer = decoder(&bytes);
    let err = outer
        .context_specific::<i8>(TagNumber::new(1), TagMode::Explicit)
        .unwrap_err();
    assert_eq!(
        err.kind(),
        ErrorKind::TagUnexpected {
            expected: None,
            actual: Tag::ContextSpecific {
                constructed: false,
                number: TagNumber::new(1)
            },
        }
    );
}

#[test]
fn context_specific_implicit_form_must_agree() {
    let bytes = [0xA1, 0x01, 0x05];
    let mut outer = decoder(&bytes);
    let err = outer
        .context_specific::<i8>(TagNumber::new(1), TagMode::Implicit)
        .unwrap_err();
    assert_eq!(
        err.kind(),
        ErrorKind::Noncanonical {
            tag: Tag::ContextSpecific {
                constructed: true,
                number: TagNumber::new(1)
            },
        }
    );
}

#[test]
fn context_specific_content_must_be_read_to_its_end() {
    let bytes = [0xA1, 0x04, 0x02, 0x01, 0x05, 0x00];
    let mut outer = decoder(&bytes);
    let err = outer
        .context_specific::<i8>(TagNumber::new(1), TagMode::Explicit)
        .unwrap_err();
    assert_eq!(
        err.kind(),
        ErrorKind::TrailingData {
            decoded: Length::new(5),
            remaining: Length::new(1),
        }
    );
}

#[test]
fn decoder_error_and_finish() {
    let bytes = [1u8, 2];
    let mut outer = decoder(&bytes);
    assert_eq!(
        outer.finish(()).unwrap_err().kind(),
        ErrorKind::TrailingData {
            decoded: Length::zero(),
            remaining: Length::new(2),
        }
    );
    let err = outer.error(ErrorKind::Value { tag: Tag::Null });
    assert_eq!(err.position(), Some(Length::zero()));
    assert!(outer.is_failed());
    assert_eq!(outer.finish(()).unwrap_err().kind(), ErrorKind::Failed);
    assert_eq!(outer.peek_header().unwrap_err().kind(), ErrorKind::Failed);
}

#[test]
fn root_of_nested_decoders() {
    let bytes = [1u8, 2, 3];
    let mut reader = SliceReader::new(&bytes).unwrap();
    assert_eq!(der::Reader::read_byte(&mut reader), Ok(1));
    let mut outer = NestedDecoder::root(reader);
    assert_eq!(outer.position(), Length::new(1));
    assert_eq!(outer.remaining_len(), Length::new(2));
    assert_eq!(der::Reader::input_len(&outer), Length::new(3));
    assert_eq!(outer.read_slice(Length::new(2)), Ok(&bytes[1..]));
}

/// `depth` elements that hold one another, and in the innermost a `BOOLEAN`.
fn nested_elements(depth: usize) -> Vec<u8> {
    let mut bytes = vec![0x01, 0x01, 0xFF];
    for _ in 0..depth {
        let len = bytes.len();
        let mut outer = vec![0x30];
        if len < 0x80 {
            outer.push(len as u8);
        } else if len < 0x100 {
            outer.extend_from_slice(&[0x81, len as u8]);
        } else {
            outer.extend_from_slice(&[0x82, (len >> 8) as u8, len as u8]);
        }
        outer.extend_from_slice(&bytes);
        bytes = outer;
    }
    bytes
}

fn decode_nested(d: &mut NestedDecoder<SliceReader<'_>>, depth: usize) -> Result<bool, Error> {
    if depth == 0 {
        // the content of a value is a nested element too
        d.read_nested(Length::zero(), |_| Ok(()))?;
        let header = Header::decode(d)?;
        d.read_nested(header.length, |d| Ok(d.read_byte()? == 0xFF))
    } else {
        d.sequence(|d| decode_nested(d, depth - 1))
    }
}

#[test]
fn nesting_depth() {
    assert_eq!(der::reader::MAX_DEPTH, 64);
    // just within the limit: the 64th element is the content of the value
    let bytes = nested_elements(63);
    assert_eq!(decode_nested(&mut decoder(&bytes), 63), Ok(true));
    // just over it
    let bytes = nested_elements(64);
    let mut outer = decoder(&bytes);
    let err = decode_nested(&mut outer, 64).unwrap_err();
    assert_eq!(err.kind(), ErrorKind::NestingDepth);
    assert!(outer.is_failed());
}

#[test]
fn nesting_depth_of_typed_values() {
    fn decode(reader: &mut SliceReader<'_>, depth: usize) -> Result<bool, Error> {
        if depth == 0 {
            bool::decode(reader)
        } else {
            let header = Header::decode(reader)?;
            der::Reader::read_nested(reader, header.length, |r| decode(r, depth - 1))
        }
    }
    let bytes = nested_elements(63);
    let mut reader = SliceReader::new(&bytes).unwrap();
    assert_eq!(decode(&mut reader, 63), Ok(true));
    assert!(der::Reader::is_finished(&reader));

    let bytes = nested_elements(64);
    let mut reader = SliceReader::new(&bytes).unwrap();
    let err = decode(&mut reader, 64).unwrap_err();
    assert_eq!(err.kind(), ErrorKind::NestingDepth);
    // at the position of the content that would have been the 65th element
    assert_eq!(
        err.position(),
        Some(Length::try_from(bytes.len() - 1).unwrap())
    );
}

#[test]
fn peek_header_errors_hold_the_position_in_the_input() {
    // behind a NULL: a SEQUENCE whose length breaks off
    let bytes = [0x05, 0x00, 0x30, 0x82, 0x01];
    let mut outer = decoder(&bytes);
    outer.read_tlv_bytes().unwrap();
    let err = outer.peek_header().unwrap_err();
    assert_eq!(
        err.kind(),
        ErrorKind::Incomplete {
            expected_len: Length::new(6),
            actual_len: Length::new(5),
        }
    );
    assert_eq!(err.position(), Some(Length::new(5)));
    // decoding fails in the same way
    let decoded = Header::decode(&mut outer).unwrap_err();
    assert_eq!(decoded, err);

    // behind a NULL: an octet that starts no tag
    let bytes = [0x05, 0x00, 0x00];
    let mut outer = decoder(&bytes);
    outer.read_tlv_bytes().unwrap();
    let err = outer.peek_header().unwrap_err();
    assert_eq!(err.kind(), ErrorKind::TagUnknown { byte: 0x00 });
    assert_eq!(err.position(), Some(Length::new(3)));
    assert_eq!(Header::decode(&mut outer).unwrap_err(), err);
}

#[test]
fn decoder_checks_its_boundary_first() {
    let bytes = [1u8, 2, 3, 4, 5, 6];
    let reader = SliceReader::new(&bytes).unwrap();
    let mut nested = NestedDecoder::new(reader, Length::new(4)).unwrap();
    // a read that does not fit the nest leaves the decoder as it was
    assert!(nested.read_slice(Length::new(5)).is_err());
    assert!(!nested.is_failed());
    let mut buf = [0u8; 5];
    let err = nested.read_into(&mut buf).unwrap_err();
    assert_eq!(
        err.kind(),
        ErrorKind::Incomplete {
            expected_len: Length::new(5),
            actual_len: Length::new(4),
        }
    );
    assert_eq!(err.position(), Some(Length::zero()));
    assert_eq!(buf, [0; 5]);
    assert!(!nested.is_failed());
    assert_eq!(nested.position(), Length::zero());
    assert!(nested.read_vec(Length::new(5)).is_err());
    assert!(nested
        .read_nested(Length::new(5), |d| d.read_byte())
        .is_err());
    assert!(!nested.is_failed());
    assert_eq!(nested.read_slice(Length::new(1)), Ok(&bytes[..1]));

    // on a decoder that is marked as failed, the boundary is still looked
    // at first
    nested.error(ErrorKind::Value { tag: Tag::Null });
    assert!(nested.is_failed());
    let err = nested.read_slice(Length::new(4)).unwrap_err();
    assert_eq!(
        err.kind(),
        ErrorKind::Incomplete {
            expected_len: Length::new(5),
            actual_len: Length::new(4),
        }
    );
    assert_eq!(err.position(), Some(Length::new(1)));
    let mut buf = [0u8; 4];
    assert_eq!(nested.read_into(&mut buf).unwrap_err(), err);
    // and what would fit fails because of the mark
    let err = nested.read_slice(Length::new(3)).unwrap_err();
    assert_eq!(err, ErrorKind::Failed.at(Length::new(1)));
    assert_eq!(nested.read_byte(), Err(err));
    assert_eq!(nested.read_slice(Length::zero()), Err(err));
    assert!(nested.is_failed());
    // the reader underneath is marked too
    assert!(der::Reader::is_failed(&nested.into_inner()));
}

#[test]
fn truncated_field_within_a_nest() {
    // the scope is one octet shorter than the field announces
    let bytes = [0x04, 0x05, 0x01, 0x02, 0x03, 0x04, 0xFF];
    let reader = SliceReader::new(&bytes).unwrap();
    let mut nested = NestedDecoder::new(reader, Length::new(6)).unwrap();
    let header = Header::decode(&mut nested).unwrap();
    let mut out = [0xAAu8; 5];
    assert_eq!(out.len(), header.length.to_usize());
    let err = nested.read_into(&mut out).unwrap_err();
    assert_eq!(
        err.kind(),
        ErrorKind::Incomplete {
            expected_len: Length::new(7),
            actual_len: Length::new(6),
        }
    );
    assert_eq!(err.position(), Some(Length::new(2)));
    assert_eq!(nested.position(), Length::new(2));
    assert_eq!(out, [0xAA; 5]);
}

#[test]
fn peek_agrees_with_decode() {
    let bytes = [0x02, 0x01, 0x2A];
    let mut outer = decoder(&bytes);
    let tag = outer.peek_tag().unwrap();
    let header = outer.peek_header().unwrap();
    assert_eq!(tag, Tag::Integer);
    assert_eq!(header, Header::new(Tag::Integer, Length::new(1)));
    assert_eq!(outer.position(), Length::zero());
    assert_eq!(outer.remaining_len(), Length::new(3));
    assert_eq!(Header::decode(&mut outer), Ok(header));
    assert_eq!(outer.position(), Length::new(2));

    let mut outer = decoder(&bytes);
    assert_eq!(Tag::decode(&mut outer), Ok(tag));
}
