use der::{Error, ErrorKind, Length};

#[test]
fn error_at_position() {
    let err = ErrorKind::Overflow.at(Length::new(3));
    assert_eq!(err.kind(), ErrorKind::Overflow);
    assert_eq!(err.position(), Some(Length::new(3)));
    assert_eq!(err, Error::new(ErrorKind::Overflow, Length::new(3)));
    let err = ErrorKind::Reader.to_error();
    assert_eq!(err.kind(), ErrorKind::Reader);
    assert_eq!(err.position(), None);
}

#[test]
fn error_incomplete() {
    let err = Error::incomplete(Length::new(4));
    assert_eq!(
        err.kind(),
        ErrorKind::Incomplete {
            expected_len: Length::new(5),
            actual_len: Length::new(4),
        }
    );
    assert_eq!(err.position(), Some(Length::new(4)));
    let err = Error::incomplete(Length::max());
    assert_eq!(err.kind(), ErrorKind::Overflow);
    assert_eq!(err.position(), Some(Length::max()));
}

#[test]
fn error_nested() {
    let err = ErrorKind::Incomplete {
        expected_len: Length::new(3),
        actual_len: Length::new(2),
    }
    .at(Length::new(2));
    assert_eq!(
        err.nested(Length::new(10)),
        ErrorKind::Incomplete {
            expected_len: Length::new(13),
            actual_len: Length::new(12),
        }
        .at(Length::new(12))
    );
    let err = ErrorKind::TrailingData {
        decoded: Length::new(3),
        remaining: Length::new(1),
    }
    .at(Length::new(3));
    assert_eq!(
        err.nested(Length::new(10)),
        ErrorKind::TrailingData {
            decoded: Length::new(13),
            remaining: Length::new(1),
        }
        .at(Length::new(13))
    );
    let err = ErrorKind::Overflow.to_error();
    assert_eq!(err.nested(Length::new(10)), err);
    assert_eq!(
        ErrorKind::TagNumberInvalid
            .at(Length::max())
            .nested(Length::new(10))
            .position(),
        Some(Length::max())
    );
    assert_eq!(
        ErrorKind::Overflow.nested(Length::new(1)),
        ErrorKind::Overflow
    );
}

#[test]
fn error_nested_where_the_length_is_no_length() {
    let err = ErrorKind::Incomplete {
        expected_len: Length::new(2),
        actual_len: Length::new(1),
    }
    .at(Length::new(1));
    let nested = err.nested(Length::new(u32::MAX - 1));
    assert_eq!(nested.kind(), ErrorKind::Overflow);
    assert_eq!(nested.position(), Some(Length::max()));
    let nested = err.nested(Length::new(u32::MAX - 2));
    assert_eq!(
        nested.kind(),
        ErrorKind::Incomplete {
            expected_len: Length::max(),
            actual_len: Length::new(u32::MAX - 1),
        }
    );
}
