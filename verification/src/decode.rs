//! Decoding of typed values.

use crate::error::{Error, ErrorKind};
use crate::header::Header;
use crate::length::Length;
use crate::reader::{Cursor, Reader, Step};
use crate::tag::FixedTag;
use vstd::prelude::*;

verus! {

/// Types that can be decoded from their encoding: the whole of it, tag and
/// length included.
pub trait Decode<'a>: Sized {
    /// What decoding from the given cursor returns, and the cursor that it
    /// leaves behind.
    spec fn decode_spec(c: Cursor) -> Step<Self>;

    /// Decode a value from the reader.
    ///
    /// On success the reader stands behind the encoding of the value.
    fn decode<R: Reader<'a>>(reader: &mut R) -> (res: Result<Self, Error>)
        requires
            old(reader).inv(),
        ensures
            final(reader).inv(),
            old(reader)@.reaches(final(reader)@),
            res is Ok ==> old(reader)@.leads_to(final(reader)@),
            res == Self::decode_spec(old(reader)@).result,
            final(reader)@ == Self::decode_spec(old(reader)@).cursor,
    ;
}

/// Types that can be decoded from their content, once the header has been
/// read.
pub trait DecodeValue<'a>: Sized {
    /// What decoding the content that `header` announces returns, from the
    /// given cursor, and the cursor that it leaves behind.
    spec fn decode_value_spec(c: Cursor, header: Header) -> Step<Self>;

    /// Decode the content of a value from the reader, which stands behind
    /// `header`.
    fn decode_value<R: Reader<'a>>(reader: &mut R, header: Header) -> (res: Result<Self, Error>)
        requires
            old(reader).inv(),
        ensures
            final(reader).inv(),
            old(reader)@.reaches(final(reader)@),
            res is Ok ==> old(reader)@.leads_to(final(reader)@),
            res == Self::decode_value_spec(old(reader)@, header).result,
            final(reader)@ == Self::decode_value_spec(old(reader)@, header).cursor,
    ;
}

impl<'a, T: DecodeValue<'a> + FixedTag> Decode<'a> for T {
    /// Decoding a value of a type with a fixed tag: the header is read and
    /// must have that tag, else the error is `TagUnexpected`; then the
    /// content is decoded as a nested element of the length that the
    /// header gives.
    open spec fn decode_spec(c: Cursor) -> Step<T> {
        let header = Header::decode_spec(c);
        match header.result {
            Err(err) => Step { result: Err(err), cursor: header.cursor },
            Ok(h) => if h.tag != T::spec_fixed_tag() {
                Step {
                    result: Err(
                        header.cursor.error(
                            ErrorKind::TagUnexpected {
                                expected: Some(T::spec_fixed_tag()),
                                actual: h.tag,
                            },
                        ),
                    ),
                    cursor: header.cursor.fail(),
                }
            } else {
                match header.cursor.nest_error(h.length@) {
                    Some(err) => Step { result: Err(err), cursor: header.cursor.after_error() },
                    None => {
                        let body = T::decode_value_spec(header.cursor.nest(h.length@), h);
                        body.cursor.close_nest(body.result, header.cursor.end)
                    },
                }
            },
        }
    }

    fn decode<R: Reader<'a>>(reader: &mut R) -> (res: Result<T, Error>) {
        let header = Header::decode(reader)?;
        let expected = T::fixed_tag();
        if header.tag != expected {
            return Err(
                reader.error(ErrorKind::TagUnexpected { expected: Some(expected), actual: header.tag }),
            );
        }
        let body = |d: &mut R| -> (r: Result<T, Error>)
            requires
                old(d).inv(),
            ensures
                final(d).inv(),
                old(d)@.reaches(final(d)@),
                r is Ok ==> old(d)@.leads_to(final(d)@),
                r == T::decode_value_spec(old(d)@, header).result,
                final(d)@ == T::decode_value_spec(old(d)@, header).cursor,
        {
            T::decode_value(d, header)
        };
        reader.read_nested(header.length, body)
    }
}

/// The error of decoding from an input of no octets: `Incomplete`, at
/// position zero, with one octet expected and none there.
pub open spec fn empty_input_error() -> Error {
    (ErrorKind::Incomplete { expected_len: Length::of(1), actual_len: Length::of(0) }).spec_at(
        Length::of(0),
    )
}

/// Decoding a header from an input of no octets fails with
/// `empty_input_error`.
pub proof fn lemma_empty_input_header()
    ensures
        Header::decode_spec(Cursor::over(Seq::empty())).result == Err::<Header, Error>(
            empty_input_error(),
        ),
{
}

/// Decoding a value of any type with a fixed tag from an input of no octets
/// fails with `empty_input_error`.
pub proof fn lemma_empty_input<'a, T: DecodeValue<'a> + FixedTag>()
    ensures
        <T as Decode<'a>>::decode_spec(Cursor::over(Seq::empty())).result == Err::<T, Error>(
            empty_input_error(),
        ),
{
    lemma_empty_input_header();
}

} // verus!
