//! Values of the built-in types.

use crate::decode::DecodeValue;
use crate::encode::{Encode, EncodeValue};
use crate::error::{Error, ErrorKind};
use crate::header::Header;
use crate::length::Length;
use crate::reader::{Cursor, Reader, Step};
use crate::tag::{FixedTag, Tag};
use crate::writer::{Sink, Writer, Written};
use vstd::prelude::*;

verus! {

/// The octet that encodes `false`.
pub const FALSE_OCTET: u8 = 0x00;

/// The octet that encodes `true`.
pub const TRUE_OCTET: u8 = 0xFF;

impl FixedTag for bool {
    open spec fn spec_fixed_tag() -> Tag {
        Tag::Boolean
    }

    fn fixed_tag() -> (tag: Tag) {
        Tag::Boolean
    }
}

impl<'a> DecodeValue<'a> for bool {
    /// Decoding a `BOOLEAN`: the content is one octet, else the error is
    /// `Length`; the octet is `FALSE_OCTET` or `TRUE_OCTET`, else the error
    /// is `Noncanonical`.
    open spec fn decode_value_spec(c: Cursor, header: Header) -> Step<bool> {
        if c.failed {
            Step { result: Err(c.error(ErrorKind::Failed)), cursor: c }
        } else if header.length@ != 1 {
            Step {
                result: Err(c.error(ErrorKind::Length { tag: Tag::Boolean })),
                cursor: c.fail(),
            }
        } else {
            let octet = c.read_byte();
            match octet.result {
                Err(err) => Step { result: Err(err), cursor: octet.cursor },
                Ok(byte) => if byte == FALSE_OCTET {
                    Step { result: Ok(false), cursor: octet.cursor }
                } else if byte == TRUE_OCTET {
                    Step { result: Ok(true), cursor: octet.cursor }
                } else {
                    Step {
                        result: Err(octet.cursor.error(ErrorKind::Noncanonical { tag: Tag::Boolean })),
                        cursor: octet.cursor.fail(),
                    }
                },
            }
        }
    }

    fn decode_value<R: Reader<'a>>(reader: &mut R, header: Header) -> (res: Result<bool, Error>) {
        proof {
            reader.lemma_inv();
        }
        if reader.is_failed() {
            return Err(reader.error(ErrorKind::Failed));
        }
        if header.length.value() != 1 {
            return Err(reader.error(ErrorKind::Length { tag: Tag::Boolean }));
        }
        let byte = reader.read_byte()?;
        if byte == FALSE_OCTET {
            Ok(false)
        } else if byte == TRUE_OCTET {
            Ok(true)
        } else {
            Err(reader.error(ErrorKind::Noncanonical { tag: Tag::Boolean }))
        }
    }
}

impl EncodeValue for bool {
    /// The content of a `BOOLEAN`: `TRUE_OCTET` or `FALSE_OCTET`.
    open spec fn value_encoding(&self) -> Seq<u8> {
        if *self {
            seq![TRUE_OCTET]
        } else {
            seq![FALSE_OCTET]
        }
    }

    /// Encoding the content of a `BOOLEAN` is one write of its octet.
    open spec fn encode_value_spec(&self, sink: Sink) -> Written {
        sink.write(self.value_encoding())
    }

    proof fn lemma_encode_value(&self, sink: Sink) {
    }

    fn value_len(&self) -> (res: Result<Length, Error>) {
        Ok(Length::one())
    }

    fn encode_value<W: Writer>(&self, writer: &mut W) -> (res: Result<(), Error>) {
        assert(seq![TRUE_OCTET] =~= self.value_encoding() || seq![FALSE_OCTET]
            =~= self.value_encoding());
        writer.write_byte(
            if *self {
                TRUE_OCTET
            } else {
                FALSE_OCTET
            },
        )
    }
}

impl FixedTag for i8 {
    open spec fn spec_fixed_tag() -> Tag {
        Tag::Integer
    }

    fn fixed_tag() -> (tag: Tag) {
        Tag::Integer
    }
}

impl<'a> DecodeValue<'a> for i8 {
    /// Decoding an `INTEGER` that fits into eight bits: the content is one
    /// octet, which holds the integer in two's complement. Empty content
    /// fails with `Length`, longer content with `Noncanonical`.
    open spec fn decode_value_spec(c: Cursor, header: Header) -> Step<i8> {
        if c.failed {
            Step { result: Err(c.error(ErrorKind::Failed)), cursor: c }
        } else if header.length@ == 0 {
            Step {
                result: Err(c.error(ErrorKind::Length { tag: Tag::Integer })),
                cursor: c.fail(),
            }
        } else if header.length@ > 1 {
            Step {
                result: Err(c.error(ErrorKind::Noncanonical { tag: Tag::Integer })),
                cursor: c.fail(),
            }
        } else {
            let octet = c.read_byte();
            match octet.result {
                Err(err) => Step { result: Err(err), cursor: octet.cursor },
                Ok(byte) => Step {
                    result: Ok(
                        if byte < 0x80 {
                            byte as i8
                        } else {
                            (byte - 0x100) as i8
                        },
                    ),
                    cursor: octet.cursor,
                },
            }
        }
    }

    fn decode_value<R: Reader<'a>>(reader: &mut R, header: Header) -> (res: Result<i8, Error>) {
        proof {
            reader.lemma_inv();
        }
        if reader.is_failed() {
            return Err(reader.error(ErrorKind::Failed));
        }
        if header.length.value() == 0 {
            return Err(reader.error(ErrorKind::Length { tag: Tag::Integer }));
        }
        if header.length.value() > 1 {
            return Err(reader.error(ErrorKind::Noncanonical { tag: Tag::Integer }));
        }
        let byte = reader.read_byte()?;
        if byte < 0x80 {
            Ok(byte as i8)
        } else {
            Ok((byte as i16 - 0x100) as i8)
        }
    }
}

impl EncodeValue for i8 {
    /// The content of an `INTEGER` that fits into eight bits: the integer
    /// in two's complement, in one octet.
    open spec fn value_encoding(&self) -> Seq<u8> {
        seq![
            if *self >= 0 {
                *self as u8
            } else {
                (*self + 0x100) as u8
            },
        ]
    }

    /// Encoding the content of such an `INTEGER` is one write of its octet.
    open spec fn encode_value_spec(&self, sink: Sink) -> Written {
        sink.write(self.value_encoding())
    }

    proof fn lemma_encode_value(&self, sink: Sink) {
    }

    fn value_len(&self) -> (res: Result<Length, Error>) {
        Ok(Length::one())
    }

    fn encode_value<W: Writer>(&self, writer: &mut W) -> (res: Result<(), Error>) {
        let octet: u8 = if *self >= 0 {
            *self as u8
        } else {
            (*self as i16 + 0x100) as u8
        };
        assert(seq![octet] =~= self.value_encoding());
        writer.write_byte(octet)
    }
}

/// A `BOOLEAN` that was encoded is had back by decoding: where the octets
/// at the position of a cursor are the encoding of `value`, decoding yields
/// `value` and leaves the cursor behind them.
pub proof fn lemma_bool_round_trip(value: bool, c: Cursor)
    requires
        c.wf(),
        !c.failed,
        c.depth < crate::reader::MAX_DEPTH,
        c.starts_with(value.encoding()),
    ensures
        <bool as crate::decode::Decode>::decode_spec(c) == (Step {
            result: Ok::<bool, Error>(value),
            cursor: c.advance(value.encoding().len()),
        }),
{
    let header = Header { tag: Tag::Boolean, length: Length(1) };
    let octets = value.encoding();
    assert(octets =~= header.encoding() + value.value_encoding());
    assert(header.encoding() =~= seq![0x01u8, 0x01u8]);
    let p = c.position as int;
    assert forall|i: int| 0 <= i < 3 implies c.input[p + i] == octets[i] by {
        assert(c.input.subrange(p, p + 3)[i] == octets[i]);
    }
    assert(c.input.subrange(p, p + 2) =~= header.encoding());
    crate::header::lemma_header_round_trip(header, c);
    let c2 = c.advance(2);
    let scope = c2.nest(1);
    assert(scope.read_byte().result == Ok::<u8, Error>(octets[2]));
    assert(scope.read_byte().cursor.unnest(c2.end) == c.advance(3));
}

} // verus!
