//! Headers: the tag and the length that open every encoded element.

use crate::decode::Decode;
use crate::encode::Encode;
use crate::error::{Error, ErrorKind};
use crate::length::{
    lemma_length_fail_closed, lemma_length_mirrors, lemma_length_round_trip, Length,
};
use crate::reader::{steps_mirror, Cursor, Reader, Step, PEEK_WINDOW};
use crate::tag::{
    lemma_tag_fail_closed, lemma_tag_mirrors, lemma_tag_round_trip, lemma_window_agrees, Tag,
};
use crate::writer::{Sink, Writer, Written};
use vstd::prelude::*;

verus! {

/// The tag of an element and the length of its content.
///
/// The length is always definite: it says how many octets of content
/// follow.
#[derive(Clone, Copy, Debug, PartialEq, Eq, Structural)]
pub struct Header {
    /// Tag of the element.
    pub tag: Tag,
    /// Length of the content.
    pub length: Length,
}

impl Header {
    /// Looking at the header ahead: the header, and the number of octets
    /// that it takes.
    ///
    /// Where not even one octet can be read, the error is that of reading
    /// it. Else the header is decoded from the window of the cursor, which
    /// is long enough for any header; the error of that is reported as found
    /// at the position of the cursor. The content that the header announces
    /// must fit within the boundary, else the error is `Incomplete`.
    pub open spec fn spec_peek(c: Cursor) -> Result<(Header, Length), Error> {
        match c.read_error(1) {
            Some(err) => Err(err),
            None => {
                let step = Header::decode_spec(Cursor::over(c.window()));
                match step.result {
                    Err(err) => Err(err.spec_nested(Length::of(c.position))),
                    Ok(header) => match c.bounds_error(step.cursor.position + header.length@) {
                        Some(err) => Err(err),
                        None => Ok((header, Length::of(step.cursor.position))),
                    },
                }
            },
        }
    }

    /// Looking at the header ahead, said by what decoding would do: the
    /// header that decoding from the cursor yields, with the number of
    /// octets that it reads, or the error with which it fails; and where
    /// the content that the header announces does not fit within the
    /// boundary, the error of that.
    pub open spec fn spec_peek_by_decoding(c: Cursor) -> Result<(Header, Length), Error> {
        let step = Header::decode_spec(c);
        match step.result {
            Err(err) => Err(err),
            Ok(header) => {
                let header_len = (step.cursor.position - c.position) as nat;
                match c.bounds_error(header_len + header.length@) {
                    Some(err) => Err(err),
                    None => Ok((header, Length::of(header_len))),
                }
            },
        }
    }

    /// Create a header from a tag and the length of the content.
    pub fn new(tag: Tag, length: Length) -> (header: Header)
        ensures
            header == (Header { tag, length }),
    {
        Header { tag, length }
    }
}

impl Encode for Header {
    /// The encoding of a header: that of the tag, then that of the length.
    open spec fn encoding(&self) -> Seq<u8> {
        self.tag.encoding() + self.length.encoding()
    }

    /// Encoding a header: the tag is encoded, then the length.
    open spec fn encode_spec(&self, sink: Sink) -> Written {
        let tag = self.tag.encode_spec(sink);
        match tag.result {
            Err(_) => tag,
            Ok(_) => self.length.encode_spec(tag.sink),
        }
    }

    proof fn lemma_encode(&self, sink: Sink) {
        let tag = self.tag.encode_spec(sink);
        if tag.result is Ok {
            assert(tag.sink.with(self.length.encoding()).written =~= sink.with(
                self.encoding(),
            ).written);
        }
    }

    fn encoded_len(&self) -> (res: Result<Length, Error>) {
        let tag_len = self.tag.encoded_len()?;
        let length_len = self.length.encoded_len()?;
        tag_len.checked_add(length_len)
    }

    fn encode<W: Writer>(&self, writer: &mut W) -> (res: Result<(), Error>) {
        self.tag.encode(writer)?;
        self.length.encode(writer)
    }
}

impl<'a> Decode<'a> for Header {
    /// Reading a header: the tag, then the length. A length in the long
    /// form of more than four octets fails with `Length`, one that is not
    /// minimal with `Noncanonical`, both naming the tag.
    open spec fn decode_spec(c: Cursor) -> Step<Header> {
        let tag = Tag::decode_spec(c);
        match tag.result {
            Err(err) => Step { result: Err(err), cursor: tag.cursor },
            Ok(tag_value) => {
                let length = Length::spec_decode_with(
                    tag.cursor,
                    ErrorKind::Length { tag: tag_value },
                    ErrorKind::Noncanonical { tag: tag_value },
                );
                match length.result {
                    Err(err) => Step { result: Err(err), cursor: length.cursor },
                    Ok(length_value) => Step {
                        result: Ok(Header { tag: tag_value, length: length_value }),
                        cursor: length.cursor,
                    },
                }
            },
        }
    }

    fn decode<R: Reader<'a>>(reader: &mut R) -> (res: Result<Header, Error>) {
        let tag = Tag::decode(reader)?;
        let length = Length::decode_with(
            reader,
            ErrorKind::Length { tag },
            ErrorKind::Noncanonical { tag },
        )?;
        Ok(Header { tag, length })
    }
}

/// Decoding a header comes to the same from a cursor and from one that it
/// mirrors, but for the shift.
pub proof fn lemma_header_mirrors(a: Cursor, b: Cursor)
    requires
        a.mirrors(b, PEEK_WINDOW as nat),
    ensures
        steps_mirror(a, b, Header::decode_spec(a), Header::decode_spec(b), PEEK_WINDOW as nat),
{
    let budget = PEEK_WINDOW as nat;
    lemma_tag_mirrors(a, b, budget);
    let tag_a = Tag::decode_spec(a);
    let tag_b = Tag::decode_spec(b);
    if tag_a.result is Ok {
        let tag = tag_a.result->Ok_0;
        let overlong = ErrorKind::Length { tag };
        let not_minimal = ErrorKind::Noncanonical { tag };
        let first = (tag_a.cursor.position - a.position) as nat;
        lemma_length_mirrors(
            tag_a.cursor,
            tag_b.cursor,
            overlong,
            not_minimal,
            (budget - first) as nat,
        );
        let on_a = Length::spec_decode_with(tag_a.cursor, overlong, not_minimal);
        let second = (on_a.cursor.position - tag_a.cursor.position) as nat;
        assert(a.advance(first).advance(second) == a.advance(first + second));
    }
}

/// Looking at the header ahead finds what decoding would: the header that
/// decoding from the same cursor yields, or the error with which it fails;
/// and where the content that the header announces does not fit within the
/// boundary, the error of that.
pub proof fn lemma_peek_decode(c: Cursor)
    requires
        c.wf(),
    ensures
        Header::spec_peek(c) == Header::spec_peek_by_decoding(c),
{
    if c.read_error(1) is None {
        let window = c.window();
        lemma_window_agrees(c, window.len());
        assert(window.take(window.len() as int) =~= window);
        lemma_header_mirrors(Cursor::over(window), c);
    }
}

/// Decoding a header that fails marks a strict reader as failed, and on a
/// reader that is marked it fails and leaves the mark; decoding that
/// succeeds marks no reader. So a strict reader is marked exactly once
/// decoding from it has failed.
pub proof fn lemma_header_fail_closed(c: Cursor)
    ensures
        c.strict && Header::decode_spec(c).result is Err ==> Header::decode_spec(c).cursor.failed,
        c.failed ==> Header::decode_spec(c).result is Err && Header::decode_spec(c).cursor.failed,
        Header::decode_spec(c).cursor.strict == c.strict,
        !c.failed && Header::decode_spec(c).result is Ok ==> !Header::decode_spec(
            c,
        ).cursor.failed,
{
    lemma_tag_fail_closed(c);
    let tag = Tag::decode_spec(c);
    if tag.result is Ok {
        let tag_value = tag.result->Ok_0;
        lemma_length_fail_closed(
            tag.cursor,
            ErrorKind::Length { tag: tag_value },
            ErrorKind::Noncanonical { tag: tag_value },
        );
    }
}

/// Decoding a header is the inverse of encoding it: where the octets at the
/// position of a cursor are the encoding of `header`, decoding yields
/// `header` and leaves the cursor behind them.
pub proof fn lemma_header_round_trip(header: Header, c: Cursor)
    requires
        c.wf(),
        !c.failed,
        c.starts_with(header.encoding()),
    ensures
        Header::decode_spec(c) == (Step {
            result: Ok::<Header, Error>(header),
            cursor: c.advance(header.encoding().len()),
        }),
{
    let tag_octets = header.tag.encoding();
    let length_octets = header.length.encoding();
    let octets = header.encoding();
    let p = c.position as int;
    assert(c.input.subrange(p, p + tag_octets.len()) =~= tag_octets) by {
        assert forall|i: int| 0 <= i < tag_octets.len() implies c.input[p + i] == tag_octets[i] by {
            assert(c.input.subrange(p, p + octets.len())[i] == octets[i]);
        }
    }
    lemma_tag_round_trip(header.tag, c);
    let c1 = c.advance(tag_octets.len());
    let q = c1.position as int;
    assert(c1.input.subrange(q, q + length_octets.len()) =~= length_octets) by {
        assert forall|i: int| 0 <= i < length_octets.len() implies c.input[q + i]
            == length_octets[i] by {
            assert(c.input.subrange(p, p + octets.len())[tag_octets.len() + i] == octets[
                tag_octets.len() + i
            ]);
        }
    }
    lemma_length_round_trip(
        header.length,
        c1,
        ErrorKind::Length { tag: header.tag },
        ErrorKind::Noncanonical { tag: header.tag },
    );
    assert(c1.advance(length_octets.len()) == c.advance(octets.len()));
}

} // verus!
