//! Encoding of typed values.

use crate::error::Error;
use crate::header::Header;
use crate::length::Length;
use crate::tag::Tagged;
use crate::writer::{Sink, SliceWriter, Writer, Written};
use vstd::prelude::*;

verus! {

/// A sequence of octets, as contracts speak of it.
pub type Octets = Seq<u8>;

/// Types that can be encoded: the whole encoding, tag and length included.
///
/// The length of the encoding can be had before any of it is written, as
/// the header of an enclosing element needs it.
pub trait Encode {
    /// The encoding of this value.
    spec fn encoding(&self) -> Seq<u8>;

    /// What encoding this value to the given sink returns, and the sink
    /// that it leaves behind.
    spec fn encode_spec(&self, sink: Sink) -> Written;

    /// Encoding succeeds exactly where the sink has room for the encoding,
    /// and then adds it to what was written.
    proof fn lemma_encode(&self, sink: Sink)
        requires
            sink.wf(),
        ensures
            self.encode_spec(sink).result is Ok <==> sink.write_error(self.encoding().len())
                is None,
            self.encode_spec(sink).result is Ok ==> self.encode_spec(sink).sink == sink.with(
                self.encoding(),
            ),
    ;

    /// Number of octets in the encoding of this value.
    ///
    /// Fails with `Overflow` where that number is no length.
    fn encoded_len(&self) -> (res: Result<Length, Error>)
        ensures
            match res {
                Ok(len) => len@ == self.encoding().len(),
                Err(err) => self.encoding().len() > Length::spec_max() && err
                    == Length::overflow(),
            },
    ;

    /// Write the encoding of this value to the writer.
    fn encode<W: Writer>(&self, writer: &mut W) -> (res: Result<(), Error>)
        requires
            old(writer).inv(),
        ensures
            final(writer).inv(),
            res == self.encode_spec(old(writer)@).result,
            final(writer)@ == self.encode_spec(old(writer)@).sink,
    ;

    /// Write the encoding of this value to the start of `buf`, and return
    /// the part of `buf` that holds it.
    ///
    /// Fails with `Overlength` where `buf` is too short.
    fn encode_to_slice<'a>(&self, buf: &'a mut [u8]) -> (res: Result<&'a [u8], Error>)
        ensures
            match res {
                Ok(out) => out@ == self.encoding() && self.encoding().len() <= old(buf)@.len(),
                Err(err) => {
                    &&& self.encoding().len() > old(buf)@.len() || self.encoding().len()
                        > Length::spec_max()
                    &&& Err::<(), Error>(err) == self.encode_spec(
                        Sink {
                            written: Seq::<u8>::empty(),
                            capacity: old(buf)@.len(),
                            failed: false,
                        },
                    ).result
                },
            },
    {
        let mut writer = SliceWriter::new(buf);
        proof {
            self.lemma_encode(writer@);
            assert(writer@.with(self.encoding()).written =~= self.encoding());
        }
        self.encode(&mut writer)?;
        writer.finish()
    }
}

/// Types that can encode their content; the header is made from the tag of
/// the value and the length of the content.
pub trait EncodeValue {
    /// The encoding of the content of this value.
    spec fn value_encoding(&self) -> Seq<u8>;

    /// What encoding the content of this value to the given sink returns,
    /// and the sink that it leaves behind.
    spec fn encode_value_spec(&self, sink: Sink) -> Written;

    /// Encoding the content succeeds exactly where the sink has room for
    /// it, and then adds it to what was written.
    proof fn lemma_encode_value(&self, sink: Sink)
        requires
            sink.wf(),
        ensures
            self.encode_value_spec(sink).result is Ok <==> sink.write_error(
                self.value_encoding().len(),
            ) is None,
            self.encode_value_spec(sink).result is Ok ==> self.encode_value_spec(sink).sink
                == sink.with(self.value_encoding()),
    ;

    /// Number of octets in the encoding of the content of this value.
    ///
    /// Fails with `Overflow` where that number is no length.
    fn value_len(&self) -> (res: Result<Length, Error>)
        ensures
            match res {
                Ok(len) => len@ == self.value_encoding().len(),
                Err(err) => self.value_encoding().len() > Length::spec_max() && err
                    == Length::overflow(),
            },
    ;

    /// Write the encoding of the content of this value to the writer.
    fn encode_value<W: Writer>(&self, writer: &mut W) -> (res: Result<(), Error>)
        requires
            old(writer).inv(),
        ensures
            final(writer).inv(),
            res == self.encode_value_spec(old(writer)@).result,
            final(writer)@ == self.encode_value_spec(old(writer)@).sink,
    ;
}

impl<T: EncodeValue + Tagged> Encode for T {
    /// The encoding of a value: its header, made from its tag and the
    /// length of its content, then its content.
    open spec fn encoding(&self) -> Seq<u8> {
        (Header {
            tag: self.spec_tag(),
            length: Length::of(self.value_encoding().len()),
        }).encoding() + self.value_encoding()
    }

    /// Encoding a value: the length of the content is computed, which
    /// fails with `Overflow` where it is no length and nothing is written;
    /// then the header is encoded, then the content.
    open spec fn encode_spec(&self, sink: Sink) -> Written {
        if self.value_encoding().len() > Length::spec_max() {
            Written { result: Err(Length::overflow()), sink: sink }
        } else {
            let header = (Header {
                tag: self.spec_tag(),
                length: Length::of(self.value_encoding().len()),
            }).encode_spec(sink);
            match header.result {
                Err(_) => header,
                Ok(_) => self.encode_value_spec(header.sink),
            }
        }
    }

    proof fn lemma_encode(&self, sink: Sink) {
        let header = Header {
            tag: self.spec_tag(),
            length: Length::of(self.value_encoding().len()),
        };
        header.lemma_encode(sink);
        let step = header.encode_spec(sink);
        if self.value_encoding().len() <= Length::spec_max() && step.result is Ok {
            self.lemma_encode_value(step.sink);
            assert(step.sink.with(self.value_encoding()).written =~= sink.with(
                self.encoding(),
            ).written);
        }
    }

    fn encoded_len(&self) -> (res: Result<Length, Error>) {
        let value_len = self.value_len()?;
        let header_len = Header::new(self.tag(), value_len).encoded_len()?;
        header_len.checked_add(value_len)
    }

    fn encode<W: Writer>(&self, writer: &mut W) -> (res: Result<(), Error>) {
        let value_len = self.value_len()?;
        Header::new(self.tag(), value_len).encode(writer)?;
        self.encode_value(writer)
    }
}

} // verus!
