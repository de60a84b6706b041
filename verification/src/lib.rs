//! Codec for the Distinguished Encoding Rules (DER): a canonical,
//! definite-length tag-length-value encoding.
//!
//! Decoding works on an in-memory buffer through a [`Reader`]. Every
//! element is read within the extent that the header around it declared:
//! a reader has a boundary, which opening a nested element moves in and
//! closing it moves back out. [`SliceReader`] reads a slice of octets, and
//! [`NestedDecoder`] puts a boundary of its own on any reader. Encoding
//! writes to a [`Writer`], after the length of the encoding has been
//! computed.
//!
//! # Contracts
//!
//! The contracts are stated over [`Cursor`], the mathematical model of a
//! reader: the input, the boundary, the position and the failure mark.
//! What an operation does is a function from a cursor to a [`Step`]: its
//! result, with the cursor that it leaves behind. Encoding is stated over
//! [`Sink`] and [`Written`] in the same way.
//!
//! # Failures
//!
//! A reader that is marked as failed fails every read with `Failed`.
//! [`SliceReader`] is strict: every operation on it that fails marks it,
//! a read that does not fit as well as malformed input. Looking ahead
//! borrows the reader and cannot mark it. [`NestedDecoder`] checks its own
//! boundary before it touches the reader underneath: a read that does not
//! fit within the boundary fails with `Incomplete` and changes nothing,
//! whether the decoder is marked or not. It is marked where the input is
//! malformed, where the content of a nested element could not be decoded,
//! and where it was not read to its end. Errors hold the position at which
//! they were detected.
//!
//! # Limits
//!
//! A length is at most `u32::MAX`, and is encoded in at most five octets. A
//! tag number is at most `u16::MAX`, and a tag is encoded in at most four
//! octets. A length in the indefinite form is rejected, and so is one that
//! is not minimal. At most [`reader::MAX_DEPTH`] elements may be open within
//! one another, so that input which nests without end cannot exhaust the
//! stack of the functions that decode it.
//!
//! # Other formats
//!
//! [`mcf`] holds password hashes in the Modular Crypt Format.

pub mod asn1;
pub mod bitstring;
pub mod decode;
pub mod encode;
pub mod error;
pub mod fixedlenbits;
pub mod header;
pub mod length;
pub mod mcf;
pub mod reader;
pub mod tag;
pub mod text;
pub mod writer;

pub use bitstring::BitStringRef;
pub use decode::{Decode, DecodeValue};
pub use encode::{Encode, EncodeValue, Octets};
pub use error::{Error, ErrorKind};
pub use fixedlenbits::FixedLenBitString;
pub use header::Header;
pub use length::Length;
pub use reader::nested::NestedDecoder;
pub use reader::slice::{EncodingRules, SliceReader};
pub use reader::{Cursor, Reader, Step};
pub use tag::{Class, FixedTag, Tag, TagMode, TagNumber, Tagged};
pub use writer::{Sink, SliceWriter, Writer, Written};
