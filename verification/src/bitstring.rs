//! Bit strings: sequences of bits, packed into octets.

use crate::encode::EncodeValue;
use crate::error::{Error, ErrorKind};
use crate::header::Header;
use crate::length::Length;
use crate::reader::{Cursor, Reader, Step};
use crate::tag::{FixedTag, Tag};
use crate::writer::{Sink, Writer, Written};
use vstd::prelude::*;

verus! {

/// What bit `k` of an octet is worth, counting from the most significant
/// bit, which is bit 0.
pub open spec fn spec_bit_weight(k: nat) -> nat {
    if k == 0 {
        0x80
    } else if k == 1 {
        0x40
    } else if k == 2 {
        0x20
    } else if k == 3 {
        0x10
    } else if k == 4 {
        0x08
    } else if k == 5 {
        0x04
    } else if k == 6 {
        0x02
    } else {
        0x01
    }
}

/// Is bit `k` of `octet` set, counting from the most significant bit?
pub open spec fn octet_bit(octet: u8, k: nat) -> bool {
    (octet as nat / spec_bit_weight(k)) % 2 == 1
}

/// Is bit `i` of `octets` set? Bit 0 is the most significant bit of the
/// first octet.
pub open spec fn bit_at(octets: Seq<u8>, i: nat) -> bool {
    octet_bit(octets[(i / 8) as int], i % 8)
}

/// What bit `k` of an octet is worth, counting from the most significant
/// bit.
pub fn bit_weight(k: usize) -> (weight: u8)
    requires
        k < 8,
    ensures
        weight == spec_bit_weight(k as nat),
{
    if k == 0 {
        0x80
    } else if k == 1 {
        0x40
    } else if k == 2 {
        0x20
    } else if k == 3 {
        0x10
    } else if k == 4 {
        0x08
    } else if k == 5 {
        0x04
    } else if k == 6 {
        0x02
    } else {
        0x01
    }
}

/// A bit string that borrows its octets.
///
/// The last octet may hold up to seven bits that do not belong to the
/// string: the unused bits.
#[derive(Clone, Copy, Debug)]
pub struct BitStringRef<'a> {
    /// Number of bits of the last octet that do not belong to the string.
    unused_bits: u8,
    /// Number of bits in the string.
    bit_length: usize,
    /// The octets that hold the bits.
    inner: &'a [u8],
}

impl<'a> BitStringRef<'a> {
    /// Largest number of unused bits.
    pub const MAX_UNUSED_BITS: u8 = 7;

    /// Number of bits of the last octet that do not belong to the string.
    pub closed spec fn spec_unused_bits(&self) -> u8 {
        self.unused_bits
    }

    /// The octets that hold the bits.
    pub closed spec fn spec_bytes(&self) -> Seq<u8> {
        self.inner@
    }

    /// Number of bits in the string.
    pub open spec fn spec_bit_len(&self) -> nat {
        (8 * self.spec_bytes().len() - self.spec_unused_bits()) as nat
    }

    /// Bit `i` of the string, if it has that many bits.
    pub open spec fn spec_get(&self, i: nat) -> Option<bool> {
        if i < self.spec_bit_len() {
            Some(bit_at(self.spec_bytes(), i))
        } else {
            None
        }
    }

    /// The invariant of a bit string: at most seven bits are unused, and
    /// none where there is no octet; the octets are no more than the
    /// largest length.
    pub closed spec fn inv(&self) -> bool {
        &&& self.unused_bits <= Self::MAX_UNUSED_BITS
        &&& self.unused_bits != 0 ==> self.inner@.len() > 0
        &&& self.inner@.len() <= Length::spec_max()
        &&& self.bit_length == 8 * self.inner@.len() - self.unused_bits
    }

    /// A bit string that meets its invariant has at most seven unused bits,
    /// all of them in an octet, and no more octets than the largest length.
    pub proof fn lemma_inv(&self)
        requires
            self.inv(),
        ensures
            self.spec_unused_bits() <= Self::MAX_UNUSED_BITS,
            self.spec_unused_bits() != 0 ==> self.spec_bytes().len() > 0,
            self.spec_bytes().len() <= Length::spec_max(),
    {
    }

    /// The error of making a bit string of `len` octets with the given
    /// number of unused bits, if there is no such bit string: `Value` for
    /// more than seven unused bits, or any where there is no octet;
    /// `Length` for more octets than the largest length; `Overflow` where
    /// the number of bits is no `usize`.
    pub open spec fn spec_new_error(unused_bits: u8, len: nat) -> Option<ErrorKind> {
        if unused_bits > Self::MAX_UNUSED_BITS || (unused_bits != 0 && len == 0) {
            Some(ErrorKind::Value { tag: Tag::BitString })
        } else if len > Length::spec_max() {
            Some(ErrorKind::Length { tag: Tag::BitString })
        } else if 8 * len > usize::MAX {
            Some(ErrorKind::Overflow)
        } else {
            None
        }
    }

    /// Create a bit string from its octets and the number of bits of the
    /// last octet that do not belong to it.
    pub fn new(unused_bits: u8, bytes: &'a [u8]) -> (res: Result<Self, Error>)
        ensures
            match res {
                Ok(bits) => {
                    &&& Self::spec_new_error(unused_bits, bytes@.len()) is None
                    &&& bits.inv()
                    &&& bits.spec_unused_bits() == unused_bits
                    &&& bits.spec_bytes() == bytes@
                },
                Err(err) => Self::spec_new_error(unused_bits, bytes@.len()) == Some(err.kind)
                    && err.position is None,
            },
    {
        if unused_bits > Self::MAX_UNUSED_BITS || (unused_bits != 0 && bytes.len() == 0) {
            return Err(Tag::BitString.value_error());
        }
        if Length::try_from_usize(bytes.len()).is_err() {
            return Err(Tag::BitString.length_error());
        }
        let bit_length = match bytes.len().checked_mul(8) {
            Some(bit_length) => bit_length - unused_bits as usize,
            None => return Err(ErrorKind::Overflow.to_error()),
        };
        Ok(BitStringRef { unused_bits, bit_length, inner: bytes })
    }

    /// Number of bits of the last octet that do not belong to the string.
    pub fn unused_bits(&self) -> (unused_bits: u8)
        ensures
            unused_bits == self.spec_unused_bits(),
    {
        self.unused_bits
    }

    /// Number of bits in the string.
    pub fn bit_len(&self) -> (bit_len: usize)
        requires
            self.inv(),
        ensures
            bit_len == self.spec_bit_len(),
    {
        self.bit_length
    }

    /// The octets that hold the bits.
    pub fn raw_bytes(&self) -> (bytes: &'a [u8])
        ensures
            bytes@ == self.spec_bytes(),
    {
        self.inner
    }

    /// Bit `i` of the string; `None` where the string has fewer bits.
    pub fn get(&self, i: usize) -> (bit: Option<bool>)
        requires
            self.inv(),
        ensures
            bit == self.spec_get(i as nat),
    {
        if i >= self.bit_length {
            return None;
        }
        let octet = self.inner[i / 8];
        let weight = bit_weight(i % 8);
        Some((octet / weight) % 2 == 1)
    }

    /// Decoding the content of a `BIT STRING`: the number of unused bits,
    /// and the octets. The content must hold the octet with the number of
    /// unused bits, else the error is `Length`.
    pub open spec fn spec_decode_value(c: Cursor, header: Header) -> Step<(u8, Seq<u8>)> {
        if c.failed {
            Step { result: Err(c.error(ErrorKind::Failed)), cursor: c }
        } else if header.length@ == 0 {
            Step {
                result: Err(c.error(ErrorKind::Length { tag: Tag::BitString })),
                cursor: c.fail(),
            }
        } else {
            let first = c.read_byte();
            match first.result {
                Err(err) => Step { result: Err(err), cursor: first.cursor },
                Ok(unused_bits) => {
                    let rest = first.cursor.read((header.length@ - 1) as nat);
                    match rest.result {
                        Err(err) => Step { result: Err(err), cursor: rest.cursor },
                        Ok(octets) => match Self::spec_new_error(unused_bits, octets.len()) {
                            Some(kind) => Step {
                                result: Err(rest.cursor.error(kind)),
                                cursor: rest.cursor.fail(),
                            },
                            None => Step { result: Ok((unused_bits, octets)), cursor: rest.cursor },
                        },
                    }
                },
            }
        }
    }

    /// Decode the content of a `BIT STRING` from the reader, which stands
    /// behind `header`.
    pub fn decode_value<R: Reader<'a>>(reader: &mut R, header: Header) -> (res: Result<Self, Error>)
        requires
            old(reader).inv(),
        ensures
            final(reader).inv(),
            old(reader)@.leads_to(final(reader)@),
            final(reader)@ == Self::spec_decode_value(old(reader)@, header).cursor,
            match res {
                Ok(bits) => {
                    &&& bits.inv()
                    &&& Self::spec_decode_value(old(reader)@, header).result == Ok::<
                        (u8, Seq<u8>),
                        Error,
                    >((bits.spec_unused_bits(), bits.spec_bytes()))
                },
                Err(err) => Self::spec_decode_value(old(reader)@, header).result == Err::<
                    (u8, Seq<u8>),
                    Error,
                >(err),
            },
    {
        proof {
            reader.lemma_inv();
        }
        if reader.is_failed() {
            return Err(reader.error(ErrorKind::Failed));
        }
        let content_len = match header.length.checked_sub(Length::one()) {
            Ok(content_len) => content_len,
            Err(_) => return Err(reader.error(ErrorKind::Length { tag: Tag::BitString })),
        };
        let unused_bits = reader.read_byte()?;
        let bytes = reader.read_slice(content_len)?;
        match Self::new(unused_bits, bytes) {
            Ok(bits) => Ok(bits),
            Err(err) => Err(reader.error(err.kind())),
        }
    }
}

impl<'a> FixedTag for BitStringRef<'a> {
    open spec fn spec_fixed_tag() -> Tag {
        Tag::BitString
    }

    fn fixed_tag() -> (tag: Tag) {
        Tag::BitString
    }
}

impl<'a> EncodeValue for BitStringRef<'a> {
    /// The content of a `BIT STRING`: an octet with the number of unused
    /// bits, then the octets that hold the bits.
    open spec fn value_encoding(&self) -> Seq<u8> {
        seq![self.spec_unused_bits()] + self.spec_bytes()
    }

    /// Encoding the content of a `BIT STRING`: the number of unused bits is
    /// written, then the octets.
    open spec fn encode_value_spec(&self, sink: Sink) -> Written {
        let first = sink.write(seq![self.spec_unused_bits()]);
        match first.result {
            Err(_) => first,
            Ok(_) => first.sink.write(self.spec_bytes()),
        }
    }

    proof fn lemma_encode_value(&self, sink: Sink) {
        let first = sink.write(seq![self.spec_unused_bits()]);
        if first.result is Ok {
            assert(first.sink.with(self.spec_bytes()).written =~= sink.with(
                self.value_encoding(),
            ).written);
        }
    }

    fn value_len(&self) -> (res: Result<Length, Error>) {
        match Length::try_from_usize(self.inner.len()) {
            Ok(len) => len.checked_add(Length::one()),
            Err(err) => Err(err),
        }
    }

    fn encode_value<W: Writer>(&self, writer: &mut W) -> (res: Result<(), Error>) {
        writer.write_byte(self.unused_bits)?;
        writer.write(self.inner)
    }
}

} // verus!
