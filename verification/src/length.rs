//! Length of an encoding, and offsets into one.

use crate::decode::Decode;
use crate::encode::Encode;
use crate::error::{Error, ErrorKind};
use crate::reader::{lemma_mirrors_read_byte, steps_mirror, Cursor, Reader, Step};
use crate::writer::{Sink, Writer, Written};
use vstd::prelude::*;

verus! {

/// Number of octets: a size or an offset within an input.
///
/// Every `u32` is a valid length. Arithmetic on lengths is checked: a sum,
/// difference or product that leaves the range is reported as
/// [`ErrorKind::Overflow`], never wrapped.
#[derive(Clone, Copy, Debug, PartialEq, Eq, Structural, PartialOrd, Ord, Hash)]
pub struct Length(pub u32);

impl View for Length {
    type V = nat;

    open spec fn view(&self) -> nat {
        self.0 as nat
    }
}

impl Length {
    /// Length of zero octets.
    pub fn zero() -> (len: Length)
        ensures
            len@ == 0,
    {
        Length(0)
    }

    /// Length of one octet.
    pub fn one() -> (len: Length)
        ensures
            len@ == 1,
    {
        Length(1)
    }

    /// Largest length.
    pub fn max() -> (len: Length)
        ensures
            len@ == Self::spec_max(),
    {
        Length(0xffff_ffff)
    }

    /// Largest number of octets that a length can stand for.
    pub open spec fn spec_max() -> nat {
        0xffff_ffff
    }

    /// The length of `n` octets, for `n` in range.
    pub open spec fn of(n: nat) -> Length {
        Length(n as u32)
    }

    /// The overflow error that checked arithmetic reports.
    pub open spec fn overflow() -> Error {
        Error { kind: ErrorKind::Overflow, position: None }
    }

    /// Sum of two lengths, or the overflow error.
    pub open spec fn spec_checked_add(self, rhs: Length) -> Result<Length, Error> {
        if self@ + rhs@ <= Self::spec_max() {
            Ok(Self::of(self@ + rhs@))
        } else {
            Err(Self::overflow())
        }
    }

    /// Difference of two lengths, or the overflow error.
    pub open spec fn spec_checked_sub(self, rhs: Length) -> Result<Length, Error> {
        if rhs@ <= self@ {
            Ok(Self::of((self@ - rhs@) as nat))
        } else {
            Err(Self::overflow())
        }
    }

    /// Product of two lengths, or the overflow error.
    pub open spec fn spec_checked_mul(self, rhs: Length) -> Result<Length, Error> {
        if self@ * rhs@ <= Self::spec_max() {
            Ok(Self::of(self@ * rhs@))
        } else {
            Err(Self::overflow())
        }
    }

    /// Create a length from a number of octets.
    pub fn new(value: u32) -> (len: Length)
        ensures
            len@ == value,
    {
        Length(value)
    }

    /// The number of octets.
    pub fn value(self) -> (value: u32)
        ensures
            value == self@,
    {
        self.0
    }

    /// Is this the length of nothing?
    pub fn is_zero(self) -> (zero: bool)
        ensures
            zero == (self@ == 0),
    {
        self.0 == 0
    }

    /// Create a length from a `usize`; fails with `Overflow` above the
    /// largest length.
    pub fn try_from_usize(value: usize) -> (res: Result<Length, Error>)
        ensures
            value <= Self::spec_max() ==> res == Ok::<Length, Error>(Self::of(value as nat)),
            value > Self::spec_max() ==> res == Err::<Length, Error>(Self::overflow()),
    {
        if value <= 0xffff_ffff {
            Ok(Length(value as u32))
        } else {
            Err(Error { kind: ErrorKind::Overflow, position: None })
        }
    }

    /// The number of octets as a `usize`.
    pub fn to_usize(self) -> (value: usize)
        ensures
            value == self@,
    {
        self.0 as usize
    }

    /// Checked addition: `Overflow` when the sum exceeds the largest length.
    pub fn checked_add(self, rhs: Length) -> (res: Result<Length, Error>)
        ensures
            res == self.spec_checked_add(rhs),
    {
        match self.0.checked_add(rhs.0) {
            Some(sum) => Ok(Length(sum)),
            None => Err(Error { kind: ErrorKind::Overflow, position: None }),
        }
    }

    /// Checked subtraction: `Overflow` when `rhs` is the larger.
    pub fn checked_sub(self, rhs: Length) -> (res: Result<Length, Error>)
        ensures
            res == self.spec_checked_sub(rhs),
    {
        match self.0.checked_sub(rhs.0) {
            Some(difference) => Ok(Length(difference)),
            None => Err(Error { kind: ErrorKind::Overflow, position: None }),
        }
    }

    /// Checked multiplication: `Overflow` when the product exceeds the
    /// largest length.
    pub fn checked_mul(self, rhs: Length) -> (res: Result<Length, Error>)
        ensures
            res == self.spec_checked_mul(rhs),
    {
        match self.0.checked_mul(rhs.0) {
            Some(product) => Ok(Length(product)),
            None => Err(Error { kind: ErrorKind::Overflow, position: None }),
        }
    }

    /// Sum of two lengths, or the largest length where the sum exceeds it.
    pub open spec fn spec_saturating_add(self, rhs: Length) -> Length {
        if self@ + rhs@ <= Self::spec_max() {
            Self::of(self@ + rhs@)
        } else {
            Self::of(Self::spec_max())
        }
    }

    /// Saturating addition: the sum, or the largest length where the sum
    /// would exceed it.
    pub fn saturating_add(self, rhs: Length) -> (sum: Length)
        ensures
            sum == self.spec_saturating_add(rhs),
    {
        Length(self.0.saturating_add(rhs.0))
    }

    /// Saturating subtraction: the difference, or zero where `rhs` is the
    /// larger. This is how a remaining length is computed.
    pub fn saturating_sub(self, rhs: Length) -> (difference: Length)
        ensures
            difference@ == if rhs@ <= self@ {
                self@ - rhs@
            } else {
                0
            },
    {
        Length(self.0.saturating_sub(rhs.0))
    }
}

impl From<u8> for Length {
    fn from(value: u8) -> (len: Length) {
        Length(value as u32)
    }
}

impl vstd::std_specs::convert::FromSpecImpl<u8> for Length {
    open spec fn obeys_from_spec() -> bool {
        true
    }

    open spec fn from_spec(value: u8) -> Length {
        Length(value as u32)
    }
}

impl From<u16> for Length {
    fn from(value: u16) -> (len: Length) {
        Length(value as u32)
    }
}

impl vstd::std_specs::convert::FromSpecImpl<u16> for Length {
    open spec fn obeys_from_spec() -> bool {
        true
    }

    open spec fn from_spec(value: u16) -> Length {
        Length(value as u32)
    }
}

impl From<u32> for Length {
    fn from(value: u32) -> (len: Length) {
        Length(value)
    }
}

impl vstd::std_specs::convert::FromSpecImpl<u32> for Length {
    open spec fn obeys_from_spec() -> bool {
        true
    }

    open spec fn from_spec(value: u32) -> Length {
        Length(value)
    }
}

impl TryFrom<usize> for Length {
    type Error = Error;

    fn try_from(value: usize) -> (res: Result<Length, Error>) {
        Length::try_from_usize(value)
    }
}

impl vstd::std_specs::convert::TryFromSpecImpl<usize> for Length {
    open spec fn obeys_try_from_spec() -> bool {
        true
    }

    open spec fn try_from_spec(value: usize) -> Result<Length, Error> {
        if value <= Length::spec_max() {
            Ok(Length::of(value as nat))
        } else {
            Err(Length::overflow())
        }
    }
}

impl Length {
    /// The octet that opens the long form of this length, which says how
    /// many octets follow; none where the length has the short form.
    pub open spec fn spec_initial_octet(self) -> Option<u8> {
        if self@ < 0x80 {
            None
        } else if self@ <= 0xFF {
            Some(0x81)
        } else if self@ <= 0xFFFF {
            Some(0x82)
        } else if self@ <= 0xFF_FFFF {
            Some(0x83)
        } else {
            Some(0x84)
        }
    }

    /// Reading `left` octets of a length in the long form, the most
    /// significant first; `value` is what the octets read so far make.
    pub open spec fn spec_read_octets(c: Cursor, value: nat, left: nat) -> Step<u32>
        decreases left,
    {
        if left == 0 {
            Step { result: Ok(value as u32), cursor: c }
        } else {
            let next = c.read_byte();
            match next.result {
                Err(err) => Step { result: Err(err), cursor: next.cursor },
                Ok(byte) => Self::spec_read_octets(
                    next.cursor,
                    value * 0x100 + byte as nat,
                    (left - 1) as nat,
                ),
            }
        }
    }

    /// Reading a length. The indefinite form fails with `IndefiniteLength`;
    /// a long form of more than four octets fails with the error `overlong`;
    /// one that takes more octets than the length needs fails with the
    /// error `not_minimal`.
    pub open spec fn spec_decode_with(
        c: Cursor,
        overlong: ErrorKind,
        not_minimal: ErrorKind,
    ) -> Step<Length> {
        let first = c.read_byte();
        match first.result {
            Err(err) => Step { result: Err(err), cursor: first.cursor },
            Ok(byte) => if byte < 0x80 {
                Step { result: Ok(Length(byte as u32)), cursor: first.cursor }
            } else if byte == 0x80 {
                Step {
                    result: Err(first.cursor.error(ErrorKind::IndefiniteLength)),
                    cursor: first.cursor.fail(),
                }
            } else if byte > 0x84 {
                Step { result: Err(first.cursor.error(overlong)), cursor: first.cursor.fail() }
            } else {
                let octets = Self::spec_read_octets(first.cursor, 0, (byte - 0x80) as nat);
                match octets.result {
                    Err(err) => Step { result: Err(err), cursor: octets.cursor },
                    Ok(value) => if Length(value).spec_initial_octet() == Some(byte) {
                        Step { result: Ok(Length(value)), cursor: octets.cursor }
                    } else {
                        Step {
                            result: Err(octets.cursor.error(not_minimal)),
                            cursor: octets.cursor.fail(),
                        }
                    },
                }
            },
        }
    }

    /// The octet that opens the long form of this length; none where the
    /// length has the short form.
    #[verifier::when_used_as_spec(spec_initial_octet)]
    pub fn initial_octet(self) -> (octet: Option<u8>)
        ensures
            octet == self.spec_initial_octet(),
    {
        if self.0 < 0x80 {
            None
        } else if self.0 <= 0xFF {
            Some(0x81)
        } else if self.0 <= 0xFFFF {
            Some(0x82)
        } else if self.0 <= 0xFF_FFFF {
            Some(0x83)
        } else {
            Some(0x84)
        }
    }

    /// Read a length, reporting a long form of more than four octets as
    /// `overlong` and one that is not minimal as `not_minimal`.
    pub fn decode_with<'a, R: Reader<'a>>(
        reader: &mut R,
        overlong: ErrorKind,
        not_minimal: ErrorKind,
    ) -> (res: Result<Length, Error>)
        requires
            old(reader).inv(),
        ensures
            final(reader).inv(),
            old(reader)@.leads_to(final(reader)@),
            res == Self::spec_decode_with(old(reader)@, overlong, not_minimal).result,
            final(reader)@ == Self::spec_decode_with(old(reader)@, overlong, not_minimal).cursor,
    {
        proof {
            reader.lemma_inv();
        }
        let first = reader.read_byte()?;
        if first < 0x80 {
            Ok(Length(first as u32))
        } else if first == 0x80 {
            Err(reader.error(ErrorKind::IndefiniteLength))
        } else if first > 0x84 {
            Err(reader.error(overlong))
        } else {
            let nbytes = first - 0x80;
            let ghost start = reader@;
            let mut decoded_len: u32 = 0;
            let mut i: u8 = 0;
            while i < nbytes
                invariant
                    i <= nbytes <= 4,
                    nbytes == first - 0x80,
                    reader.inv(),
                    old(reader)@.read_byte().result == Ok::<u8, Error>(first),
                    old(reader)@.read_byte().cursor == start,
                    old(reader)@.leads_to(start),
                    start.leads_to(reader@),
                    i == 0 ==> decoded_len == 0,
                    i == 1 ==> decoded_len < 0x100,
                    i == 2 ==> decoded_len < 0x1_0000,
                    i == 3 ==> decoded_len < 0x100_0000,
                    Self::spec_read_octets(start, 0, nbytes as nat) == Self::spec_read_octets(
                        reader@,
                        decoded_len as nat,
                        (nbytes - i) as nat,
                    ),
                decreases nbytes - i,
            {
                proof {
                    reader.lemma_inv();
                }
                let byte = reader.read_byte()?;
                assert((decoded_len << 8) | (byte as u32) == decoded_len * 0x100 + byte)
                    by (bit_vector)
                    requires
                        decoded_len < 0x100_0000,
                ;
                decoded_len = (decoded_len << 8) | (byte as u32);
                i += 1;
            }
            let length = Length(decoded_len);
            if length.initial_octet() == Some(first) {
                Ok(length)
            } else {
                Err(reader.error(not_minimal))
            }
        }
    }
}

impl Encode for Length {
    /// The encoding of a length. Below 128 it is the length itself in one
    /// octet, the short form. From there on it is the long form: an octet
    /// that holds 128 plus the number of octets that follow, and in these
    /// the length, big-endian, in as few octets as it takes.
    open spec fn encoding(&self) -> Seq<u8> {
        let value = self.0;
        if value < 0x80 {
            seq![value as u8]
        } else if value <= 0xFF {
            seq![0x81u8, value as u8]
        } else if value <= 0xFFFF {
            seq![0x82u8, (value / 0x100) as u8, (value % 0x100) as u8]
        } else if value <= 0xFF_FFFF {
            seq![
                0x83u8,
                (value / 0x1_0000) as u8,
                ((value / 0x100) % 0x100) as u8,
                (value % 0x100) as u8,
            ]
        } else {
            seq![
                0x84u8,
                (value / 0x100_0000) as u8,
                ((value / 0x1_0000) % 0x100) as u8,
                ((value / 0x100) % 0x100) as u8,
                (value % 0x100) as u8,
            ]
        }
    }

    /// Encoding a length is one write of its encoding.
    open spec fn encode_spec(&self, sink: Sink) -> Written {
        sink.write(self.encoding())
    }

    proof fn lemma_encode(&self, sink: Sink) {
    }

    fn encoded_len(&self) -> (res: Result<Length, Error>) {
        match self.initial_octet() {
            None => Ok(Length(1)),
            Some(octet) => Ok(Length((1 + octet - 0x80) as u32)),
        }
    }

    fn encode<W: Writer>(&self, writer: &mut W) -> (res: Result<(), Error>) {
        let value = self.0;
        if value < 0x80 {
            let octets = [value as u8];
            assert(octets@ =~= self.encoding());
            writer.write(octets.as_slice())
        } else if value <= 0xFF {
            let octets = [0x81u8, value as u8];
            assert(octets@ =~= self.encoding());
            writer.write(octets.as_slice())
        } else if value <= 0xFFFF {
            let octets = [0x82u8, (value / 0x100) as u8, (value % 0x100) as u8];
            assert(octets@ =~= self.encoding());
            writer.write(octets.as_slice())
        } else if value <= 0xFF_FFFF {
            let octets = [
                0x83u8,
                (value / 0x1_0000) as u8,
                ((value / 0x100) % 0x100) as u8,
                (value % 0x100) as u8,
            ];
            assert(octets@ =~= self.encoding());
            writer.write(octets.as_slice())
        } else {
            let octets = [
                0x84u8,
                (value / 0x100_0000) as u8,
                ((value / 0x1_0000) % 0x100) as u8,
                ((value / 0x100) % 0x100) as u8,
                (value % 0x100) as u8,
            ];
            assert(octets@ =~= self.encoding());
            writer.write(octets.as_slice())
        }
    }
}

impl<'a> Decode<'a> for Length {
    /// Reading a length: as `spec_decode_with` says, where a long form of
    /// too many octets and one that is not minimal both fail with
    /// `Overlength`.
    open spec fn decode_spec(c: Cursor) -> Step<Length> {
        Self::spec_decode_with(c, ErrorKind::Overlength, ErrorKind::Overlength)
    }

    fn decode<R: Reader<'a>>(reader: &mut R) -> (res: Result<Length, Error>) {
        Length::decode_with(reader, ErrorKind::Overlength, ErrorKind::Overlength)
    }
}

/// Reading the octets of a length comes to the same from a cursor and from
/// one that it mirrors, but for the shift.
pub proof fn lemma_read_octets_mirrors(a: Cursor, b: Cursor, value: nat, left: nat, budget: nat)
    requires
        a.mirrors(b, budget),
        left <= budget,
    ensures
        steps_mirror(
            a,
            b,
            Length::spec_read_octets(a, value, left),
            Length::spec_read_octets(b, value, left),
            budget,
        ),
    decreases left,
{
    if left == 0 {
        assert(a.advance(0) == a);
    } else {
        lemma_mirrors_read_byte(a, b, budget);
        let first = a.read_byte();
        if first.result is Ok {
            let byte = first.result->Ok_0;
            let next = value * 0x100 + byte as nat;
            let a1 = first.cursor;
            let b1 = b.read_byte().cursor;
            lemma_read_octets_mirrors(a1, b1, next, (left - 1) as nat, (budget - 1) as nat);
            let on_a = Length::spec_read_octets(a1, next, (left - 1) as nat);
            let read = (on_a.cursor.position - a1.position) as nat;
            assert(a1 == a.advance(1));
            assert(a.advance(1).advance(read) == a.advance(1 + read));
        }
    }
}

/// Reading a length comes to the same from a cursor and from one that it
/// mirrors, but for the shift.
pub proof fn lemma_length_mirrors(
    a: Cursor,
    b: Cursor,
    overlong: ErrorKind,
    not_minimal: ErrorKind,
    budget: nat,
)
    requires
        a.mirrors(b, budget),
        budget >= 5,
        overlong.spec_nested(Length::of((b.position - a.position) as nat)) == overlong,
        not_minimal.spec_nested(Length::of((b.position - a.position) as nat)) == not_minimal,
    ensures
        steps_mirror(
            a,
            b,
            Length::spec_decode_with(a, overlong, not_minimal),
            Length::spec_decode_with(b, overlong, not_minimal),
            budget,
        ),
{
    lemma_mirrors_read_byte(a, b, budget);
    let first = a.read_byte();
    if first.result is Ok {
        let byte = first.result->Ok_0;
        let a1 = first.cursor;
        let b1 = b.read_byte().cursor;
        assert(a1 == a.advance(1));
        if 0x80 < byte <= 0x84 {
            let count = (byte - 0x80) as nat;
            lemma_read_octets_mirrors(a1, b1, 0, count, (budget - 1) as nat);
            let on_a = Length::spec_read_octets(a1, 0, count);
            let read = (on_a.cursor.position - a1.position) as nat;
            assert(a.advance(1).advance(read) == a.advance(1 + read));
        }
    }
}

/// Reading the octets of a length that fails marks a strict reader as
/// failed, and a reader that is marked stays so.
pub proof fn lemma_read_octets_fail_closed(c: Cursor, value: nat, left: nat)
    ensures
        c.strict && Length::spec_read_octets(c, value, left).result is Err
            ==> Length::spec_read_octets(c, value, left).cursor.failed,
        c.failed ==> Length::spec_read_octets(c, value, left).cursor.failed,
        c.failed && left > 0 ==> Length::spec_read_octets(c, value, left).result is Err,
        Length::spec_read_octets(c, value, left).cursor.strict == c.strict,
        !c.failed && Length::spec_read_octets(c, value, left).result is Ok
            ==> !Length::spec_read_octets(c, value, left).cursor.failed,
    decreases left,
{
    if left > 0 {
        let next = c.read_byte();
        if next.result is Ok {
            lemma_read_octets_fail_closed(
                next.cursor,
                value * 0x100 + next.result->Ok_0 as nat,
                (left - 1) as nat,
            );
        }
    }
}

/// Reading a length that fails marks a strict reader as failed, and on a
/// reader that is marked it fails and leaves the mark; reading that
/// succeeds marks no reader.
pub proof fn lemma_length_fail_closed(c: Cursor, overlong: ErrorKind, not_minimal: ErrorKind)
    ensures
        c.strict && Length::spec_decode_with(c, overlong, not_minimal).result is Err
            ==> Length::spec_decode_with(c, overlong, not_minimal).cursor.failed,
        c.failed ==> Length::spec_decode_with(c, overlong, not_minimal).result is Err
            && Length::spec_decode_with(c, overlong, not_minimal).cursor.failed,
        Length::spec_decode_with(c, overlong, not_minimal).cursor.strict == c.strict,
        !c.failed && Length::spec_decode_with(c, overlong, not_minimal).result is Ok
            ==> !Length::spec_decode_with(c, overlong, not_minimal).cursor.failed,
{
    let first = c.read_byte();
    if first.result is Ok {
        let byte = first.result->Ok_0;
        if 0x80 < byte <= 0x84 {
            lemma_read_octets_fail_closed(first.cursor, 0, (byte - 0x80) as nat);
        }
    }
}

/// One step of reading the octets of a length: where the next octet can be
/// read, it adds eight bits to the value.
proof fn lemma_read_octets_step(c: Cursor, value: nat, left: nat, byte: u8)
    requires
        c.wf(),
        !c.failed,
        c.position < c.end,
        c.input[c.position as int] == byte,
        left > 0,
    ensures
        Length::spec_read_octets(c, value, left) == Length::spec_read_octets(
            c.advance(1),
            value * 0x100 + byte as nat,
            (left - 1) as nat,
        ),
{
    assert(c.read_byte().result == Ok::<u8, Error>(byte));
}

/// Decoding a length is the inverse of encoding it: where the octets at the
/// position of a cursor are the encoding of `length`, reading a length
/// yields `length` and leaves the cursor behind them.
pub proof fn lemma_length_round_trip(
    length: Length,
    c: Cursor,
    overlong: ErrorKind,
    not_minimal: ErrorKind,
)
    requires
        c.wf(),
        !c.failed,
        c.starts_with(length.encoding()),
    ensures
        Length::spec_decode_with(c, overlong, not_minimal) == (Step {
            result: Ok::<Length, Error>(length),
            cursor: c.advance(length.encoding().len()),
        }),
{
    let octets = length.encoding();
    let value = length.0;
    let p = c.position as int;
    assert forall|i: int| 0 <= i < octets.len() implies c.input[p + i] == octets[i] by {
        assert(c.input.subrange(p, p + octets.len())[i] == octets[i]);
    }
    assert(c.read_byte().result == Ok::<u8, Error>(octets[0]));
    let c1 = c.advance(1);
    if value >= 0x80 {
        let count = (octets.len() - 1) as nat;
        lemma_read_octets_step(c1, 0, count, octets[1]);
        let c2 = c1.advance(1);
        assert(c2 == c.advance(2));
        if value > 0xFF {
            lemma_read_octets_step(c2, octets[1] as nat, (count - 1) as nat, octets[2]);
            let c3 = c2.advance(1);
            assert(c3 == c.advance(3));
            let v2 = octets[1] as nat * 0x100 + octets[2] as nat;
            if value > 0xFFFF {
                lemma_read_octets_step(c3, v2, (count - 2) as nat, octets[3]);
                let c4 = c3.advance(1);
                assert(c4 == c.advance(4));
                let v3 = v2 * 0x100 + octets[3] as nat;
                if value > 0xFF_FFFF {
                    lemma_read_octets_step(c4, v3, (count - 3) as nat, octets[4]);
                    assert(c4.advance(1) == c.advance(5));
                    assert(v3 * 0x100 + octets[4] as nat == value);
                } else {
                    assert(v3 == value);
                }
            } else {
                assert(v2 == value);
            }
        }
    }
}

} // verus!
