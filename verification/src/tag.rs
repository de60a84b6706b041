//! Tags: the identifier octets that open every encoded element.

pub mod class;
pub mod laws;
pub mod mode;
pub mod number;

pub use self::class::Class;
pub use self::laws::{
    lemma_number_round_trip, lemma_parse_number_agrees, lemma_peek_decode, lemma_tag_agrees,
    lemma_tag_fail_closed, lemma_tag_mirrors, lemma_tag_round_trip, lemma_window_agrees,
};
pub use self::mode::TagMode;
pub use self::number::TagNumber;

use crate::decode::Decode;
use crate::encode::Encode;
use crate::error::{Error, ErrorKind};
use crate::length::Length;
use crate::reader::slice::SliceReader;
use crate::text::spec_decimal;
use crate::reader::{Cursor, Reader, Step};
use crate::writer::{Sink, Writer, Written};
use vstd::slice::slice_subrange;
use core::cmp::Ordering;
use vstd::prelude::*;

verus! {

/// Bit of the leading octet that marks the constructed form.
pub const CONSTRUCTED_FLAG: u8 = 0b100000;

/// Types that are always encoded with one and the same tag.
pub trait FixedTag {
    /// The tag of every value of this type.
    spec fn spec_fixed_tag() -> Tag;

    /// The tag of every value of this type.
    fn fixed_tag() -> (tag: Tag)
        ensures
            tag == Self::spec_fixed_tag(),
    ;
}

/// Types that know the tag they are encoded with.
pub trait Tagged {
    /// The tag that this value is encoded with.
    spec fn spec_tag(&self) -> Tag;

    /// The tag that this value is encoded with.
    fn tag(&self) -> (tag: Tag)
        ensures
            tag == self.spec_tag(),
    ;
}

impl<T: FixedTag> Tagged for T {
    open spec fn spec_tag(&self) -> Tag {
        T::spec_fixed_tag()
    }

    fn tag(&self) -> (tag: Tag) {
        T::fixed_tag()
    }
}

/// A tag: class, primitive or constructed form, and number.
///
/// The universal types that this library knows have a variant each; the
/// other three classes carry the form and the number.
#[derive(Clone, Copy, Debug, PartialEq, Eq, Structural, PartialOrd, Ord, Hash)]
#[non_exhaustive]
pub enum Tag {
    /// `BOOLEAN`: universal 1.
    Boolean,
    /// `INTEGER`: universal 2.
    Integer,
    /// `BIT STRING`: universal 3.
    BitString,
    /// `OCTET STRING`: universal 4.
    OctetString,
    /// `NULL`: universal 5.
    Null,
    /// `OBJECT IDENTIFIER`: universal 6.
    ObjectIdentifier,
    /// `REAL`: universal 9.
    Real,
    /// `ENUMERATED`: universal 10.
    Enumerated,
    /// `UTF8String`: universal 12.
    Utf8String,
    /// `SEQUENCE` and `SEQUENCE OF`: universal 16, constructed.
    Sequence,
    /// `SET` and `SET OF`: universal 17, constructed.
    SetOf,
    /// `NumericString`: universal 18.
    NumericString,
    /// `PrintableString`: universal 19.
    PrintableString,
    /// `TeletexString`: universal 20.
    TeletexString,
    /// `VideotexString`: universal 21.
    VideotexString,
    /// `IA5String`: universal 22.
    Ia5String,
    /// `UTCTime`: universal 23.
    UtcTime,
    /// `GeneralizedTime`: universal 24.
    GeneralizedTime,
    /// `VisibleString`: universal 26.
    VisibleString,
    /// `GeneralString`: universal 27.
    GeneralString,
    /// `BMPString`: universal 30.
    BmpString,
    /// A tag of the application class.
    Application {
        /// Constructed, as opposed to primitive?
        constructed: bool,
        /// Number within the class.
        number: TagNumber,
    },
    /// A tag of the context-specific class.
    ContextSpecific {
        /// Constructed, as opposed to primitive?
        constructed: bool,
        /// Number within the class.
        number: TagNumber,
    },
    /// A tag of the private class.
    Private {
        /// Constructed, as opposed to primitive?
        constructed: bool,
        /// Number within the class.
        number: TagNumber,
    },
}

/// Number of octets that a tag with the given number takes.
pub open spec fn spec_tag_length(number: u16) -> nat {
    if number <= 30 {
        1
    } else if number < 0x80 {
        2
    } else if number < 0x4000 {
        3
    } else {
        4
    }
}

/// The octets that continue a tag number above 30: its groups of seven
/// bits, the most significant first, each but the last with the high bit
/// set.
pub open spec fn spec_number_octets(number: u16) -> Seq<u8> {
    if number < 0x80 {
        seq![number as u8]
    } else if number < 0x4000 {
        seq![(0x80 + number / 0x80) as u8, (number % 0x80) as u8]
    } else {
        seq![
            (0x80 + number / 0x4000) as u8,
            (0x80 + (number / 0x80) % 0x80) as u8,
            (number % 0x80) as u8,
        ]
    }
}

/// The octets of a tag with the given leading bits and number: the leading
/// octet holds the number itself up to 30; above that its five low bits are
/// all set and the number follows.
pub open spec fn spec_tag_octets(lead: u8, number: u16) -> Seq<u8> {
    if number <= 30 {
        seq![(lead + number) as u8]
    } else {
        seq![(lead + 0x1F) as u8] + spec_number_octets(number)
    }
}

/// Reading the octets that continue a tag number, the most significant
/// group of seven bits first. `number` is what the octets read so far make,
/// and at most `left` octets may follow: fails with `TagNumberInvalid` where
/// the number does not end within them, or exceeds the largest tag number.
pub open spec fn spec_parse_number(c: Cursor, number: nat, left: nat) -> Step<u16>
    decreases left,
{
    if left == 0 || number * 0x80 > u16::MAX {
        Step { result: Err(c.error(ErrorKind::TagNumberInvalid)), cursor: c.fail() }
    } else {
        let next = c.read_byte();
        match next.result {
            Err(err) => Step { result: Err(err), cursor: next.cursor },
            Ok(byte) => {
                let number = number * 0x80 + byte % 0x80;
                if byte < 0x80 {
                    Step { result: Ok(number as u16), cursor: next.cursor }
                } else {
                    spec_parse_number(next.cursor, number as nat, (left - 1) as nat)
                }
            },
        }
    }
}

/// Reading form and number of a tag whose leading octet is `first_byte`:
/// the bit `CONSTRUCTED_FLAG` gives the form; the five low bits give the
/// number, or, all set, announce that the number follows in further octets.
pub open spec fn spec_parse_parts(first_byte: u8, c: Cursor) -> Step<(bool, TagNumber)> {
    let constructed = (first_byte / 0x20) % 2 == 1;
    let low = first_byte % 0x20;
    if low != 0x1F {
        Step { result: Ok((constructed, TagNumber(low as u16))), cursor: c }
    } else {
        let number = spec_parse_number(c, 0, (Tag::MAX_SIZE - 1) as nat);
        match number.result {
            Err(err) => Step { result: Err(err), cursor: number.cursor },
            Ok(number_value) => Step {
                result: Ok((constructed, TagNumber(number_value))),
                cursor: number.cursor,
            },
        }
    }
}

impl Tag {
    /// Largest number of octets in the encoding of a tag.
    pub const MAX_SIZE: usize = 4;

    /// The class of this tag.
    pub open spec fn spec_class(self) -> Class {
        match self {
            Tag::Application { .. } => Class::Application,
            Tag::ContextSpecific { .. } => Class::ContextSpecific,
            Tag::Private { .. } => Class::Private,
            _ => Class::Universal,
        }
    }

    /// The number of this tag within its class.
    pub open spec fn spec_number(self) -> TagNumber {
        match self {
            Tag::Boolean => TagNumber(1),
            Tag::Integer => TagNumber(2),
            Tag::BitString => TagNumber(3),
            Tag::OctetString => TagNumber(4),
            Tag::Null => TagNumber(5),
            Tag::ObjectIdentifier => TagNumber(6),
            Tag::Real => TagNumber(9),
            Tag::Enumerated => TagNumber(10),
            Tag::Utf8String => TagNumber(12),
            Tag::Sequence => TagNumber(16),
            Tag::SetOf => TagNumber(17),
            Tag::NumericString => TagNumber(18),
            Tag::PrintableString => TagNumber(19),
            Tag::TeletexString => TagNumber(20),
            Tag::VideotexString => TagNumber(21),
            Tag::Ia5String => TagNumber(22),
            Tag::UtcTime => TagNumber(23),
            Tag::GeneralizedTime => TagNumber(24),
            Tag::VisibleString => TagNumber(26),
            Tag::GeneralString => TagNumber(27),
            Tag::BmpString => TagNumber(30),
            Tag::Application { number, .. } => number,
            Tag::ContextSpecific { number, .. } => number,
            Tag::Private { number, .. } => number,
        }
    }

    /// Is this tag of the constructed form?
    pub open spec fn spec_is_constructed(self) -> bool {
        match self {
            Tag::Sequence | Tag::SetOf => true,
            Tag::Application { constructed, .. }
            | Tag::ContextSpecific { constructed, .. }
            | Tag::Private { constructed, .. } => constructed,
            _ => false,
        }
    }

    /// Class and form of this tag as the three high bits of the leading
    /// octet.
    pub open spec fn spec_lead(self) -> u8 {
        if self.spec_is_constructed() {
            (self.spec_class().spec_bits() + CONSTRUCTED_FLAG) as u8
        } else {
            self.spec_class().spec_bits()
        }
    }

    /// The universal tag whose encoding is the single octet `byte`, if
    /// there is one.
    pub open spec fn universal(byte: u8) -> Option<Tag> {
        match byte {
            0x01 => Some(Tag::Boolean),
            0x02 => Some(Tag::Integer),
            0x03 => Some(Tag::BitString),
            0x04 => Some(Tag::OctetString),
            0x05 => Some(Tag::Null),
            0x06 => Some(Tag::ObjectIdentifier),
            0x09 => Some(Tag::Real),
            0x0A => Some(Tag::Enumerated),
            0x0C => Some(Tag::Utf8String),
            0x12 => Some(Tag::NumericString),
            0x13 => Some(Tag::PrintableString),
            0x14 => Some(Tag::TeletexString),
            0x15 => Some(Tag::VideotexString),
            0x16 => Some(Tag::Ia5String),
            0x17 => Some(Tag::UtcTime),
            0x18 => Some(Tag::GeneralizedTime),
            0x1A => Some(Tag::VisibleString),
            0x1B => Some(Tag::GeneralString),
            0x1E => Some(Tag::BmpString),
            0x30 => Some(Tag::Sequence),
            0x31 => Some(Tag::SetOf),
            _ => None,
        }
    }

    /// The tag of the class that the two high bits of `first_byte` name,
    /// which is not the universal class, with the given form and number.
    pub open spec fn with_class_of(first_byte: u8, constructed: bool, number: TagNumber) -> Tag {
        if first_byte < 0x80 {
            Tag::Application { constructed, number }
        } else if first_byte < 0xC0 {
            Tag::ContextSpecific { constructed, number }
        } else {
            Tag::Private { constructed, number }
        }
    }

    /// The tag whose encoding is the first `size` octets of `window`, or
    /// failing that the first `size + 1`, and so on up to the widest tag.
    pub open spec fn spec_peek_from(window: Seq<u8>, size: nat) -> Option<Tag>
        decreases Tag::MAX_SIZE + 1 - size,
    {
        if size > Tag::MAX_SIZE || size > window.len() {
            None
        } else {
            let step = Tag::decode_spec(Cursor::over(window.take(size as int)));
            match step.result {
                Ok(tag) if step.cursor.is_finished() => Some(tag),
                _ => Self::spec_peek_from(window, size + 1),
            }
        }
    }

    /// Looking at the tag ahead, given the window of the reader and its
    /// position: nothing where the window is empty; the tag that begins the
    /// window; or `TagNumberInvalid` where none does.
    pub open spec fn spec_peek_optional(c: Cursor) -> Result<Option<Tag>, Error> {
        if c.window().len() == 0 {
            Ok(None)
        } else {
            match Self::spec_peek_from(c.window(), 1) {
                Some(tag) => Ok(Some(tag)),
                None => Err(ErrorKind::TagNumberInvalid.spec_at(Length::of(c.position))),
            }
        }
    }

    /// Look at the tag ahead without reading it: where there is one, it is
    /// the tag that decoding would yield.
    ///
    /// Fails with `Incomplete` where nothing is ahead, and with
    /// `TagNumberInvalid` where what is ahead begins with no tag.
    pub fn peek<'a, R: Reader<'a>>(reader: &R) -> (res: Result<Tag, Error>)
        requires
            reader.inv(),
        ensures
            res == match Self::spec_peek_optional(reader@) {
                Ok(Some(tag)) => Ok::<Tag, Error>(tag),
                Ok(None) => Err(Error::spec_incomplete(Length::of(reader@.end))),
                Err(err) => Err(err),
            },
            res matches Ok(tag) ==> Tag::decode_spec(reader@).result == Ok::<Tag, Error>(tag),
    {
        proof {
            reader.lemma_inv();
        }
        match Self::peek_optional(reader)? {
            Some(tag) => Ok(tag),
            None => Err(Error::incomplete(reader.input_len())),
        }
    }

    /// Look at the tag ahead without reading it; `None` where nothing is
    /// ahead.
    ///
    /// The tag is decoded from the first octet ahead, then from the first
    /// two, and so on up to the widest tag. Fails with `TagNumberInvalid`
    /// where none of these is the encoding of a tag.
    pub fn peek_optional<'a, R: Reader<'a>>(reader: &R) -> (res: Result<Option<Tag>, Error>)
        requires
            reader.inv(),
        ensures
            res == Self::spec_peek_optional(reader@),
            res matches Ok(Some(tag)) ==> Tag::decode_spec(reader@).result == Ok::<Tag, Error>(
                tag,
            ),
    {
        proof {
            reader.lemma_inv();
            if Self::spec_peek_optional(reader@) matches Ok(Some(_)) {
                lemma_peek_decode(reader@);
            }
        }
        let window = reader.peek_bytes();
        if window.len() == 0 {
            return Ok(None);
        }
        let mut size: usize = 1;
        while size <= Tag::MAX_SIZE && size <= window.len()
            invariant
                1 <= size <= Tag::MAX_SIZE + 1,
                0 < window@.len() <= Length::spec_max(),
                window@ == reader@.window(),
                match Self::spec_peek_optional(reader@) {
                    Ok(Some(tag)) => Tag::decode_spec(reader@).result == Ok::<Tag, Error>(tag),
                    _ => true,
                },
                Self::spec_peek_from(window@, 1) == Self::spec_peek_from(window@, size as nat),
            decreases Tag::MAX_SIZE + 1 - size,
        {
            let mut lookahead = match SliceReader::new(slice_subrange(window, 0, size)) {
                Ok(lookahead) => lookahead,
                Err(err) => return Err(err),
            };
            if let Ok(tag) = Tag::decode(&mut lookahead) {
                if lookahead.is_finished() {
                    return Ok(Some(tag));
                }
            }
            size += 1;
        }
        Err(ErrorKind::TagNumberInvalid.at(reader.position()))
    }

    /// The name of the form of a tag.
    pub open spec fn spec_form_name(constructed: bool) -> Seq<char> {
        if constructed {
            "constructed"@
        } else {
            "primitive"@
        }
    }

    /// The text for a tag of a class other than the universal: the name of
    /// the class, the number in square brackets, the form in round ones.
    pub open spec fn spec_class_text(class_name: Seq<char>, constructed: bool, number: TagNumber) -> Seq<
        char,
    > {
        class_name + " ["@ + spec_decimal(number.0 as nat) + "] ("@ + Self::spec_form_name(
            constructed,
        ) + ")"@
    }

    /// This tag as text: the name of the universal type, or class, number
    /// and form.
    pub open spec fn spec_text(self) -> Seq<char> {
        match self {
            Tag::Boolean => "BOOLEAN"@,
            Tag::Integer => "INTEGER"@,
            Tag::BitString => "BIT STRING"@,
            Tag::OctetString => "OCTET STRING"@,
            Tag::Null => "NULL"@,
            Tag::ObjectIdentifier => "OBJECT IDENTIFIER"@,
            Tag::Real => "REAL"@,
            Tag::Enumerated => "ENUMERATED"@,
            Tag::Utf8String => "UTF8String"@,
            Tag::Sequence => "SEQUENCE"@,
            Tag::SetOf => "SET"@,
            Tag::NumericString => "NumericString"@,
            Tag::PrintableString => "PrintableString"@,
            Tag::TeletexString => "TeletexString"@,
            Tag::VideotexString => "VideotexString"@,
            Tag::Ia5String => "IA5String"@,
            Tag::UtcTime => "UTCTime"@,
            Tag::GeneralizedTime => "GeneralizedTime"@,
            Tag::VisibleString => "VisibleString"@,
            Tag::GeneralString => "GeneralString"@,
            Tag::BmpString => "BMPString"@,
            Tag::Application { constructed, number } => Self::spec_class_text(
                "APPLICATION"@,
                constructed,
                number,
            ),
            Tag::ContextSpecific { constructed, number } => Self::spec_class_text(
                "CONTEXT-SPECIFIC"@,
                constructed,
                number,
            ),
            Tag::Private { constructed, number } => Self::spec_class_text(
                "PRIVATE"@,
                constructed,
                number,
            ),
        }
    }

    /// The text for a tag of a class other than the universal.
    fn class_text(class_name: &str, constructed: bool, number: TagNumber) -> (text: String)
        ensures
            text@ == Self::spec_class_text(class_name@, constructed, number),
    {
        let mut text = String::from_str(class_name);
        text.append(" [");
        text.append(number.to_string().as_str());
        text.append("] (");
        text.append(
            if constructed {
                "constructed"
            } else {
                "primitive"
            },
        );
        text.append(")");
        text
    }

    /// This tag as text: the name of the universal type, or class, number
    /// and form, as in `APPLICATION [5] (primitive)`.
    pub fn to_string(self) -> (text: String)
        ensures
            text@ == self.spec_text(),
    {
        match self {
            Tag::Boolean => String::from_str("BOOLEAN"),
            Tag::Integer => String::from_str("INTEGER"),
            Tag::BitString => String::from_str("BIT STRING"),
            Tag::OctetString => String::from_str("OCTET STRING"),
            Tag::Null => String::from_str("NULL"),
            Tag::ObjectIdentifier => String::from_str("OBJECT IDENTIFIER"),
            Tag::Real => String::from_str("REAL"),
            Tag::Enumerated => String::from_str("ENUMERATED"),
            Tag::Utf8String => String::from_str("UTF8String"),
            Tag::Sequence => String::from_str("SEQUENCE"),
            Tag::SetOf => String::from_str("SET"),
            Tag::NumericString => String::from_str("NumericString"),
            Tag::PrintableString => String::from_str("PrintableString"),
            Tag::TeletexString => String::from_str("TeletexString"),
            Tag::VideotexString => String::from_str("VideotexString"),
            Tag::Ia5String => String::from_str("IA5String"),
            Tag::UtcTime => String::from_str("UTCTime"),
            Tag::GeneralizedTime => String::from_str("GeneralizedTime"),
            Tag::VisibleString => String::from_str("VisibleString"),
            Tag::GeneralString => String::from_str("GeneralString"),
            Tag::BmpString => String::from_str("BMPString"),
            Tag::Application { constructed, number } => Self::class_text(
                "APPLICATION",
                constructed,
                number,
            ),
            Tag::ContextSpecific { constructed, number } => Self::class_text(
                "CONTEXT-SPECIFIC",
                constructed,
                number,
            ),
            Tag::Private { constructed, number } => Self::class_text("PRIVATE", constructed, number),
        }
    }

    /// The error for a value that has this tag where `expected` was wanted.
    pub open spec fn spec_unexpected_error(self, expected: Option<Tag>) -> Error {
        Error { kind: ErrorKind::TagUnexpected { expected, actual: self }, position: None }
    }

    /// Check that this tag is the expected one.
    ///
    /// Returns the tag, or on a mismatch an error of the kind
    /// [`ErrorKind::TagUnexpected`].
    pub fn assert_eq(self, expected: Tag) -> (res: Result<Tag, Error>)
        ensures
            self == expected ==> res == Ok::<Tag, Error>(self),
            self != expected ==> res == Err::<Tag, Error>(
                self.spec_unexpected_error(Some(expected)),
            ),
    {
        if self == expected {
            Ok(self)
        } else {
            Err(self.unexpected_error(Some(expected)))
        }
    }

    /// The class of this tag.
    #[verifier::when_used_as_spec(spec_class)]
    pub fn class(self) -> (class: Class)
        ensures
            class == self.spec_class(),
    {
        match self {
            Tag::Application { .. } => Class::Application,
            Tag::ContextSpecific { .. } => Class::ContextSpecific,
            Tag::Private { .. } => Class::Private,
            _ => Class::Universal,
        }
    }

    /// The number of this tag within its class.
    #[verifier::when_used_as_spec(spec_number)]
    pub fn number(self) -> (number: TagNumber)
        ensures
            number == self.spec_number(),
    {
        match self {
            Tag::Boolean => TagNumber(1),
            Tag::Integer => TagNumber(2),
            Tag::BitString => TagNumber(3),
            Tag::OctetString => TagNumber(4),
            Tag::Null => TagNumber(5),
            Tag::ObjectIdentifier => TagNumber(6),
            Tag::Real => TagNumber(9),
            Tag::Enumerated => TagNumber(10),
            Tag::Utf8String => TagNumber(12),
            Tag::Sequence => TagNumber(16),
            Tag::SetOf => TagNumber(17),
            Tag::NumericString => TagNumber(18),
            Tag::PrintableString => TagNumber(19),
            Tag::TeletexString => TagNumber(20),
            Tag::VideotexString => TagNumber(21),
            Tag::Ia5String => TagNumber(22),
            Tag::UtcTime => TagNumber(23),
            Tag::GeneralizedTime => TagNumber(24),
            Tag::VisibleString => TagNumber(26),
            Tag::GeneralString => TagNumber(27),
            Tag::BmpString => TagNumber(30),
            Tag::Application { number, .. } => number,
            Tag::ContextSpecific { number, .. } => number,
            Tag::Private { number, .. } => number,
        }
    }

    /// Is this tag of the constructed form, as opposed to the primitive?
    #[verifier::when_used_as_spec(spec_is_constructed)]
    pub fn is_constructed(self) -> (constructed: bool)
        ensures
            constructed == self.spec_is_constructed(),
    {
        match self {
            Tag::Sequence | Tag::SetOf => true,
            Tag::Application { constructed, .. }
            | Tag::ContextSpecific { constructed, .. }
            | Tag::Private { constructed, .. } => constructed,
            _ => false,
        }
    }

    /// Is this a tag of the application class?
    pub fn is_application(self) -> (yes: bool)
        ensures
            yes == (self.spec_class() == Class::Application),
    {
        matches!(self, Tag::Application { .. })
    }

    /// Is this a tag of the context-specific class?
    pub fn is_context_specific(self) -> (yes: bool)
        ensures
            yes == (self.spec_class() == Class::ContextSpecific),
    {
        matches!(self, Tag::ContextSpecific { .. })
    }

    /// Is this a tag of the private class?
    pub fn is_private(self) -> (yes: bool)
        ensures
            yes == (self.spec_class() == Class::Private),
    {
        matches!(self, Tag::Private { .. })
    }

    /// Is this a tag of the universal class?
    pub fn is_universal(self) -> (yes: bool)
        ensures
            yes == (self.spec_class() == Class::Universal),
    {
        !matches!(self, Tag::Application { .. } | Tag::ContextSpecific { .. } | Tag::Private { .. })
    }

    /// Place of this tag's class in the canonical order of tags.
    pub open spec fn class_rank(self) -> nat {
        match self.spec_class() {
            Class::Universal => 0,
            Class::Application => 1,
            Class::ContextSpecific => 2,
            Class::Private => 3,
        }
    }

    /// Canonical order of tags: by class, then primitive before
    /// constructed, then by number.
    pub open spec fn der_order(self, other: Tag) -> Ordering {
        if self.class_rank() < other.class_rank() {
            Ordering::Less
        } else if self.class_rank() > other.class_rank() {
            Ordering::Greater
        } else if !self.spec_is_constructed() && other.spec_is_constructed() {
            Ordering::Less
        } else if self.spec_is_constructed() && !other.spec_is_constructed() {
            Ordering::Greater
        } else if self.spec_number().0 < other.spec_number().0 {
            Ordering::Less
        } else if self.spec_number().0 > other.spec_number().0 {
            Ordering::Greater
        } else {
            Ordering::Equal
        }
    }

    /// Compare two tags in the canonical order, in which the members of a
    /// set are written.
    pub fn der_cmp(&self, other: &Tag) -> (res: Result<Ordering, Error>)
        ensures
            res == Ok::<Ordering, Error>(self.der_order(*other)),
    {
        let (class, other_class) = (self.class().bits(), other.class().bits());
        let (form, other_form) = (self.is_constructed(), other.is_constructed());
        let (number, other_number) = (self.number().value(), other.number().value());
        let order = if class < other_class {
            Ordering::Less
        } else if class > other_class {
            Ordering::Greater
        } else if !form && other_form {
            Ordering::Less
        } else if form && !other_form {
            Ordering::Greater
        } else if number < other_number {
            Ordering::Less
        } else if number > other_number {
            Ordering::Greater
        } else {
            Ordering::Equal
        };
        Ok(order)
    }

    /// The error for a length that the type with this tag does not allow.
    pub fn length_error(self) -> (err: Error)
        ensures
            err == (Error { kind: ErrorKind::Length { tag: self }, position: None }),
    {
        ErrorKind::Length { tag: self }.to_error()
    }

    /// The error for an encoding of the type with this tag that is not the
    /// canonical one.
    pub fn non_canonical_error(self) -> (err: Error)
        ensures
            err == (Error { kind: ErrorKind::Noncanonical { tag: self }, position: None }),
    {
        ErrorKind::Noncanonical { tag: self }.to_error()
    }

    /// The error for this tag standing where another was expected;
    /// `expected` names that other tag where there is a single one.
    pub fn unexpected_error(self, expected: Option<Tag>) -> (err: Error)
        ensures
            err == self.spec_unexpected_error(expected),
    {
        ErrorKind::TagUnexpected { expected, actual: self }.to_error()
    }

    /// The error for content that the type with this tag does not allow.
    pub fn value_error(self) -> (err: Error)
        ensures
            err == (Error { kind: ErrorKind::Value { tag: self }, position: None }),
    {
        ErrorKind::Value { tag: self }.to_error()
    }
}

impl<'a> Decode<'a> for Tag {
    /// Reading a tag: the leading octet is read; in the universal class it
    /// must be one of the known tags, else the read fails with `TagUnknown`;
    /// in the other classes form and number follow from it and from the
    /// octets that continue it.
    open spec fn decode_spec(c: Cursor) -> Step<Tag> {
        let first = c.read_byte();
        match first.result {
            Err(err) => Step { result: Err(err), cursor: first.cursor },
            Ok(byte) => if byte < 0x40 {
                match Tag::universal(byte) {
                    Some(tag) => Step { result: Ok(tag), cursor: first.cursor },
                    None => Step {
                        result: Err(first.cursor.error(ErrorKind::TagUnknown { byte })),
                        cursor: first.cursor.fail(),
                    },
                }
            } else {
                let parts = spec_parse_parts(byte, first.cursor);
                match parts.result {
                    Err(err) => Step { result: Err(err), cursor: parts.cursor },
                    Ok((constructed, number)) => Step {
                        result: Ok(Tag::with_class_of(byte, constructed, number)),
                        cursor: parts.cursor,
                    },
                }
            },
        }
    }

    fn decode<R: Reader<'a>>(reader: &mut R) -> (res: Result<Tag, Error>) {
        proof {
            reader.lemma_inv();
        }
        let first_byte = reader.read_byte()?;
        let tag = match first_byte {
            0x01 => Tag::Boolean,
            0x02 => Tag::Integer,
            0x03 => Tag::BitString,
            0x04 => Tag::OctetString,
            0x05 => Tag::Null,
            0x06 => Tag::ObjectIdentifier,
            0x09 => Tag::Real,
            0x0A => Tag::Enumerated,
            0x0C => Tag::Utf8String,
            0x12 => Tag::NumericString,
            0x13 => Tag::PrintableString,
            0x14 => Tag::TeletexString,
            0x15 => Tag::VideotexString,
            0x16 => Tag::Ia5String,
            0x17 => Tag::UtcTime,
            0x18 => Tag::GeneralizedTime,
            0x1A => Tag::VisibleString,
            0x1B => Tag::GeneralString,
            0x1E => Tag::BmpString,
            0x30 => Tag::Sequence,
            0x31 => Tag::SetOf,
            0x40..=0x7F => {
                let (constructed, number) = parse_parts(first_byte, reader)?;
                Tag::Application { constructed, number }
            },
            0x80..=0xBF => {
                let (constructed, number) = parse_parts(first_byte, reader)?;
                Tag::ContextSpecific { constructed, number }
            },
            0xC0..=0xFF => {
                let (constructed, number) = parse_parts(first_byte, reader)?;
                Tag::Private { constructed, number }
            },
            byte => return Err(reader.error(ErrorKind::TagUnknown { byte })),
        };
        Ok(tag)
    }
}

impl Encode for Tag {
    /// The encoding of a tag: class and form in the three high bits of the
    /// leading octet, and the number in its five low bits or in the octets
    /// that follow.
    open spec fn encoding(&self) -> Seq<u8> {
        spec_tag_octets(self.spec_lead(), self.spec_number().0)
    }

    /// Encoding a tag is one write of its encoding.
    open spec fn encode_spec(&self, sink: Sink) -> Written {
        sink.write(self.encoding())
    }

    proof fn lemma_encode(&self, sink: Sink) {
    }

    fn encoded_len(&self) -> (res: Result<Length, Error>) {
        Ok(tag_length(self.number().value()))
    }

    fn encode<W: Writer>(&self, writer: &mut W) -> (res: Result<(), Error>) {
        let class_bits = self.class().bits();
        let mut first_byte = class_bits;
        if self.is_constructed() {
            assert(class_bits | CONSTRUCTED_FLAG == class_bits + 0x20 && (class_bits
                | CONSTRUCTED_FLAG) & 0x1F == 0) by (bit_vector)
                requires
                    class_bits == 0x00 || class_bits == 0x40 || class_bits == 0x80 || class_bits
                        == 0xC0,
            ;
            first_byte |= CONSTRUCTED_FLAG;
        } else {
            assert(class_bits & 0x1F == 0) by (bit_vector)
                requires
                    class_bits == 0x00 || class_bits == 0x40 || class_bits == 0x80 || class_bits
                        == 0xC0,
            ;
        }
        let num = self.number().value();
        let mut buf = [0u8;4];
        let tag_bytes = tag_number_bytes(first_byte, num, &mut buf);
        writer.write(tag_bytes)
    }
}

/// Read form and number of a tag whose leading octet, `first_byte`, has been
/// read.
pub fn parse_parts<'a, R: Reader<'a>>(first_byte: u8, reader: &mut R) -> (res: Result<
    (bool, TagNumber),
    Error,
>)
    requires
        old(reader).inv(),
    ensures
        final(reader).inv(),
        old(reader)@.leads_to(final(reader)@),
        res == spec_parse_parts(first_byte, old(reader)@).result,
        final(reader)@ == spec_parse_parts(first_byte, old(reader)@).cursor,
{
    proof {
        reader.lemma_inv();
    }
    assert(first_byte & 0x20 != 0 <==> (first_byte / 0x20) % 2 == 1) by (bit_vector);
    assert(first_byte & 0x1F == first_byte % 0x20) by (bit_vector);
    let constructed = first_byte & CONSTRUCTED_FLAG != 0;
    let first_number_part = first_byte & TagNumber::MASK;

    if first_number_part != TagNumber::MASK {
        return Ok((constructed, TagNumber::new(first_number_part as u16)));
    }
    let mut multi_byte_tag_number: u16 = 0;
    let mut i: usize = 0;
    while i < Tag::MAX_SIZE - 1
        invariant
            i <= Tag::MAX_SIZE - 1,
            first_byte % 0x20 == 0x1F,
            constructed == ((first_byte / 0x20) % 2 == 1),
            reader.inv(),
            old(reader)@.leads_to(reader@),
            spec_parse_number(old(reader)@, 0, (Tag::MAX_SIZE - 1) as nat) == spec_parse_number(
                reader@,
                multi_byte_tag_number as nat,
                (Tag::MAX_SIZE - 1 - i) as nat,
            ),
        decreases Tag::MAX_SIZE - 1 - i,
    {
        proof {
            reader.lemma_inv();
        }
        let shifted = match multi_byte_tag_number.checked_mul(0x80) {
            Some(shifted) => shifted,
            None => return Err(reader.error(ErrorKind::TagNumberInvalid)),
        };
        let byte = reader.read_byte()?;
        let low: u16 = (byte & 0x7F) as u16;
        assert(byte & 0x7F == byte % 0x80) by (bit_vector);
        assert(shifted | low == shifted + low) by (bit_vector)
            requires
                shifted % 0x80 == 0,
                low < 0x80,
        ;
        assert(byte & 0x80 == 0 <==> byte < 0x80) by (bit_vector);
        multi_byte_tag_number = shifted | low;
        if byte & 0x80 == 0 {
            return Ok((constructed, TagNumber::new(multi_byte_tag_number)));
        }
        i += 1;
    }
    Err(reader.error(ErrorKind::TagNumberInvalid))
}

/// Number of octets that a tag with the given number takes.
pub fn tag_length(tag_number: u16) -> (len: Length)
    ensures
        len@ == spec_tag_length(tag_number),
{
    if tag_number <= 30 {
        Length::one()
    } else if tag_number < 0x80 {
        Length::new(2)
    } else if tag_number < 0x80 * 0x80 {
        Length::new(3)
    } else {
        Length::new(4)
    }
}

/// Write the octets of a tag with the given leading bits and number into
/// `buf`, and return the part of `buf` that they take.
pub fn tag_number_bytes(first_byte: u8, num: u16, buf: &mut [u8; 4]) -> (bytes: &[u8])
    requires
        first_byte & 0x1F == 0,
    ensures
        bytes@ == spec_tag_octets(first_byte, num),
        bytes@.len() == spec_tag_length(num),
{
    if num <= 30 {
        let low: u8 = num as u8;
        assert(first_byte | low == first_byte + low) by (bit_vector)
            requires
                first_byte & 0x1F == 0,
                low <= 30,
        ;
        buf[0] = first_byte | low;
        vstd::slice::slice_subrange(buf.as_slice(), 0, 1)
    } else {
        assert(first_byte | 0x1F == first_byte + 0x1F) by (bit_vector)
            requires
                first_byte & 0x1F == 0,
        ;
        buf[0] = first_byte | 0x1F;
        if num < 0x80 {
            buf[1] = num as u8;
            vstd::slice::slice_subrange(buf.as_slice(), 0, 2)
        } else if num < 0x80 * 0x80 {
            assert(0x80u8 | ((num >> 7) as u8) == 0x80 + num / 0x80) by (bit_vector)
                requires
                    num < 0x4000,
            ;
            assert((num & 0x7F) as u8 == num % 0x80) by (bit_vector);
            buf[1] = 0x80 | (num >> 7) as u8;
            buf[2] = (num & 0x7F) as u8;
            vstd::slice::slice_subrange(buf.as_slice(), 0, 3)
        } else {
            assert(0x80u8 | ((num >> 14) as u8) == 0x80 + num / 0x4000) by (bit_vector);
            assert(0x80u8 | ((num >> 7) as u8) == 0x80 + (num / 0x80) % 0x80) by (bit_vector);
            assert((num & 0x7F) as u8 == num % 0x80) by (bit_vector);
            buf[1] = 0x80 | (num >> 14) as u8;
            buf[2] = 0x80 | #[verifier::truncate] ((num >> 7) as u8);
            buf[3] = (num & 0x7F) as u8;
            vstd::slice::slice_subrange(buf.as_slice(), 0, 4)
        }
    }
}

} // verus!
