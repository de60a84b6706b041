//! Number of a tag.

use crate::error::{Error, ErrorKind};
use crate::text::{parse_u16, spec_decimal, spec_parse_u16, u16_to_string};
use vstd::prelude::*;

verus! {

/// Number of a tag within its class.
///
/// Numbers up to 30 fit into the leading octet; larger ones follow it in
/// groups of seven bits. Every `u16` is a valid number.
#[derive(Clone, Copy, Debug, PartialEq, Eq, Structural, PartialOrd, Ord, Hash)]
pub struct TagNumber(pub u16);

impl TagNumber {
    /// The five low bits of the leading octet. All of them set announce that
    /// the number follows in further octets.
    pub const MASK: u8 = 0b11111;

    /// Create a tag number.
    pub fn new(value: u16) -> (number: TagNumber)
        ensures
            number == TagNumber(value),
    {
        TagNumber(value)
    }

    /// The number.
    pub fn value(self) -> (value: u16)
        ensures
            value == self.0,
    {
        self.0
    }

    /// Read a tag number in decimal: digits, one at least, after an
    /// optional `+`.
    ///
    /// Fails with `TagNumberInvalid` for any other text, and for a number
    /// above the largest tag number.
    pub fn from_str(s: &str) -> (res: Result<TagNumber, Error>)
        ensures
            res == match spec_parse_u16(s@) {
                Some(value) => Ok::<TagNumber, Error>(TagNumber(value)),
                None => Err(Error { kind: ErrorKind::TagNumberInvalid, position: None }),
            },
    {
        match parse_u16(s) {
            Some(value) => Ok(TagNumber(value)),
            None => Err(ErrorKind::TagNumberInvalid.to_error()),
        }
    }

    /// The number in decimal.
    pub fn to_string(self) -> (text: String)
        ensures
            text@ == spec_decimal(self.0 as nat),
    {
        u16_to_string(self.0)
    }
}

impl core::str::FromStr for TagNumber {
    type Err = Error;

    fn from_str(s: &str) -> (res: Result<TagNumber, Error>)
        ensures
            res == match spec_parse_u16(s@) {
                Some(value) => Ok::<TagNumber, Error>(TagNumber(value)),
                None => Err(Error { kind: ErrorKind::TagNumberInvalid, position: None }),
            },
    {
        TagNumber::from_str(s)
    }
}

} // verus!
