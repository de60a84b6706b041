//! Tagging modes.

use crate::error::{Error, ErrorKind};
use crate::text::str_eq;
use vstd::prelude::*;

verus! {

/// How a context-specific tag relates to the tag of the value it announces.
#[derive(Clone, Copy, Debug, PartialEq, Eq, Structural, PartialOrd, Ord, Hash)]
pub enum TagMode {
    /// The context-specific tag and a length of its own enclose the whole
    /// encoding of the value.
    Explicit,
    /// The context-specific tag stands in place of the value's own tag.
    Implicit,
}

impl Default for TagMode {
    fn default() -> (mode: TagMode)
        ensures
            mode == TagMode::Explicit,
    {
        TagMode::Explicit
    }
}

impl TagMode {
    /// The tagging mode that `s` names: `EXPLICIT` or `IMPLICIT`, all in
    /// upper case or all in lower case.
    pub open spec fn spec_from_str(s: Seq<char>) -> Option<TagMode> {
        if s == "EXPLICIT"@ || s == "explicit"@ {
            Some(TagMode::Explicit)
        } else if s == "IMPLICIT"@ || s == "implicit"@ {
            Some(TagMode::Implicit)
        } else {
            None
        }
    }

    /// The name of this tagging mode, in upper case.
    pub open spec fn spec_as_str(self) -> Seq<char> {
        match self {
            TagMode::Explicit => "EXPLICIT"@,
            TagMode::Implicit => "IMPLICIT"@,
        }
    }

    /// Read a tagging mode from its name: `EXPLICIT` or `IMPLICIT`, all in
    /// upper case or all in lower case.
    ///
    /// Fails with `TagModeUnknown` for any other text.
    pub fn from_str(s: &str) -> (res: Result<TagMode, Error>)
        ensures
            res == match Self::spec_from_str(s@) {
                Some(mode) => Ok::<TagMode, Error>(mode),
                None => Err(Error { kind: ErrorKind::TagModeUnknown, position: None }),
            },
    {
        if str_eq(s, "EXPLICIT") || str_eq(s, "explicit") {
            Ok(TagMode::Explicit)
        } else if str_eq(s, "IMPLICIT") || str_eq(s, "implicit") {
            Ok(TagMode::Implicit)
        } else {
            Err(ErrorKind::TagModeUnknown.to_error())
        }
    }

    /// The name of this tagging mode, in upper case.
    pub fn as_str(self) -> (name: &'static str)
        ensures
            name@ == self.spec_as_str(),
    {
        match self {
            TagMode::Explicit => "EXPLICIT",
            TagMode::Implicit => "IMPLICIT",
        }
    }
}

impl core::str::FromStr for TagMode {
    type Err = Error;

    fn from_str(s: &str) -> (res: Result<TagMode, Error>)
        ensures
            res == match TagMode::spec_from_str(s@) {
                Some(mode) => Ok::<TagMode, Error>(mode),
                None => Err(Error { kind: ErrorKind::TagModeUnknown, position: None }),
            },
    {
        TagMode::from_str(s)
    }
}

} // verus!
