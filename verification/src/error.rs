//! Error types.

use crate::length::Length;
use crate::tag::Tag;
use vstd::prelude::*;

verus! {

/// What went wrong.
#[derive(Clone, Copy, Debug, PartialEq, Eq, Structural)]
pub enum ErrorKind {
    /// An earlier operation on this reader failed; the reader stays failed.
    Failed,
    /// More octets were asked for than the input holds.
    Incomplete {
        /// Length that the input would need for the read to succeed.
        expected_len: Length,
        /// Length that the input has.
        actual_len: Length,
    },
    /// A length marked as indefinite.
    IndefiniteLength,
    /// A length that the type identified by `tag` does not allow.
    Length {
        /// Tag of the type.
        tag: Tag,
    },
    /// More elements nested within one another than this library reads.
    NestingDepth,
    /// An encoding that is valid but not the canonical one.
    Noncanonical {
        /// Tag of the type.
        tag: Tag,
    },
    /// Arithmetic on lengths left the representable range.
    Overflow,
    /// A length written in more octets than it needs, or than this library
    /// reads.
    Overlength,
    /// The input cannot be borrowed from.
    Reader,
    /// A tagging mode other than explicit or implicit.
    TagModeUnknown,
    /// A tag number that does not end within the widest tag, or exceeds the
    /// largest tag number.
    TagNumberInvalid,
    /// A tag other than the one that was expected.
    TagUnexpected {
        /// The tag that was expected, if a single tag was.
        expected: Option<Tag>,
        /// The tag that was found.
        actual: Tag,
    },
    /// An octet that starts no known tag.
    TagUnknown {
        /// The offending octet.
        byte: u8,
    },
    /// Octets left over after a value that should have filled its extent.
    TrailingData {
        /// Length of what was decoded.
        decoded: Length,
        /// Length of what was left.
        remaining: Length,
    },
    /// Content that the type identified by `tag` does not allow.
    Value {
        /// Tag of the type.
        tag: Tag,
    },
}

/// An [`ErrorKind`] with the position in the input at which it was detected.
#[derive(Clone, Copy, Debug, PartialEq, Eq, Structural)]
pub struct Error {
    /// What went wrong.
    pub kind: ErrorKind,
    /// Where in the input, if the error arose while reading one.
    pub position: Option<Length>,
}

impl ErrorKind {
    /// This kind of error, detected at `position`.
    pub open spec fn spec_at(self, position: Length) -> Error {
        Error { kind: self, position: Some(position) }
    }

    /// Annotate this kind with the position at which it was detected.
    pub fn at(self, position: Length) -> (err: Error)
        ensures
            err == self.spec_at(position),
    {
        Error { kind: self, position: Some(position) }
    }

    /// This kind of error, found in an input that begins at the position
    /// `base` of another: the lengths that it holds of the input count from
    /// the start of that other. Where the length that would have been
    /// enough is then no length, the kind is `Overflow`.
    pub open spec fn spec_nested(self, base: Length) -> ErrorKind {
        match self {
            ErrorKind::Incomplete { expected_len, actual_len } => if base@ + expected_len@
                > Length::spec_max() {
                ErrorKind::Overflow
            } else {
                ErrorKind::Incomplete {
                    expected_len: Length::of(base@ + expected_len@),
                    actual_len: base.spec_saturating_add(actual_len),
                }
            },
            ErrorKind::TrailingData { decoded, remaining } => ErrorKind::TrailingData {
                decoded: base.spec_saturating_add(decoded),
                remaining,
            },
            kind => kind,
        }
    }

    /// This kind of error, found in an input that begins at the position
    /// `base` of another.
    pub fn nested(self, base: Length) -> (kind: ErrorKind)
        ensures
            kind == self.spec_nested(base),
    {
        match self {
            ErrorKind::Incomplete { expected_len, actual_len } => match base.checked_add(
                expected_len,
            ) {
                Ok(expected_len) => ErrorKind::Incomplete {
                    expected_len,
                    actual_len: base.saturating_add(actual_len),
                },
                Err(err) => err.kind(),
            },
            ErrorKind::TrailingData { decoded, remaining } => ErrorKind::TrailingData {
                decoded: base.saturating_add(decoded),
                remaining,
            },
            kind => kind,
        }
    }

    /// This kind of error, with no position.
    pub fn to_error(self) -> (err: Error)
        ensures
            err == (Error { kind: self, position: None }),
    {
        Error { kind: self, position: None }
    }
}

impl Error {
    /// The error for an input of `actual_len` octets that breaks off where
    /// one more octet was needed. Where `actual_len` is the largest length,
    /// the error is `Overflow` instead.
    pub open spec fn spec_incomplete(actual_len: Length) -> Error {
        if actual_len@ < Length::spec_max() {
            ErrorKind::Incomplete { expected_len: Length::of(actual_len@ + 1), actual_len }.spec_at(
                actual_len,
            )
        } else {
            ErrorKind::Overflow.spec_at(actual_len)
        }
    }

    /// The error for an input of `actual_len` octets that breaks off where
    /// one more octet was needed.
    pub fn incomplete(actual_len: Length) -> (err: Error)
        ensures
            err == Self::spec_incomplete(actual_len),
    {
        match actual_len.checked_add(Length::one()) {
            Ok(expected_len) => ErrorKind::Incomplete { expected_len, actual_len }.at(actual_len),
            Err(err) => err.kind().at(actual_len),
        }
    }

    /// This error, found in an input that begins at the position `base` of
    /// another: its position and the lengths that it holds count from the
    /// start of that other.
    pub open spec fn spec_nested(self, base: Length) -> Error {
        Error {
            kind: self.kind.spec_nested(base),
            position: match self.position {
                Some(position) => Some(base.spec_saturating_add(position)),
                None => None,
            },
        }
    }

    /// This error, found in an input that begins at the position `base` of
    /// another.
    pub fn nested(self, base: Length) -> (err: Error)
        ensures
            err == self.spec_nested(base),
    {
        Error {
            kind: self.kind.nested(base),
            position: match self.position {
                Some(position) => Some(base.saturating_add(position)),
                None => None,
            },
        }
    }

    /// Create an error of the given kind at the given position.
    pub fn new(kind: ErrorKind, position: Length) -> (err: Error)
        ensures
            err == kind.spec_at(position),
    {
        Error { kind, position: Some(position) }
    }

    /// What went wrong.
    pub fn kind(self) -> (kind: ErrorKind)
        ensures
            kind == self.kind,
    {
        self.kind
    }

    /// Where in the input the error was detected.
    pub fn position(self) -> (position: Option<Length>)
        ensures
            position == self.position,
    {
        self.position
    }
}

} // verus!
