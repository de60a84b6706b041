//! Reader over a slice of octets.

use crate::decode::Decode;
use crate::error::{Error, ErrorKind};
use crate::length::Length;
use crate::reader::nested::NestedDecoder;
use crate::reader::{Cursor, Reader, MAX_DEPTH, PEEK_WINDOW};
use vstd::prelude::*;
use vstd::slice::slice_subrange;

verus! {

/// Rules by which the input is encoded.
#[derive(Clone, Copy, Debug, PartialEq, Eq, Structural)]
pub enum EncodingRules {
    /// Basic Encoding Rules.
    Ber,
    /// Distinguished Encoding Rules.
    Der,
}

impl Default for EncodingRules {
    fn default() -> (rules: EncodingRules)
        ensures
            rules == EncodingRules::Der,
    {
        EncodingRules::Der
    }
}

/// [`Reader`] over a borrowed slice of octets.
///
/// The reader only borrows the input: what it hands out are views into it.
/// It is strict: every operation on it that fails marks it as failed, and
/// from then on every read fails.
#[derive(Clone, Debug)]
pub struct SliceReader<'a> {
    /// The input.
    bytes: &'a [u8],
    /// Index of the first octet that may not be read: the end of the
    /// input, or of the nested element that is being read.
    end: Length,
    /// Rules by which the input is encoded.
    encoding_rules: EncodingRules,
    /// Has an operation on this reader failed?
    failed: bool,
    /// Position within the input.
    position: Length,
    /// Number of nested elements that are open.
    depth: usize,
}

impl<'a> SliceReader<'a> {
    /// The cursor that models this reader.
    pub closed spec fn view(&self) -> Cursor {
        Cursor {
            input: self.bytes@,
            end: self.end@,
            position: self.position@,
            failed: self.failed,
            depth: self.depth as nat,
            strict: true,
        }
    }

    /// The invariant of this reader: its cursor is well-formed.
    pub closed spec fn inv(&self) -> bool {
        &&& self.position@ <= self.end@ <= self.bytes@.len() <= Length::spec_max()
        &&& self.depth <= MAX_DEPTH
    }

    /// The rules by which the input is encoded.
    pub closed spec fn spec_encoding_rules(&self) -> EncodingRules {
        self.encoding_rules
    }

    /// Create a reader at the start of `bytes`, which are read as DER.
    ///
    /// Fails with `Overflow` where `bytes` is longer than the largest
    /// length.
    pub fn new(bytes: &'a [u8]) -> (res: Result<Self, Error>)
        ensures
            match res {
                Ok(reader) => {
                    &&& bytes@.len() <= Length::spec_max()
                    &&& reader.inv()
                    &&& reader@ == Cursor::over(bytes@)
                    &&& reader.spec_encoding_rules() == EncodingRules::Der
                },
                Err(err) => bytes@.len() > Length::spec_max() && err == Length::overflow(),
            },
    {
        Self::new_with_encoding_rules(bytes, EncodingRules::Der)
    }

    /// Create a reader at the start of `bytes`, which are read by the given
    /// rules.
    ///
    /// Fails with `Overflow` where `bytes` is longer than the largest
    /// length.
    pub fn new_with_encoding_rules(bytes: &'a [u8], encoding_rules: EncodingRules) -> (res: Result<
        Self,
        Error,
    >)
        ensures
            match res {
                Ok(reader) => {
                    &&& bytes@.len() <= Length::spec_max()
                    &&& reader.inv()
                    &&& reader@ == Cursor::over(bytes@)
                    &&& reader.spec_encoding_rules() == encoding_rules
                },
                Err(err) => bytes@.len() > Length::spec_max() && err == Length::overflow(),
            },
    {
        match Length::try_from_usize(bytes.len()) {
            Ok(end) => Ok(
                SliceReader {
                    bytes,
                    end,
                    encoding_rules,
                    failed: false,
                    position: Length::zero(),
                    depth: 0,
                },
            ),
            Err(err) => Err(err),
        }
    }

    /// Wrap this reader in a decoder: the first of the nested decoders,
    /// which may read all that is left.
    pub fn root_nest(self) -> (decoder: NestedDecoder<Self>)
        requires
            self.inv(),
        ensures
            decoder.inv(),
            decoder@ == (Cursor {
                input: self@.input.take(self@.end as int),
                depth: 0,
                strict: false,
                ..self@
            }),
    {
        let ghost cursor = self@;
        assert(cursor.end == cursor.input.len() ==> cursor.input.take(cursor.end as int)
            =~= cursor.input);
        NestedDecoder::root(self)
    }

    /// The rules by which the input is encoded.
    pub fn encoding_rules(&self) -> (rules: EncodingRules)
        ensures
            rules == self.spec_encoding_rules(),
    {
        self.encoding_rules
    }

    /// An error of the given kind at the position of this reader, which is
    /// marked as failed.
    pub fn error(&mut self, kind: ErrorKind) -> (err: Error)
        requires
            old(self).inv(),
        ensures
            final(self).inv(),
            err == old(self)@.error(kind),
            final(self)@ == old(self)@.fail(),
            final(self).spec_encoding_rules() == old(self).spec_encoding_rules(),
    {
        self.failed = true;
        kind.at(self.position)
    }

    /// Has an operation on this reader failed?
    pub fn is_failed(&self) -> (failed: bool)
        ensures
            failed == self@.failed,
    {
        self.failed
    }

    /// Move the position forward by `len` octets.
    fn advance(&mut self, len: Length)
        requires
            old(self).inv(),
            old(self)@.position + len@ <= old(self)@.end,
        ensures
            final(self).inv(),
            final(self)@ == old(self)@.advance(len@),
            final(self).spec_encoding_rules() == old(self).spec_encoding_rules(),
    {
        self.position = Length::new(self.position.value() + len.value());
    }

    /// The octets that are left to read; on a failed reader the error
    /// `Failed`.
    pub fn remaining(&self) -> (res: Result<&'a [u8], Error>)
        requires
            self.inv(),
        ensures
            match res {
                Ok(rest) => !self@.failed && rest@ == self@.remaining(),
                Err(err) => self@.failed && err == self@.error(ErrorKind::Failed),
            },
    {
        if self.is_failed() {
            return Err(ErrorKind::Failed.at(self.position));
        }
        Ok(slice_subrange(self.bytes, self.position.to_usize(), self.end.to_usize()))
    }
}

impl<'a> SliceReader<'a> {
    /// Create a reader over the next `len` octets, at the position of this
    /// one, which stays as it is: the reader of a nested element.
    ///
    /// Fails with `Incomplete` where fewer than `len` octets are left, and
    /// with `NestingDepth` where as many elements are open as may be; this
    /// reader is then marked as failed.
    pub fn new_nested_reader(&mut self, len: Length) -> (res: Result<Self, Error>)
        requires
            old(self).inv(),
        ensures
            final(self).inv(),
            final(self).spec_encoding_rules() == old(self).spec_encoding_rules(),
            match res {
                Ok(nested) => {
                    &&& old(self)@.depth_error(len@) is None
                    &&& final(self)@ == old(self)@
                    &&& nested.inv()
                    &&& nested@ == old(self)@.nest(len@)
                    &&& nested.spec_encoding_rules() == old(self).spec_encoding_rules()
                },
                Err(err) => {
                    &&& old(self)@.depth_error(len@) == Some(err)
                    &&& final(self)@ == old(self)@.fail()
                },
            },
    {
        let prefix_len = match self.position.checked_add(len) {
            Ok(prefix_len) => prefix_len,
            Err(err) => return Err(SliceReader::error(self, err.kind())),
        };
        if prefix_len.value() > self.end.value() {
            let actual_len = self.end;
            return Err(
                SliceReader::error(
                    self,
                    ErrorKind::Incomplete { expected_len: prefix_len, actual_len },
                ),
            );
        }
        if self.depth >= MAX_DEPTH {
            return Err(SliceReader::error(self, ErrorKind::NestingDepth));
        }
        Ok(
            SliceReader {
                bytes: self.bytes,
                end: prefix_len,
                encoding_rules: self.encoding_rules,
                failed: self.failed,
                position: self.position,
                depth: self.depth + 1,
            },
        )
    }

    /// Decode the content of a nested element of `len` octets with `f`.
    ///
    /// `f` is called on a reader whose boundary is the end of the element.
    /// If it succeeds it must have read the content to its end, else the
    /// element fails with `TrailingData`. This reader takes over the
    /// position that `f` has reached. Every failure marks it as failed;
    /// after a failure of `f` its boundary is that of the element.
    pub fn read_nested<T, F>(&mut self, len: Length, f: F) -> (res: Result<T, Error>) where
        F: FnOnce(&mut Self) -> Result<T, Error>,

        requires
            old(self).inv(),
            forall|d: &mut Self|
                {
                    &&& old(self)@.nest_error(len@) is None
                    &&& d.inv()
                    &&& d@ == old(self)@.nest(len@)
                } ==> #[trigger] call_requires(f, (d,)),
            forall|d: &mut Self, r: Result<T, Error>|
                {
                    &&& old(self)@.nest_error(len@) is None
                    &&& d.inv()
                    &&& d@ == old(self)@.nest(len@)
                    &&& #[trigger] call_ensures(f, (d,), r)
                } ==> final(d).inv() && d@.reaches(final(d)@) && (r is Ok ==> d@.leads_to(
                    final(d)@,
                )),
        ensures
            final(self).inv(),
            final(self).spec_encoding_rules() == old(self).spec_encoding_rules(),
            match old(self)@.nest_error(len@) {
                Some(err) => res == Err::<T, Error>(err) && final(self)@ == old(self)@.fail(),
                None => exists|d: &mut Self, r: Result<T, Error>|
                    {
                        &&& d.inv()
                        &&& d@ == old(self)@.nest(len@)
                        &&& #[trigger] call_ensures(f, (d,), r)
                        &&& res == final(d)@.close_nest(r, old(self)@.end).result
                        &&& final(self)@ == final(d)@.close_nest(r, old(self)@.end).cursor
                    },
            },
    {
        if self.is_failed() {
            return Err(ErrorKind::Failed.at(self.position));
        }
        let mut nested_reader = self.new_nested_reader(len)?;
        let ret = f(&mut nested_reader);
        self.position = nested_reader.position;
        self.failed = nested_reader.failed;
        match ret {
            Ok(value) => {
                match nested_reader.finish(()) {
                    Ok(_) => Ok(value),
                    Err(err) => {
                        self.failed = true;
                        Err(err)
                    },
                }
            },
            Err(err) => {
                self.end = nested_reader.end;
                self.depth = nested_reader.depth;
                self.failed = true;
                Err(err)
            },
        }
    }

    /// Decode a value of a type that can be decoded. A failure marks this
    /// reader as failed.
    pub fn decode<T: Decode<'a>>(&mut self) -> (res: Result<T, Error>)
        requires
            old(self).inv(),
        ensures
            final(self).inv(),
            old(self)@.failed ==> res == Err::<T, Error>(old(self)@.error(ErrorKind::Failed))
                && final(self)@ == old(self)@,
            !old(self)@.failed ==> res == T::decode_spec(old(self)@).result && final(self)@ == (
            if res is Err {
                T::decode_spec(old(self)@).cursor.fail()
            } else {
                T::decode_spec(old(self)@).cursor
            }),
    {
        if self.is_failed() {
            return Err(ErrorKind::Failed.at(self.position));
        }
        let res = T::decode(self);
        if res.is_err() {
            self.failed = true;
        }
        res
    }
}

impl<'a> Reader<'a> for SliceReader<'a> {
    open spec fn view(&self) -> Cursor {
        SliceReader::view(self)
    }

    open spec fn inv(&self) -> bool {
        SliceReader::inv(self)
    }

    proof fn lemma_inv(&self) {
    }

    fn input_len(&self) -> (len: Length) {
        self.end
    }

    fn peek_bytes(&self) -> (window: &[u8]) {
        if self.failed {
            slice_subrange(self.bytes, 0, 0)
        } else {
            let start = self.position.to_usize();
            let left = self.end.to_usize() - start;
            if left <= PEEK_WINDOW {
                slice_subrange(self.bytes, start, self.end.to_usize())
            } else {
                slice_subrange(self.bytes, start, start + PEEK_WINDOW)
            }
        }
    }

    fn position(&self) -> (position: Length) {
        self.position
    }

    fn read_slice(&mut self, len: Length) -> (res: Result<&'a [u8], Error>) {
        let rest = self.remaining()?;
        let end = match self.position.checked_add(len) {
            Ok(end) => end,
            Err(err) => return Err(SliceReader::error(self, err.kind())),
        };
        if len.to_usize() <= rest.len() {
            let slice = slice_subrange(rest, 0, len.to_usize());
            assert(slice@ =~= self@.input.subrange(
                self@.position as int,
                (self@.position + len@) as int,
            ));
            self.advance(len);
            Ok(slice)
        } else {
            let actual_len = self.input_len();
            Err(SliceReader::error(self, ErrorKind::Incomplete { expected_len: end, actual_len }))
        }
    }

    fn error(&mut self, kind: ErrorKind) -> (err: Error) {
        SliceReader::error(self, kind)
    }

    fn is_failed(&self) -> (failed: bool) {
        SliceReader::is_failed(self)
    }

    fn is_strict(&self) -> (strict: bool) {
        true
    }

    fn read_nested<T, F>(&mut self, len: Length, f: F) -> (res: Result<T, Error>) where
        F: FnOnce(&mut Self) -> Result<T, Error>,
     {
        SliceReader::read_nested(self, len, f)
    }
}

} // verus!
