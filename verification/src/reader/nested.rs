//! Decoder that keeps every read within the extent of the enclosing
//! element.

use crate::decode::{Decode, DecodeValue};
use crate::error::{Error, ErrorKind};
use crate::header::Header;
use crate::length::Length;
use crate::reader::slice::SliceReader;
use crate::reader::{Cursor, Reader, Step, MAX_DEPTH, PEEK_WINDOW};
use crate::tag::{FixedTag, Tag, TagMode, TagNumber};
use core::ops::Range;
use vstd::prelude::*;
use vstd::slice::slice_subrange;

verus! {

/// Decoder over a reader, with a boundary behind which it does not read.
///
/// The boundary is the end of the element whose content is being decoded.
/// Opening a nested element moves it in, to the end of that element, and
/// finishing the element moves it back out. So no element can claim more
/// octets than the one around it has, nor more than the input holds.
///
/// The decoder checks its boundary before it touches the reader
/// underneath: a read that does not fit fails and changes nothing.
pub struct NestedDecoder<R> {
    /// The reader underneath.
    inner: R,
    /// Index of the first octet that may not be read.
    end_pos: Length,
    /// Number of nested elements that are open.
    depth: usize,
}

impl<'r, R: Reader<'r>> NestedDecoder<R> {
    /// The cursor that models this decoder: that of the reader underneath,
    /// with the boundary of this decoder. The input is what the reader
    /// underneath may read.
    pub closed spec fn view(&self) -> Cursor {
        Cursor {
            input: self.inner@.input.take(self.inner@.end as int),
            end: self.end_pos@,
            position: self.inner@.position,
            failed: self.inner@.failed,
            depth: self.depth as nat,
            strict: false,
        }
    }

    /// The invariant of this decoder: the position is within its boundary,
    /// and its boundary within that of the reader underneath.
    pub closed spec fn inv(&self) -> bool {
        &&& self.inner.inv()
        &&& self.inner@.position <= self.end_pos@ <= self.inner@.end
        &&& self.depth <= MAX_DEPTH
    }

    /// A decoder that meets its invariant has a well-formed cursor.
    pub proof fn lemma_inv(&self)
        requires
            self.inv(),
        ensures
            self@.wf(),
    {
        self.inner.lemma_inv();
    }

    /// Create a decoder over `inner` that may read the next `len` octets.
    ///
    /// Fails with `Incomplete` where `inner` has fewer than `len` octets
    /// left.
    pub fn new(inner: R, len: Length) -> (res: Result<Self, Error>)
        requires
            inner.inv(),
        ensures
            match res {
                Ok(decoder) => {
                    &&& inner@.bounds_error(len@) is None
                    &&& decoder.inv()
                    &&& decoder@ == (Cursor {
                        input: inner@.input.take(inner@.end as int),
                        end: inner@.position + len@,
                        depth: 0,
                        strict: false,
                        ..inner@
                    })
                },
                Err(err) => inner@.bounds_error(len@) == Some(err),
            },
    {
        proof {
            inner.lemma_inv();
        }
        let end_pos = Self::is_out_of_bounds(inner.readable(), len)?;
        Ok(Self { inner, end_pos, depth: 0 })
    }

    /// Create the first of the nested decoders over `inner`: it may read
    /// all that `inner` has left.
    pub fn root(inner: R) -> (decoder: Self)
        requires
            inner.inv(),
        ensures
            decoder.inv(),
            decoder@ == (Cursor {
                input: inner@.input.take(inner@.end as int),
                depth: 0,
                strict: false,
                ..inner@
            }),
    {
        proof {
            inner.lemma_inv();
        }
        let len = inner.remaining_len();
        Self::new(inner, len).unwrap()
    }

    /// The range that this decoder may still read: from the position to
    /// the boundary.
    pub fn readable(&self) -> (range: Range<Length>)
        requires
            self.inv(),
        ensures
            range.start@ == self@.position,
            range.end@ == self@.end,
    {
        self.inner.position()..self.end_pos
    }

    /// Check that `len` more octets fit within the boundary, and return the
    /// position behind them.
    pub fn check_out_of_bounds(&self, len: Length) -> (res: Result<Length, Error>)
        requires
            self.inv(),
        ensures
            match res {
                Ok(new_end) => self@.bounds_error(len@) is None && new_end@ == self@.position
                    + len@,
                Err(err) => self@.bounds_error(len@) == Some(err),
            },
    {
        proof {
            self.lemma_inv();
        }
        Self::is_out_of_bounds(self.readable(), len)
    }

    /// Check that `additional_len` octets fit into the range `readable`,
    /// and return the position behind them.
    pub fn is_out_of_bounds(readable: Range<Length>, additional_len: Length) -> (res: Result<
        Length,
        Error,
    >)
        ensures
            match res {
                Ok(new_end) => {
                    &&& new_end@ == readable.start@ + additional_len@
                    &&& new_end@ <= readable.end@
                },
                Err(err) => {
                    &&& readable.start@ + additional_len@ > readable.end@
                    &&& err == if readable.start@ + additional_len@ > Length::spec_max() {
                        ErrorKind::Overflow.spec_at(readable.start)
                    } else {
                        (ErrorKind::Incomplete {
                            expected_len: Length::of(readable.start@ + additional_len@),
                            actual_len: readable.end,
                        }).spec_at(readable.start)
                    }
                },
            },
    {
        let new_end = match readable.start.checked_add(additional_len) {
            Ok(new_end) => new_end,
            Err(err) => return Err(err.kind().at(readable.start)),
        };
        if new_end.value() > readable.end.value() {
            return Err(
                ErrorKind::Incomplete { expected_len: new_end, actual_len: readable.end }.at(
                    readable.start,
                ),
            );
        }
        Ok(new_end)
    }

    /// Position within the input.
    pub fn position(&self) -> (position: Length)
        requires
            self.inv(),
        ensures
            position@ == self@.position,
    {
        self.inner.position()
    }

    /// Number of octets that are left before the boundary.
    pub fn remaining_len(&self) -> (len: Length)
        requires
            self.inv(),
        ensures
            len@ == self@.remaining_len(),
    {
        self.end_pos.saturating_sub(self.position())
    }

    /// Has everything up to the boundary been read?
    pub fn is_finished(&self) -> (finished: bool)
        requires
            self.inv(),
        ensures
            finished == self@.is_finished(),
    {
        self.remaining_len().is_zero()
    }

    /// Has an operation on this decoder failed?
    pub fn is_failed(&self) -> (failed: bool)
        requires
            self.inv(),
        ensures
            failed == self@.failed,
    {
        self.inner.is_failed()
    }

    /// Look at the octets ahead, at most `PEEK_WINDOW` of them and none
    /// behind the boundary, without reading them.
    pub fn peek_bytes(&self) -> (window: &[u8])
        requires
            self.inv(),
        ensures
            window@ == self@.window(),
    {
        proof {
            self.lemma_inv();
            self.inner.lemma_inv();
        }
        let window = self.inner.peek_bytes();
        let left = self.remaining_len().to_usize();
        if window.len() <= left {
            assert(window@ =~= self@.window());
            window
        } else {
            let window = slice_subrange(window, 0, left);
            assert(window@ =~= self@.window());
            window
        }
    }

    /// Look at the next octet without reading it.
    pub fn peek_byte(&self) -> (byte: Option<u8>)
        requires
            self.inv(),
        ensures
            byte == if self@.window().len() > 0 {
                Some(self@.window()[0])
            } else {
                None
            },
    {
        let window = self.peek_bytes();
        if window.len() > 0 {
            Some(window[0])
        } else {
            None
        }
    }

    /// An error of the given kind at the position of this decoder, which is
    /// marked as failed.
    pub fn error(&mut self, kind: ErrorKind) -> (err: Error)
        requires
            old(self).inv(),
        ensures
            final(self).inv(),
            err == old(self)@.error(kind),
            final(self)@ == old(self)@.fail(),
    {
        self.inner.error(kind)
    }

    /// Read `len` octets, borrowed from the input, and move behind them.
    ///
    /// Fails with `Incomplete` where fewer than `len` octets are left
    /// before the boundary.
    pub fn read_slice(&mut self, len: Length) -> (res: Result<&'r [u8], Error>)
        requires
            old(self).inv(),
        ensures
            final(self).inv(),
            final(self)@ == old(self)@.read(len@).cursor,
            match res {
                Ok(slice) => old(self)@.read(len@).result == Ok::<Seq<u8>, Error>(slice@),
                Err(err) => old(self)@.read(len@).result == Err::<Seq<u8>, Error>(err),
            },
    {
        proof {
            self.lemma_inv();
            self.inner.lemma_inv();
        }
        self.check_out_of_bounds(len)?;
        if self.inner.is_failed() {
            return Err(ErrorKind::Failed.at(self.inner.position()));
        }
        let ghost start = self.inner@;
        let slice = self.inner.read_slice(len)?;
        assert(slice@ =~= old(self)@.input.subrange(
            start.position as int,
            (start.position + len@) as int,
        ));
        Ok(slice)
    }

    /// Read a single octet.
    pub fn read_byte(&mut self) -> (res: Result<u8, Error>)
        requires
            old(self).inv(),
        ensures
            final(self).inv(),
            res == old(self)@.read_byte().result,
            final(self)@ == old(self)@.read_byte().cursor,
    {
        proof {
            self.lemma_inv();
        }
        let slice = self.read_slice(Length::one())?;
        Ok(slice[0])
    }

    /// Read as many octets as `out` holds, and copy them into `out`.
    ///
    /// Fails with `Incomplete` where fewer octets are left before the
    /// boundary; `out` is then unchanged.
    pub fn read_into<'o>(&mut self, out: &'o mut [u8]) -> (res: Result<&'o [u8], Error>)
        requires
            old(self).inv(),
        ensures
            final(self).inv(),
            final(self)@ == old(self)@.read(old(out)@.len()).cursor,
            match res {
                Ok(bytes) => {
                    &&& old(self)@.read(old(out)@.len()).result == Ok::<Seq<u8>, Error>(bytes@)
                    &&& final(out)@ == bytes@
                },
                Err(err) => {
                    &&& old(self)@.read(old(out)@.len()).result == Err::<Seq<u8>, Error>(err)
                    &&& final(out)@ == old(out)@
                },
            },
    {
        Reader::read_into(self, out)
    }

    /// Read `len` octets into a vector.
    ///
    /// Fails with `Incomplete` where fewer than `len` octets are left
    /// before the boundary.
    pub fn read_vec(&mut self, len: Length) -> (res: Result<Vec<u8>, Error>)
        requires
            old(self).inv(),
        ensures
            final(self).inv(),
            final(self)@ == old(self)@.read(len@).cursor,
            match res {
                Ok(bytes) => old(self)@.read(len@).result == Ok::<Seq<u8>, Error>(bytes@),
                Err(err) => old(self)@.read(len@).result == Err::<Seq<u8>, Error>(err),
            },
    {
        let slice = self.read_slice(len)?;
        Ok(vstd::slice::slice_to_vec(slice))
    }

    /// Finish decoding: `value` is handed back if nothing is left before
    /// the boundary.
    ///
    /// Fails with `TrailingData` where octets are left.
    pub fn finish<T>(&self, value: T) -> (res: Result<T, Error>)
        requires
            self.inv(),
        ensures
            res == match self@.finish_error() {
                Some(err) => Err::<T, Error>(err),
                None => Ok::<T, Error>(value),
            },
    {
        proof {
            self.lemma_inv();
        }
        let position = self.position();
        if self.is_failed() {
            Err(ErrorKind::Failed.at(position))
        } else if !self.is_finished() {
            Err(
                ErrorKind::TrailingData { decoded: position, remaining: self.remaining_len() }.at(
                    position,
                ),
            )
        } else {
            Ok(value)
        }
    }

    /// Decode the content of a nested element of `len` octets with `f`.
    ///
    /// The boundary is moved in to the end of the element, which must lie
    /// within the present boundary, and `f` is called. If `f` succeeds it
    /// must have read the content to its end; the boundary is then moved
    /// back. No more than `MAX_DEPTH` elements may be open within one
    /// another. A failure of `f` is handed on as it is, with the boundary
    /// left where it stands: the decoder is of no use after it.
    pub fn read_nested<T, F>(&mut self, len: Length, f: F) -> (res: Result<T, Error>) where
        F: FnOnce(&mut Self) -> Result<T, Error>,

        requires
            old(self).inv(),
            forall|d: &mut Self|
                {
                    &&& old(self)@.nest_error(len@) is None
                    &&& d.inv()
                    &&& d@ == old(self)@.nest(len@)
                } ==> #[trigger] call_requires(f, (d,)),
            forall|d: &mut Self, r: Result<T, Error>|
                {
                    &&& old(self)@.nest_error(len@) is None
                    &&& d.inv()
                    &&& d@ == old(self)@.nest(len@)
                    &&& #[trigger] call_ensures(f, (d,), r)
                } ==> final(d).inv() && d@.reaches(final(d)@) && (r is Ok ==> d@.leads_to(
                    final(d)@,
                )),
        ensures
            final(self).inv(),
            match old(self)@.nest_error(len@) {
                Some(err) => res == Err::<T, Error>(err) && final(self)@ == old(self)@,
                None => exists|d: &mut Self, r: Result<T, Error>|
                    {
                        &&& d.inv()
                        &&& d@ == old(self)@.nest(len@)
                        &&& #[trigger] call_ensures(f, (d,), r)
                        &&& res == final(d)@.close_nest(r, old(self)@.end).result
                        &&& final(self)@ == final(d)@.close_nest(r, old(self)@.end).cursor
                    },
            },
    {
        proof {
            self.lemma_inv();
            self.inner.lemma_inv();
        }
        let old_end: Length = self.end_pos;
        let nest_end = self.check_out_of_bounds(len)?;
        if self.inner.is_failed() {
            return Err(ErrorKind::Failed.at(self.inner.position()));
        }
        if self.depth >= MAX_DEPTH {
            return Err(ErrorKind::NestingDepth.at(self.inner.position()));
        }
        self.end_pos = nest_end;
        self.depth = self.depth + 1;
        let ghost nested = self@;
        let ghost reach = self.inner@.end;
        let ret = f(self);
        proof {
            self.lemma_inv();
            self.inner.lemma_inv();
            assert(self@.input.len() == nested.input.len());
            assert(self.inner@.end == reach);
        }
        match ret {
            Err(err) => {
                let _ = self.inner.error(ErrorKind::Failed);
                Err(err)
            },
            Ok(value) => {
                let result = Self::finish(self, value);
                self.end_pos = old_end;
                self.depth = self.depth - 1;
                if result.is_err() {
                    let _ = self.inner.error(ErrorKind::Failed);
                }
                result
            },
        }
    }

    /// What opening a `SEQUENCE` at the given cursor comes to: the length
    /// of its content, with the cursor behind the header. The header must
    /// have the tag of a `SEQUENCE`, else the error is `TagUnexpected`, and
    /// the content must fit within the boundary; no more than `MAX_DEPTH`
    /// elements may be open.
    pub open spec fn spec_open_sequence(c: Cursor) -> Step<Length> {
        let header = Header::decode_spec(c);
        match header.result {
            Err(err) => Step { result: Err(err), cursor: header.cursor },
            Ok(h) => if h.tag != Tag::Sequence {
                Step {
                    result: Err(
                        header.cursor.error(
                            ErrorKind::TagUnexpected { expected: Some(Tag::Sequence), actual: h.tag },
                        ),
                    ),
                    cursor: header.cursor.fail(),
                }
            } else {
                match header.cursor.nest_error(h.length@) {
                    Some(err) => Step { result: Err(err), cursor: header.cursor.after_error() },
                    None => Step { result: Ok(h.length), cursor: header.cursor },
                }
            },
        }
    }

    /// Decode a `SEQUENCE`: read its header, and decode its content with
    /// `f` as a nested element.
    pub fn sequence<F, T>(&mut self, f: F) -> (res: Result<T, Error>) where
        F: FnOnce(&mut Self) -> Result<T, Error>,

        requires
            old(self).inv(),
            forall|d: &mut Self|
                {
                    let open = Self::spec_open_sequence(old(self)@);
                    &&& d.inv()
                    &&& open.result matches Ok(len)
                    &&& d@ == open.cursor.nest(len@)
                } ==> #[trigger] call_requires(f, (d,)),
            forall|d: &mut Self, r: Result<T, Error>|
                {
                    let open = Self::spec_open_sequence(old(self)@);
                    &&& d.inv()
                    &&& open.result matches Ok(len)
                    &&& d@ == open.cursor.nest(len@)
                    &&& #[trigger] call_ensures(f, (d,), r)
                } ==> final(d).inv() && d@.reaches(final(d)@) && (r is Ok ==> d@.leads_to(
                    final(d)@,
                )),
        ensures
            final(self).inv(),
            match Self::spec_open_sequence(old(self)@).result {
                Err(err) => {
                    &&& res == Err::<T, Error>(err)
                    &&& final(self)@ == Self::spec_open_sequence(old(self)@).cursor
                },
                Ok(len) => exists|d: &mut Self, r: Result<T, Error>|
                    {
                        let open = Self::spec_open_sequence(old(self)@).cursor;
                        &&& d.inv()
                        &&& d@ == open.nest(len@)
                        &&& #[trigger] call_ensures(f, (d,), r)
                        &&& res == final(d)@.close_nest(r, open.end).result
                        &&& final(self)@ == final(d)@.close_nest(r, open.end).cursor
                    },
            },
    {
        let header = Header::decode(self)?;
        if header.tag != Tag::Sequence {
            return Err(
                self.error(
                    ErrorKind::TagUnexpected { expected: Some(Tag::Sequence), actual: header.tag },
                ),
            );
        }
        self.read_nested(header.length, f)
    }

    /// Look at the tag ahead without reading it.
    ///
    /// Fails with `Incomplete` where nothing is ahead, and with
    /// `TagNumberInvalid` where what is ahead begins with no tag.
    pub fn peek_tag(&self) -> (res: Result<Tag, Error>)
        requires
            self.inv(),
        ensures
            res == match Tag::spec_peek_optional(self@) {
                Ok(Some(tag)) => Ok::<Tag, Error>(tag),
                Ok(None) => Err(Error::spec_incomplete(Length::of(self@.end))),
                Err(err) => Err(err),
            },
            res matches Ok(tag) ==> Tag::decode_spec(self@).result == Ok::<Tag, Error>(tag),
    {
        Tag::peek(self)
    }

    /// Look at the header ahead without reading it, and return it with the
    /// number of octets that it takes.
    pub fn peek_header_len(&self) -> (res: Result<(Header, Length), Error>)
        requires
            self.inv(),
        ensures
            res == Header::spec_peek(self@),
            res == Header::spec_peek_by_decoding(self@),
    {
        proof {
            self.lemma_inv();
            crate::header::lemma_peek_decode(self@);
        }
        let position = self.position();
        self.check_out_of_bounds(Length::one())?;
        if self.is_failed() {
            return Err(ErrorKind::Failed.at(position));
        }
        let peeked = self.peek_bytes();
        let mut decoder = match SliceReader::new(peeked) {
            Ok(reader) => reader,
            Err(err) => return Err(err),
        };
        let header: Header = match Header::decode(&mut decoder) {
            Ok(header) => header,
            Err(err) => return Err(err.nested(position)),
        };
        let header_len = Reader::position(&decoder);
        let total = match header_len.checked_add(header.length) {
            Ok(total) => total,
            Err(err) => return Err(err.kind().at(position)),
        };
        self.check_out_of_bounds(total)?;
        Ok((header, header_len))
    }

    /// Look at the header ahead without reading it: the header that
    /// decoding would yield, or the error with which it would fail.
    ///
    /// Fails with `Incomplete` where too few octets are ahead, or where the
    /// content that the header announces does not fit within the boundary.
    pub fn peek_header(&self) -> (res: Result<Header, Error>)
        requires
            self.inv(),
        ensures
            res == match Header::spec_peek(self@) {
                Ok((header, _)) => Ok::<Header, Error>(header),
                Err(err) => Err(err),
            },
            res == match Header::spec_peek_by_decoding(self@) {
                Ok((header, _)) => Ok::<Header, Error>(header),
                Err(err) => Err(err),
            },
    {
        let (header, _) = self.peek_header_len()?;
        Ok(header)
    }

    /// Number of octets of the element that stands at the cursor, where
    /// its header can be decoded: those of the header, and those of the
    /// content that it announces.
    pub open spec fn spec_tlv_len(c: Cursor) -> nat {
        let step = Header::decode_spec(c);
        match step.result {
            Ok(header) => (step.cursor.position - c.position) as nat + header.length@,
            Err(_) => 0,
        }
    }

    /// Read one whole element, header and content, as the octets that it
    /// is made of: to decode it later, or to hand it on as it is.
    pub fn read_tlv_bytes(&mut self) -> (res: Result<&'r [u8], Error>)
        requires
            old(self).inv(),
        ensures
            final(self).inv(),
            match Header::spec_peek(old(self)@) {
                Err(err) => res == Err::<&[u8], Error>(err) && final(self)@ == old(self)@,
                Ok((header, header_len)) => {
                    let len = header_len@ + header.length@;
                    &&& res matches Ok(slice)
                    &&& old(self)@.read(len).result == Ok::<Seq<u8>, Error>(slice@)
                    &&& final(self)@ == old(self)@.advance(len)
                },
            },
            res matches Ok(slice) ==> Header::decode_spec(old(self)@).result is Ok && old(
                self,
            )@.read(Self::spec_tlv_len(old(self)@)).result == Ok::<Seq<u8>, Error>(slice@),
    {
        proof {
            self.lemma_inv();
            crate::header::lemma_peek_decode(self@);
        }
        match self.peek_header_len() {
            Err(err) => Err(err),
            Ok((header, header_len)) => {
                proof {
                    let step = Header::decode_spec(self@);
                    assert(Header::spec_peek_by_decoding(self@) == Ok::<(Header, Length), Error>(
                        (header, header_len),
                    ));
                    assert(step.result is Ok);
                    let found = step.result->Ok_0;
                    let read = (step.cursor.position - self@.position) as nat;
                    assert(self@.bounds_error(read + found.length@) is None);
                    assert(found == header && Length::of(read) == header_len);
                    assert(header_len@ == read);
                }
                let len = Length::new(header_len.value() + header.length.value());
                assert(len@ == Self::spec_tlv_len(self@));
                self.read_slice(len)
            },
        }
    }

    /// Decoding a context-specific field with the given number, if one is
    /// ahead.
    ///
    /// The field is there where the tag ahead is of the context-specific
    /// class and has the number; where it is not, the result is `None` and
    /// nothing is read. Its header is read, and its content decoded as a
    /// nested element. With explicit tagging the header must be of the
    /// constructed form, else the error is `TagUnexpected`, and the content
    /// is the whole encoding of the value. With implicit tagging the
    /// content is that of the value, and the form of the header must be
    /// that of the value's own tag, else the error is `Noncanonical`.
    pub open spec fn spec_context_specific<T: DecodeValue<'r> + FixedTag>(
        c: Cursor,
        tag_number: TagNumber,
        tag_mode: TagMode,
    ) -> Step<Option<T>> {
        match Tag::spec_peek_optional(c) {
            Err(err) => Step { result: Err(err), cursor: c.fail() },
            Ok(Some(Tag::ContextSpecific { constructed, number })) if number == tag_number => {
                let header = Header::decode_spec(c);
                match header.result {
                    Err(err) => Step { result: Err(err), cursor: header.cursor },
                    Ok(h) => {
                        let mismatch = match tag_mode {
                            TagMode::Explicit => if h.tag.spec_is_constructed() {
                                None
                            } else {
                                Some(ErrorKind::TagUnexpected { expected: None, actual: h.tag })
                            },
                            TagMode::Implicit => if h.tag.spec_is_constructed()
                                == T::spec_fixed_tag().spec_is_constructed() {
                                None
                            } else {
                                Some(ErrorKind::Noncanonical { tag: h.tag })
                            },
                        };
                        match mismatch {
                            Some(kind) => Step {
                                result: Err(header.cursor.error(kind)),
                                cursor: header.cursor.fail(),
                            },
                            None => match header.cursor.nest_error(h.length@) {
                                Some(err) => Step {
                                    result: Err(err),
                                    cursor: header.cursor.after_error(),
                                },
                                None => {
                                    let scope = header.cursor.nest(h.length@);
                                    let body = match tag_mode {
                                        TagMode::Explicit => T::decode_spec(scope),
                                        TagMode::Implicit => T::decode_value_spec(scope, h),
                                    };
                                    let closed = body.cursor.close_nest(
                                        body.result,
                                        header.cursor.end,
                                    );
                                    match closed.result {
                                        Err(err) => Step { result: Err(err), cursor: closed.cursor },
                                        Ok(value) => Step {
                                            result: Ok(Some(value)),
                                            cursor: closed.cursor,
                                        },
                                    }
                                },
                            },
                        }
                    },
                }
            },
            Ok(_) => Step { result: Ok(None), cursor: c },
        }
    }

    /// Decode a context-specific field with the given number and tagging
    /// mode, if one is ahead; `None` where none is.
    pub fn context_specific<T>(&mut self, tag_number: TagNumber, tag_mode: TagMode) -> (res: Result<
        Option<T>,
        Error,
    >) where T: DecodeValue<'r> + FixedTag
        requires
            old(self).inv(),
        ensures
            final(self).inv(),
            res == Self::spec_context_specific::<T>(old(self)@, tag_number, tag_mode).result,
            final(self)@ == Self::spec_context_specific::<T>(old(self)@, tag_number, tag_mode).cursor,
    {
        proof {
            self.lemma_inv();
        }
        let ahead = match Tag::peek_optional(self) {
            Ok(ahead) => ahead,
            Err(err) => {
                let _ = self.error(err.kind());
                return Err(err);
            },
        };
        let is_ahead = match ahead {
            Some(Tag::ContextSpecific { constructed: _, number }) => number.value()
                == tag_number.value(),
            _ => false,
        };
        if !is_ahead {
            return Ok(None);
        }
        let header = Header::decode(self)?;
        match tag_mode {
            TagMode::Explicit => {
                if !header.tag.is_constructed() {
                    return Err(
                        self.error(ErrorKind::TagUnexpected { expected: None, actual: header.tag }),
                    );
                }
                let body = |d: &mut Self| -> (r: Result<T, Error>)
                    requires
                        old(d).inv(),
                    ensures
                        final(d).inv(),
                        old(d)@.reaches(final(d)@),
                        r is Ok ==> old(d)@.leads_to(final(d)@),
                        r == T::decode_spec(old(d)@).result,
                        final(d)@ == T::decode_spec(old(d)@).cursor,
                {
                    T::decode(d)
                };
                let value = self.read_nested(header.length, body)?;
                Ok(Some(value))
            },
            TagMode::Implicit => {
                if header.tag.is_constructed() != T::fixed_tag().is_constructed() {
                    return Err(self.error(ErrorKind::Noncanonical { tag: header.tag }));
                }
                let body = |d: &mut Self| -> (r: Result<T, Error>)
                    requires
                        old(d).inv(),
                    ensures
                        final(d).inv(),
                        old(d)@.reaches(final(d)@),
                        r is Ok ==> old(d)@.leads_to(final(d)@),
                        r == T::decode_value_spec(old(d)@, header).result,
                        final(d)@ == T::decode_value_spec(old(d)@, header).cursor,
                {
                    T::decode_value(d, header)
                };
                let value = self.read_nested(header.length, body)?;
                Ok(Some(value))
            },
        }
    }

    /// Decode a value of a type that can be decoded.
    pub fn decode<T: Decode<'r>>(&mut self) -> (res: Result<T, Error>)
        requires
            old(self).inv(),
        ensures
            final(self).inv(),
            old(self)@.reaches(final(self)@),
            res is Ok ==> old(self)@.leads_to(final(self)@),
            res == T::decode_spec(old(self)@).result,
            final(self)@ == T::decode_spec(old(self)@).cursor,
    {
        T::decode(self)
    }

    /// Give up the boundary and return the reader underneath.
    pub fn into_inner(self) -> (inner: R)
        requires
            self.inv(),
        ensures
            inner.inv(),
            inner@.position == self@.position,
            inner@.failed == self@.failed,
            inner@.input.take(inner@.end as int) == self@.input,
    {
        self.inner
    }
}

impl<'r, R: Reader<'r>> Reader<'r> for NestedDecoder<R> {
    open spec fn view(&self) -> Cursor {
        NestedDecoder::view(self)
    }

    open spec fn inv(&self) -> bool {
        NestedDecoder::inv(self)
    }

    proof fn lemma_inv(&self) {
        NestedDecoder::lemma_inv(self);
    }

    fn input_len(&self) -> (len: Length) {
        self.end_pos
    }

    fn peek_bytes(&self) -> (window: &[u8]) {
        NestedDecoder::peek_bytes(self)
    }

    fn position(&self) -> (position: Length) {
        NestedDecoder::position(self)
    }

    fn read_slice(&mut self, len: Length) -> (res: Result<&'r [u8], Error>) {
        NestedDecoder::read_slice(self, len)
    }

    fn error(&mut self, kind: ErrorKind) -> (err: Error) {
        NestedDecoder::error(self, kind)
    }

    fn is_failed(&self) -> (failed: bool) {
        NestedDecoder::is_failed(self)
    }

    fn is_strict(&self) -> (strict: bool) {
        false
    }

    fn read_nested<T, F>(&mut self, len: Length, f: F) -> (res: Result<T, Error>) where
        F: FnOnce(&mut Self) -> Result<T, Error>,
     {
        NestedDecoder::read_nested(self, len, f)
    }
}

} // verus!
