//! Readers: sequential, position-tracked consumption of an input.

pub mod nested;
pub mod slice;

use crate::error::{Error, ErrorKind};
use crate::length::Length;
use core::ops::Range;
use vstd::prelude::*;

verus! {

/// Largest number of octets that a reader shows ahead of its position:
/// enough for the widest tag followed by the widest length.
pub const PEEK_WINDOW: usize = 9;

/// Largest number of elements that may be open within one another.
pub const MAX_DEPTH: usize = 64;

/// Mathematical model of a reader.
///
/// A reader consumes `input` from `position` up to, not including, `end`.
/// A reader that is marked `failed` fails every read. A `strict` reader is
/// marked by every operation that fails. One that is not strict checks its
/// boundary before anything else, and a read or a nested element that does
/// not fit within it fails and changes nothing; it is marked where the
/// input is malformed. `depth` counts the nested elements that are open.
pub struct Cursor {
    /// The octets of the whole input.
    pub input: Seq<u8>,
    /// Index of the first octet that may not be read.
    pub end: nat,
    /// Index of the next octet to read.
    pub position: nat,
    /// Has an operation on this reader failed?
    pub failed: bool,
    /// Number of nested elements that are open.
    pub depth: nat,
    /// Does every operation that fails mark the reader as failed?
    pub strict: bool,
}

/// Result of an operation on a reader, with the cursor it leaves behind.
pub struct Step<T> {
    /// What the operation returns.
    pub result: Result<T, Error>,
    /// The reader after the operation.
    pub cursor: Cursor,
}

impl Cursor {
    /// A fresh cursor of a strict reader at the start of `input`, with all
    /// of it to read.
    pub open spec fn over(input: Seq<u8>) -> Cursor {
        Cursor { input, end: input.len(), position: 0, failed: false, depth: 0, strict: true }
    }

    /// Well-formedness: the position is within the boundary, the boundary
    /// within the input, and the input no longer than the largest length;
    /// no more elements are open than may be.
    pub open spec fn wf(self) -> bool {
        &&& self.position <= self.end <= self.input.len() <= Length::spec_max()
        &&& self.depth <= MAX_DEPTH
    }

    /// Number of octets between the position and the boundary.
    pub open spec fn remaining_len(self) -> nat {
        (self.end - self.position) as nat
    }

    /// The octets between the position and the boundary.
    pub open spec fn remaining(self) -> Seq<u8> {
        self.input.subrange(self.position as int, self.end as int)
    }

    /// Are `octets` what stands between the position and the boundary, or
    /// the beginning of it?
    pub open spec fn starts_with(self, octets: Seq<u8>) -> bool {
        &&& self.position + octets.len() <= self.end
        &&& self.input.subrange(self.position as int, (self.position + octets.len()) as int)
            == octets
    }

    /// Has everything up to the boundary been read?
    pub open spec fn is_finished(self) -> bool {
        self.position >= self.end
    }

    /// The octets that can be looked at without reading them: none on a
    /// failed reader, else the next `PEEK_WINDOW` or what is left before
    /// the boundary, whichever is less.
    pub open spec fn window(self) -> Seq<u8> {
        if self.failed {
            Seq::empty()
        } else if self.remaining_len() <= PEEK_WINDOW {
            self.remaining()
        } else {
            self.input.subrange(self.position as int, (self.position + PEEK_WINDOW) as int)
        }
    }

    /// An error of the given kind at the position of this cursor.
    pub open spec fn error(self, kind: ErrorKind) -> Error {
        kind.spec_at(Length::of(self.position))
    }

    /// This cursor, marked as failed.
    pub open spec fn fail(self) -> Cursor {
        Cursor { failed: true, ..self }
    }

    /// This cursor, moved forward by `len` octets.
    pub open spec fn advance(self, len: nat) -> Cursor {
        Cursor { position: self.position + len, ..self }
    }

    /// The error of `len` octets not fitting between the position and the
    /// boundary: where their end is no length `Overflow`; where it lies
    /// behind the boundary `Incomplete`, with the length that would have
    /// been enough and the length there is.
    pub open spec fn bounds_error(self, len: nat) -> Option<Error> {
        if self.position + len > Length::spec_max() {
            Some(self.error(ErrorKind::Overflow))
        } else if self.position + len > self.end {
            Some(
                self.error(
                    ErrorKind::Incomplete {
                        expected_len: Length::of(self.position + len),
                        actual_len: Length::of(self.end),
                    },
                ),
            )
        } else {
            None
        }
    }

    /// This cursor after an operation that has failed: marked as failed
    /// where the reader is strict, else as it was.
    pub open spec fn after_error(self) -> Cursor {
        if self.strict {
            self.fail()
        } else {
            self
        }
    }

    /// The error of reading `len` octets, if the read cannot succeed. A
    /// strict reader that is marked as failed fails with `Failed`, else
    /// with what `bounds_error` says. A reader that is not strict looks at
    /// its boundary first, and fails with `Failed` only where the octets
    /// would fit.
    pub open spec fn read_error(self, len: nat) -> Option<Error> {
        if self.strict && self.failed {
            Some(self.error(ErrorKind::Failed))
        } else {
            match self.bounds_error(len) {
                Some(err) => Some(err),
                None => if self.failed {
                    Some(self.error(ErrorKind::Failed))
                } else {
                    None
                },
            }
        }
    }

    /// The error of a nested element of `len` octets having no place:
    /// where it does not fit within the boundary what `bounds_error` says,
    /// else `NestingDepth` where as many elements are open as may be.
    pub open spec fn depth_error(self, len: nat) -> Option<Error> {
        match self.bounds_error(len) {
            Some(err) => Some(err),
            None => if self.depth >= MAX_DEPTH {
                Some(self.error(ErrorKind::NestingDepth))
            } else {
                None
            },
        }
    }

    /// The error of opening a nested element of `len` octets, if it cannot
    /// be opened. A strict reader that is marked as failed fails with
    /// `Failed`, else with what `depth_error` says. A reader that is not
    /// strict looks at its boundary first, then at the failure mark, then
    /// at the number of open elements.
    pub open spec fn nest_error(self, len: nat) -> Option<Error> {
        if self.strict && self.failed {
            Some(self.error(ErrorKind::Failed))
        } else {
            match self.bounds_error(len) {
                Some(err) => Some(err),
                None => if self.failed {
                    Some(self.error(ErrorKind::Failed))
                } else {
                    self.depth_error(len)
                },
            }
        }
    }

    /// This cursor with a nested element of `len` octets opened: the
    /// boundary is moved in to the end of the element, and one more
    /// element is open.
    pub open spec fn nest(self, len: nat) -> Cursor {
        Cursor { end: self.position + len, depth: self.depth + 1, ..self }
    }

    /// This cursor with a nested element closed: the boundary is moved
    /// back to `end`, and one element less is open.
    pub open spec fn unnest(self, end: nat) -> Cursor {
        Cursor { end, depth: (self.depth - 1) as nat, ..self }
    }

    /// Reading `len` octets: they are returned and the position moves behind
    /// them, or the read fails as `read_error` says, nothing is read, and a
    /// strict reader is marked as failed.
    pub open spec fn read(self, len: nat) -> Step<Seq<u8>> {
        match self.read_error(len) {
            Some(err) => Step { result: Err(err), cursor: self.after_error() },
            None => Step {
                result: Ok(self.input.subrange(self.position as int, (self.position + len) as int)),
                cursor: self.advance(len),
            },
        }
    }

    /// Reading one octet.
    pub open spec fn read_byte(self) -> Step<u8> {
        match self.read_error(1) {
            Some(err) => Step { result: Err(err), cursor: self.after_error() },
            None => Step { result: Ok(self.input[self.position as int]), cursor: self.advance(1) },
        }
    }

    /// The error of finishing, if the reader cannot finish: on a failed
    /// reader `Failed`; where octets are left before the boundary
    /// `TrailingData`, with the length decoded and the length left.
    pub open spec fn finish_error(self) -> Option<Error> {
        if self.failed {
            Some(self.error(ErrorKind::Failed))
        } else if !self.is_finished() {
            Some(
                self.error(
                    ErrorKind::TrailingData {
                        decoded: Length::of(self.position),
                        remaining: Length::of(self.remaining_len()),
                    },
                ),
            )
        } else {
            None
        }
    }

    /// The octet `k` octets ahead of the position.
    pub open spec fn ahead(self, k: nat) -> u8 {
        self.input[(self.position + k) as int]
    }

    /// Is there an octet to read `k` octets ahead of the position?
    pub open spec fn has_ahead(self, k: nat) -> bool {
        self.position + k < self.end
    }

    /// Does `other` have ahead what this cursor has ahead, and maybe more?
    /// Neither is failed, and every octet that this cursor can read,
    /// `other` can read at the same distance from its position.
    pub open spec fn agrees_with(self, other: Cursor) -> bool {
        &&& self.wf()
        &&& other.wf()
        &&& !self.failed
        &&& !other.failed
        &&& forall|k: nat| #[trigger]
            self.has_ahead(k) ==> other.has_ahead(k) && other.ahead(k) == self.ahead(k)
    }

    /// Does `other` have ahead what this cursor has, and either no more or
    /// at least `budget` octets? Then whatever reads no more than `budget`
    /// octets comes to the same from both.
    pub open spec fn mirrors(self, other: Cursor, budget: nat) -> bool {
        &&& self.agrees_with(other)
        &&& self.position <= other.position
        &&& self.remaining_len() == other.remaining_len() || self.remaining_len() >= budget
    }

    /// Closing the scope of a nested element, with this cursor as it stands
    /// after the content was decoded with the result `body`; `end` is the
    /// boundary that was in force before the scope was opened.
    ///
    /// A failure of the body is handed on, and the boundary stays where it
    /// is. After a success the content must have been read to its end, else
    /// the element fails with `TrailingData`; the boundary goes back to
    /// `end`. Either failure marks the reader as failed.
    pub open spec fn close_nest<T>(self, body: Result<T, Error>, end: nat) -> Step<T> {
        match body {
            Err(err) => Step { result: Err(err), cursor: self.fail() },
            Ok(value) => match self.finish_error() {
                Some(err) => Step { result: Err(err), cursor: self.fail().unnest(end) },
                None => Step { result: Ok(value), cursor: self.unnest(end) },
            },
        }
    }

    /// Can `next` be a later state of the reader that this cursor models?
    /// The input is the same, the position has not moved back, the
    /// boundary has not moved out, no element that was open has been
    /// closed, and the reader is as strict as it was.
    pub open spec fn reaches(self, next: Cursor) -> bool {
        &&& next.input == self.input
        &&& next.end <= self.end
        &&& self.position <= next.position
        &&& self.depth <= next.depth
        &&& next.strict == self.strict
        &&& next.wf()
    }

    /// Can `next` be a later state of the reader that this cursor models,
    /// with every nested element closed that was opened since? It can be
    /// reached, the boundary is where it was, and as many elements are
    /// open.
    pub open spec fn leads_to(self, next: Cursor) -> bool {
        &&& self.reaches(next)
        &&& next.end == self.end
        &&& next.depth == self.depth
    }
}

/// A read never reaches behind the boundary. One that would fails with
/// `Incomplete`, which holds the length that would have been enough and the
/// length there is, at the position of the read, and reads nothing: a
/// reader that is not strict is left as it was, whether it is marked as
/// failed or not, and a strict one is marked. A read that reaches the
/// boundary succeeds and leaves nothing to read, and a read of one more
/// octet then fails in turn.
pub proof fn lemma_read_boundary(c: Cursor, len: nat)
    requires
        c.wf(),
        c.position + len <= Length::spec_max(),
    ensures
        len > c.remaining_len() && !(c.strict && c.failed) ==> c.read(len).result == Err::<
            Seq<u8>,
            Error,
        >(
            (ErrorKind::Incomplete {
                expected_len: Length::of(c.position + len),
                actual_len: Length::of(c.end),
            }).spec_at(Length::of(c.position)),
        ),
        len > c.remaining_len() ==> c.read(len).cursor == c.after_error(),
        len > c.remaining_len() && !c.strict ==> c.read(len).cursor == c,
        len <= c.remaining_len() && !c.failed ==> c.read(len).result is Ok && c.read(
            len,
        ).cursor == c.advance(len),
        len == c.remaining_len() && !c.failed ==> c.read(len).cursor.is_finished() && c.read(
            len,
        ).cursor.read_byte().result is Err,
        len == c.remaining_len() && !c.failed && c.end < Length::spec_max() ==> c.read(
            len,
        ).cursor.read_byte().result == Err::<u8, Error>(
            (ErrorKind::Incomplete {
                expected_len: Length::of(c.end + 1),
                actual_len: Length::of(c.end),
            }).spec_at(Length::of(c.end)),
        ),
{
}

/// A reader that is marked as failed stays so, and every read and every
/// nested element fails on it, whatever is asked for. A strict reader is
/// marked by every read and every nested element that fails, and no reader
/// is marked by a read that succeeds.
pub proof fn lemma_fail_closed(c: Cursor, len: nat)
    ensures
        c.failed ==> c.read(len).result is Err && c.read(len).cursor == c,
        c.failed ==> c.read_byte().result is Err && c.read_byte().cursor == c,
        c.failed ==> c.nest_error(len) is Some,
        c.strict && c.read(len).result is Err ==> c.read(len).cursor.failed,
        c.strict && c.read_byte().result is Err ==> c.read_byte().cursor.failed,
        c.strict && c.nest_error(len) is Some ==> c.after_error().failed,
        c.strict && c.failed ==> c.read(len).result == Err::<Seq<u8>, Error>(
            c.error(ErrorKind::Failed),
        ),
        !c.failed && c.read(len).result is Ok ==> !c.read(len).cursor.failed,
        !c.failed && c.read_byte().result is Ok ==> !c.read_byte().cursor.failed,
{
}

/// Do the steps `on_a` and `on_b`, taken from the cursors `a` and `b`, come
/// to the same? They return the same, have moved the cursors forward by
/// the same number of octets and changed nothing else, and `b` still has
/// ahead what `a` has.
pub open spec fn steps_agree<T>(a: Cursor, b: Cursor, on_a: Step<T>, on_b: Step<T>) -> bool {
    let read = (on_a.cursor.position - a.position) as nat;
    &&& on_a.result == on_b.result
    &&& on_a.cursor == a.advance(read)
    &&& on_b.cursor == b.advance(read)
    &&& on_a.cursor.agrees_with(on_b.cursor)
}

/// What the result `on_a` of a step, taken from the cursor `a`, comes to
/// from the cursor `b`, which stands further on in its input: the position
/// of an error, and the lengths that it holds, count from the start of the
/// input of `b`.
pub open spec fn shifted<T>(a: Cursor, b: Cursor, on_a: Result<T, Error>) -> Result<T, Error> {
    match on_a {
        Ok(value) => Ok(value),
        Err(err) => Err(err.spec_nested(Length::of((b.position - a.position) as nat))),
    }
}

/// Do the steps `on_a` and `on_b`, taken from the cursors `a` and `b`, of
/// which `a` mirrors `b` with the given budget, come to the same? The
/// result from `b` is that from `a`, shifted; and where they succeed, they
/// have moved the cursors forward by the same number of octets, which is
/// no more than the budget, and changed nothing else, and the cursors
/// mirror one another with what is left of the budget.
pub open spec fn steps_mirror<T>(
    a: Cursor,
    b: Cursor,
    on_a: Step<T>,
    on_b: Step<T>,
    budget: nat,
) -> bool {
    let read = (on_a.cursor.position - a.position) as nat;
    &&& on_b.result == shifted(a, b, on_a.result)
    &&& on_a.result is Ok ==> {
        &&& on_a.cursor == a.advance(read)
        &&& on_b.cursor == b.advance(read)
        &&& read <= budget
        &&& on_a.cursor.mirrors(on_b.cursor, (budget - read) as nat)
    }
}

/// The error of reading one octet where none is left is the same from a
/// cursor and from one that it mirrors, but for the shift.
pub proof fn lemma_mirrors_read_byte(a: Cursor, b: Cursor, budget: nat)
    requires
        a.mirrors(b, budget),
        budget >= 1,
    ensures
        steps_mirror(a, b, a.read_byte(), b.read_byte(), budget),
{
    if a.has_ahead(0) {
        lemma_agrees_read_byte(a, b);
    }
}

/// Where one cursor has ahead what another has, an octet that the one can
/// read the other can read too, and they agree behind it as well.
pub proof fn lemma_agrees_read_byte(a: Cursor, b: Cursor)
    requires
        a.agrees_with(b),
        a.read_byte().result is Ok,
    ensures
        steps_agree(a, b, a.read_byte(), b.read_byte()),
        a.read_byte().cursor == a.advance(1),
        b.read_byte().cursor == b.advance(1),
{
    assert(a.has_ahead(0));
    assert(b.ahead(0) == a.ahead(0));
    let a1 = a.advance(1);
    let b1 = b.advance(1);
    assert forall|k: nat| #[trigger] a1.has_ahead(k) implies b1.has_ahead(k) && b1.ahead(k)
        == a1.ahead(k) by {
        assert(a.has_ahead(k + 1));
        assert(b.has_ahead(k + 1));
        assert(b1.ahead(k) == b.ahead(k + 1));
        assert(a1.ahead(k) == a.ahead(k + 1));
    }
}

/// The position of a reader never moves back, and a read moves it forward
/// by no more than was asked for.
pub proof fn lemma_read_monotonic(c: Cursor, len: nat)
    requires
        c.wf(),
    ensures
        c.leads_to(c.read(len).cursor),
        c.read(len).cursor.position <= c.position + len,
        c.leads_to(c.read_byte().cursor),
{
}

/// Sequential access to an input, one read after the other.
///
/// The contract of each operation is stated over the [`Cursor`] that models
/// the reader.
pub trait Reader<'r>: Sized {
    /// The cursor that models this reader.
    spec fn view(&self) -> Cursor;

    /// The invariant of this reader: what its operations rely on and keep.
    spec fn inv(&self) -> bool;

    /// A reader that meets its invariant has a well-formed cursor.
    proof fn lemma_inv(&self)
        requires
            self.inv(),
        ensures
            self@.wf(),
    ;

    /// Length of the input, up to the boundary.
    fn input_len(&self) -> (len: Length)
        requires
            self.inv(),
        ensures
            len@ == self@.end,
    ;

    /// Look at the octets ahead, at most `PEEK_WINDOW` of them, without
    /// reading them.
    fn peek_bytes(&self) -> (window: &[u8])
        requires
            self.inv(),
        ensures
            window@ == self@.window(),
    ;

    /// Position within the input.
    fn position(&self) -> (position: Length)
        requires
            self.inv(),
        ensures
            position@ == self@.position,
    ;

    /// Read `len` octets, borrowed from the input, and move behind them.
    ///
    /// Fails with `Incomplete` where fewer than `len` octets are left; a
    /// strict reader is then marked as failed.
    fn read_slice(&mut self, len: Length) -> (res: Result<&'r [u8], Error>)
        requires
            old(self).inv(),
        ensures
            final(self).inv(),
            final(self)@ == old(self)@.read(len@).cursor,
            match res {
                Ok(slice) => old(self)@.read(len@).result == Ok::<Seq<u8>, Error>(slice@),
                Err(err) => old(self)@.read(len@).result == Err::<Seq<u8>, Error>(err),
            },
    ;

    /// An error of the given kind at the position of this reader, which is
    /// marked as failed.
    fn error(&mut self, kind: ErrorKind) -> (err: Error)
        requires
            old(self).inv(),
        ensures
            final(self).inv(),
            err == old(self)@.error(kind),
            final(self)@ == old(self)@.fail(),
    ;

    /// The range that this reader may still read: from the position to the
    /// end of the input.
    fn readable(&self) -> (range: Range<Length>)
        requires
            self.inv(),
        ensures
            range.start@ == self@.position,
            range.end@ == self@.end,
    {
        self.position()..self.input_len()
    }

    /// Number of octets that are left to read.
    fn remaining_len(&self) -> (len: Length)
        requires
            self.inv(),
        ensures
            len@ == self@.remaining_len(),
    {
        proof {
            self.lemma_inv();
        }
        self.input_len().saturating_sub(self.position())
    }

    /// Has all of the input been read?
    fn is_finished(&self) -> (finished: bool)
        requires
            self.inv(),
        ensures
            finished == self@.is_finished(),
    {
        proof {
            self.lemma_inv();
        }
        self.remaining_len().is_zero()
    }

    /// Look at the next octet without reading it.
    fn peek_byte(&self) -> (byte: Option<u8>)
        requires
            self.inv(),
        ensures
            byte == if self@.window().len() > 0 {
                Some(self@.window()[0])
            } else {
                None
            },
    {
        let window = self.peek_bytes();
        if window.len() > 0 {
            Some(window[0])
        } else {
            None
        }
    }

    /// Read a single octet.
    fn read_byte(&mut self) -> (res: Result<u8, Error>)
        requires
            old(self).inv(),
        ensures
            final(self).inv(),
            res == old(self)@.read_byte().result,
            final(self)@ == old(self)@.read_byte().cursor,
    {
        proof {
            self.lemma_inv();
        }
        let slice = self.read_slice(Length::one())?;
        Ok(slice[0])
    }

    /// Read as many octets as `buf` holds, and copy them into `buf`.
    ///
    /// Fails with `Incomplete` where fewer octets are left; `buf` is then
    /// unchanged.
    fn read_into<'o>(&mut self, buf: &'o mut [u8]) -> (res: Result<&'o [u8], Error>)
        requires
            old(self).inv(),
        ensures
            final(self).inv(),
            final(self)@ == old(self)@.read(old(buf)@.len()).cursor,
            match res {
                Ok(out) => {
                    &&& old(self)@.read(old(buf)@.len()).result == Ok::<Seq<u8>, Error>(out@)
                    &&& final(buf)@ == out@
                },
                Err(err) => {
                    &&& old(self)@.read(old(buf)@.len()).result == Err::<Seq<u8>, Error>(err)
                    &&& final(buf)@ == old(buf)@
                },
            },
    {
        proof {
            self.lemma_inv();
        }
        let len = match Length::try_from_usize(buf.len()) {
            Ok(len) => len,
            Err(err) => {
                // longer than any input
                let position = self.position();
                if !self.is_strict() {
                    return Err(err.kind().at(position));
                }
                if self.is_failed() {
                    return Err(ErrorKind::Failed.at(position));
                }
                return Err(self.error(err.kind()));
            },
        };
        let input = self.read_slice(len)?;
        let mut i: usize = 0;
        while i < buf.len()
            invariant
                i <= buf@.len(),
                buf@.len() == input@.len(),
                forall|j: int| 0 <= j < i ==> buf@[j] == input@[j],
            decreases buf@.len() - i,
        {
            buf[i] = input[i];
            i += 1;
        }
        assert(buf@ =~= input@);
        Ok(buf)
    }

    /// Finish decoding: `value` is handed back if nothing is left to read.
    ///
    /// Fails with `TrailingData` where octets are left.
    fn finish<T>(self, value: T) -> (res: Result<T, Error>)
        requires
            self.inv(),
        ensures
            res == match self@.finish_error() {
                Some(err) => Err::<T, Error>(err),
                None => Ok::<T, Error>(value),
            },
    {
        proof {
            self.lemma_inv();
        }
        let position = self.position();
        if self.is_failed() {
            Err(ErrorKind::Failed.at(position))
        } else if !self.is_finished() {
            Err(
                ErrorKind::TrailingData { decoded: position, remaining: self.remaining_len() }.at(
                    position,
                ),
            )
        } else {
            Ok(value)
        }
    }

    /// Has an operation on this reader failed?
    fn is_failed(&self) -> (failed: bool)
        requires
            self.inv(),
        ensures
            failed == self@.failed,
    ;

    /// Does every operation on this reader that fails mark it as failed?
    fn is_strict(&self) -> (strict: bool)
        requires
            self.inv(),
        ensures
            strict == self@.strict,
    ;

    /// Decode the content of a nested element of `len` octets with `f`.
    ///
    /// The boundary is moved in to the end of the element, which must lie
    /// within the present boundary, and `f` is called. No more than
    /// `MAX_DEPTH` elements may be open within one another. If `f` succeeds it
    /// must have read the content to its end, else the element fails with
    /// `TrailingData`; the boundary is then moved back. A failure of `f`
    /// is handed on as it is, with the boundary left where it stands: the
    /// reader is of no use after it.
    fn read_nested<T, F>(&mut self, len: Length, f: F) -> (res: Result<T, Error>) where
        F: FnOnce(&mut Self) -> Result<T, Error>,

        requires
            old(self).inv(),
            forall|d: &mut Self|
                {
                    &&& old(self)@.nest_error(len@) is None
                    &&& d.inv()
                    &&& d@ == old(self)@.nest(len@)
                } ==> #[trigger] call_requires(f, (d,)),
            forall|d: &mut Self, r: Result<T, Error>|
                {
                    &&& old(self)@.nest_error(len@) is None
                    &&& d.inv()
                    &&& d@ == old(self)@.nest(len@)
                    &&& #[trigger] call_ensures(f, (d,), r)
                } ==> final(d).inv() && d@.reaches(final(d)@) && (r is Ok ==> d@.leads_to(
                    final(d)@,
                )),
        ensures
            final(self).inv(),
            match old(self)@.nest_error(len@) {
                Some(err) => res == Err::<T, Error>(err) && final(self)@ == old(
                    self,
                )@.after_error(),
                None => exists|d: &mut Self, r: Result<T, Error>|
                    {
                        &&& d.inv()
                        &&& d@ == old(self)@.nest(len@)
                        &&& #[trigger] call_ensures(f, (d,), r)
                        &&& res == final(d)@.close_nest(r, old(self)@.end).result
                        &&& final(self)@ == final(d)@.close_nest(r, old(self)@.end).cursor
                    },
            },
    ;
}

} // verus!
