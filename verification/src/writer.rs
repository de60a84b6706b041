//! Writers: sinks that accept the octets of an encoding.

use crate::error::{Error, ErrorKind};
use crate::length::Length;
use vstd::prelude::*;

verus! {

/// Mathematical model of a writer.
///
/// A writer has accepted the octets `written` and has room for `capacity`
/// in all. Once a write has failed it is marked `failed`, and every later
/// write fails too.
pub struct Sink {
    /// The octets written so far.
    pub written: Seq<u8>,
    /// Number of octets that the writer has room for.
    pub capacity: nat,
    /// Has a write failed?
    pub failed: bool,
}

impl Sink {
    /// Well-formedness: what was written fits, and its length is a length.
    pub open spec fn wf(self) -> bool {
        self.written.len() <= self.capacity && self.written.len() <= Length::spec_max()
    }

    /// This sink, marked as failed.
    pub open spec fn fail(self) -> Sink {
        Sink { failed: true, ..self }
    }

    /// The error of writing `len` octets, if the write cannot succeed: on a
    /// failed writer `Failed`; where the end of the write is no length
    /// `Overflow`; where there is no room for it `Overlength`, at the
    /// position where it would have ended.
    pub open spec fn write_error(self, len: nat) -> Option<Error> {
        let position = Length::of(self.written.len());
        if self.failed {
            Some(ErrorKind::Failed.spec_at(position))
        } else if self.written.len() + len > Length::spec_max() {
            Some(ErrorKind::Overflow.spec_at(position))
        } else if self.written.len() + len > self.capacity {
            Some(ErrorKind::Overlength.spec_at(Length::of(self.written.len() + len)))
        } else {
            None
        }
    }

    /// This sink with `octets` added to what was written.
    pub open spec fn with(self, octets: Seq<u8>) -> Sink {
        Sink { written: self.written + octets, ..self }
    }

    /// Writing `octets`: they are added to what was written, or the write
    /// fails as `write_error` says, nothing is added and the sink is marked
    /// as failed.
    pub open spec fn write(self, octets: Seq<u8>) -> Written {
        match self.write_error(octets.len()) {
            Some(err) => Written { result: Err(err), sink: self.fail() },
            None => Written { result: Ok(()), sink: self.with(octets) },
        }
    }
}

/// Result of an operation on a writer, with the sink it leaves behind.
pub struct Written {
    /// What the operation returns.
    pub result: Result<(), Error>,
    /// The writer after the operation.
    pub sink: Sink,
}

/// A sink that accepts octets, one write after the other.
pub trait Writer {
    /// The sink that models this writer.
    spec fn view(&self) -> Sink;

    /// The invariant of this writer: what its operations rely on and keep.
    spec fn inv(&self) -> bool;

    /// A writer that meets its invariant has a well-formed sink.
    proof fn lemma_inv(&self)
        requires
            self.inv(),
        ensures
            self@.wf(),
    ;

    /// Write the given octets.
    ///
    /// Fails with `Overlength` where the writer has no room for them.
    fn write(&mut self, slice: &[u8]) -> (res: Result<(), Error>)
        requires
            old(self).inv(),
        ensures
            final(self).inv(),
            res == old(self)@.write(slice@).result,
            final(self)@ == old(self)@.write(slice@).sink,
    ;

    /// Write a single octet.
    fn write_byte(&mut self, byte: u8) -> (res: Result<(), Error>)
        requires
            old(self).inv(),
        ensures
            final(self).inv(),
            res == old(self)@.write(seq![byte]).result,
            final(self)@ == old(self)@.write(seq![byte]).sink,
    {
        let octets = [byte];
        assert(octets@ =~= seq![byte]);
        self.write(octets.as_slice())
    }
}

/// [`Writer`] that fills a borrowed slice of octets from its start.
pub struct SliceWriter<'a> {
    /// The buffer that is written to.
    bytes: &'a mut [u8],
    /// Has a write failed?
    failed: bool,
    /// Number of octets written.
    position: Length,
}

impl<'a> SliceWriter<'a> {
    /// The sink that models this writer: its capacity is the length of the
    /// buffer.
    pub closed spec fn view(&self) -> Sink {
        Sink {
            written: self.bytes@.take(self.position@ as int),
            capacity: self.bytes@.len(),
            failed: self.failed,
        }
    }

    /// The invariant of this writer: the position is within the buffer.
    pub closed spec fn inv(&self) -> bool {
        self.position@ <= self.bytes@.len()
    }

    /// Create a writer that fills `bytes` from its start.
    pub fn new(bytes: &'a mut [u8]) -> (writer: Self)
        ensures
            writer.inv(),
            writer@ == (Sink {
                written: Seq::<u8>::empty(),
                capacity: old(bytes)@.len(),
                failed: false,
            }),
    {
        let writer = SliceWriter { bytes, failed: false, position: Length::zero() };
        assert(writer@.written =~= Seq::<u8>::empty());
        writer
    }

    /// Has a write failed?
    pub fn is_failed(&self) -> (failed: bool)
        ensures
            failed == self@.failed,
    {
        self.failed
    }

    /// An error of the given kind at the position of this writer, which is
    /// marked as failed.
    pub fn error(&mut self, kind: ErrorKind) -> (err: Error)
        requires
            old(self).inv(),
        ensures
            final(self).inv(),
            err == kind.spec_at(Length::of(old(self)@.written.len())),
            final(self)@ == old(self)@.fail(),
    {
        self.failed = true;
        kind.at(self.position)
    }

    /// Finish writing, and return what was written: the part of the buffer
    /// that was filled.
    ///
    /// Fails with `Failed` where a write has failed.
    pub fn finish(self) -> (res: Result<&'a [u8], Error>)
        requires
            self.inv(),
        ensures
            match res {
                Ok(out) => !self@.failed && out@ == self@.written,
                Err(err) => self@.failed && err == ErrorKind::Failed.spec_at(
                    Length::of(self@.written.len()),
                ),
            },
    {
        let SliceWriter { bytes, failed, position } = self;
        if failed {
            return Err(ErrorKind::Failed.at(position));
        }
        let filled: &'a [u8] = bytes;
        Ok(vstd::slice::slice_subrange(filled, 0, position.to_usize()))
    }
}

impl<'a> Writer for SliceWriter<'a> {
    open spec fn view(&self) -> Sink {
        SliceWriter::view(self)
    }

    open spec fn inv(&self) -> bool {
        SliceWriter::inv(self)
    }

    proof fn lemma_inv(&self) {
    }

    fn write(&mut self, slice: &[u8]) -> (res: Result<(), Error>) {
        if self.is_failed() {
            return Err(ErrorKind::Failed.at(self.position));
        }
        let len = match Length::try_from_usize(slice.len()) {
            Ok(len) => len,
            Err(err) => return Err(self.error(err.kind())),
        };
        let end = match self.position.checked_add(len) {
            Ok(end) => end,
            Err(err) => return Err(self.error(err.kind())),
        };
        if end.to_usize() > self.bytes.len() {
            self.failed = true;
            return Err(ErrorKind::Overlength.at(end));
        }
        let start = self.position.to_usize();
        let mut i: usize = 0;
        while i < slice.len()
            invariant
                i <= slice@.len(),
                start + slice@.len() <= self.bytes@.len(),
                start + slice@.len() <= usize::MAX,
                self.bytes@.len() == old(self).bytes@.len(),
                self.position == old(self).position,
                self.failed == old(self).failed,
                start == self.position@,
                self.bytes@.take(start as int) == old(self).bytes@.take(start as int),
                forall|j: int| 0 <= j < i ==> self.bytes@[start + j] == slice@[j],
            decreases slice@.len() - i,
        {
            let ghost before = self.bytes@;
            self.bytes[start + i] = slice[i];
            assert(self.bytes@.take(start as int) =~= before.take(start as int));
            i += 1;
        }
        self.position = end;
        assert(self@.written =~= old(self)@.written + slice@);
        Ok(())
    }
}

} // verus!
