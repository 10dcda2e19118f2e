//! The archive: a byte source together with the position reached in it.

use vstd::math::max;
use vstd::prelude::*;
use crate::block::{is_zero_block, round_up};
use crate::entries::{Entries, EntriesMut};
use crate::entry::Entry;
use crate::error::{Corruption, Error, Operation};
use crate::header::Header;
use crate::layout::{block_at, found_at, reached, Cursor, Found};
use crate::source::{delivered, Readable, Seekable};
use crate::unpack::Unpack;

verus! {

/// What is left of `content` once its first `start` bytes are taken off.
pub open spec fn remainder(content: Seq<u8>, start: int) -> Seq<u8> {
    if 0 <= start <= content.len() {
        content.skip(start)
    } else {
        Seq::empty()
    }
}

/// What a look for a header gives back, as `found_at` would put it.
pub open spec fn found_by(r: Result<Option<Entry>, Error>) -> Found {
    match r {
        Ok(Some(entry)) => Found::Entry { header: entry@.header, size: entry@.size },
        Ok(None) => Found::End,
        Err(e) => Found::Fail(e),
    }
}

/// A tar archive that is read from a byte source.
///
/// The archive owns the source, and all reading and seeking goes through
/// it, so that it always knows its position.
pub struct Archive<R: Readable> {
    pos: u64,
    obj: R,
}

impl<R: Readable> Archive<R> {
    /// The current position: how many bytes of the archive lie before the
    /// next byte to be read.
    pub closed spec fn position(&self) -> u64 {
        self.pos
    }

    /// The byte source.
    pub closed spec fn source(&self) -> R {
        self.obj
    }

    /// Whether the archive is well formed: the source has come at least as
    /// far as the archive has.
    pub open spec fn wf(&self) -> bool {
        self.position() <= self.source().offset()
    }

    /// Where in the content of the source the archive begins.
    pub open spec fn start(&self) -> int {
        self.source().offset() - self.position()
    }

    /// The bytes of the archive: the content of the source from where the
    /// archive begins.
    pub open spec fn bytes(&self) -> Seq<u8> {
        remainder(self.source().content(), self.start())
    }

    /// Whether the source never fails.
    pub open spec fn reliable(&self) -> bool {
        self.source().reliable()
    }

    /// Whether `self` is the archive `before` after some reading: the same
    /// bytes, beginning at the same place, from a source as reliable.
    pub open spec fn continues(&self, before: &Self) -> bool {
        &&& self.source().content() == before.source().content()
        &&& self.start() == before.start()
        &&& self.reliable() == before.reliable()
    }

    /// An archive over `obj`, at position 0 where `obj` now stands.
    pub fn new(obj: R) -> (archive: Archive<R>)
        ensures
            archive.wf(),
            archive.position() == 0,
            archive.source() == obj,
    {
        Archive { pos: 0, obj }
    }

    /// The current position.
    pub fn raw_file_position(&self) -> (position: u64)
        ensures
            position == self.position(),
    {
        self.pos
    }

    /// Gives the source back.
    pub fn into_inner(self) -> (obj: R)
        ensures
            obj == self.source(),
    {
        self.obj
    }

    /// Reads some bytes at the current position into the front of `buf`,
    /// tells how many, and moves the position past them.
    pub fn read(&mut self, buf: &mut [u8]) -> (r: Result<usize, Error>)
        requires
            old(self).wf(),
        ensures
            final(self).wf(),
            final(self).continues(old(self)),
            final(buf)@.len() == old(buf)@.len(),
            old(self).reliable() ==> r is Ok,
            match r {
                Ok(n) => {
                    &&& delivered(
                        old(self).bytes(),
                        old(self).position() as int,
                        n as int,
                        final(buf)@,
                    )
                    &&& final(self).position() == old(self).position() + n
                },
                Err(e) => {
                    &&& e matches Error::Io { operation: Operation::Read, .. }
                    &&& final(self).position() == old(self).position()
                },
            },
    {
        match self.obj.read(buf) {
            Ok(n) => {
                self.pos = self.pos + n as u64;
                Ok(n)
            },
            Err(cause) => Err(Error::Io { operation: Operation::Read, cause }),
        }
    }

    /// Starts a traversal of the entries that reads the archive from front
    /// to back.
    ///
    /// The source need not be able to seek for it, but each entry must be
    /// dealt with before the next is asked for. The traversal can only be
    /// had while the archive is at position 0.
    pub fn entries_mut(&mut self) -> (r: Result<EntriesMut, Error>)
        ensures
            *final(self) == *old(self),
            match r {
                Ok(entries) => {
                    &&& old(self).position() == 0
                    &&& entries@ == (Cursor { offset: 0, done: false })
                },
                Err(e) => old(self).position() != 0 && e == Error::NotAtStart,
            },
    {
        if self.pos != 0 {
            return Err(Error::NotAtStart);
        }
        Ok(EntriesMut::new())
    }

    /// Starts to unpack the archive.
    ///
    /// The archive is read from front to back for it, so this can only be
    /// had while the archive is at position 0. The extraction that is given
    /// back says of each entry in turn where it goes below the destination;
    /// to write it there is left to the caller.
    pub fn unpack(&mut self) -> (r: Result<Unpack, Error>)
        ensures
            *final(self) == *old(self),
            match r {
                Ok(unpack) => {
                    &&& old(self).position() == 0
                    &&& unpack@ == (Cursor { offset: 0, done: false })
                },
                Err(e) => old(self).position() != 0 && e == Error::NotAtStart,
            },
    {
        let entries: EntriesMut = self.entries_mut()?;
        Ok(Unpack::new(entries))
    }

    /// Reads the record that starts at the current position.
    pub fn read_block(&mut self, block: &mut [u8; 512]) -> (r: Result<(), Error>)
        requires
            old(self).wf(),
        ensures
            final(self).wf(),
            final(self).continues(old(self)),
            old(self).reliable() ==> !(r matches Err(Error::Io { .. })),
            match r {
                Ok(_) => {
                    &&& old(self).position() + 512 <= old(self).bytes().len()
                    &&& final(self).position() == old(self).position() + 512
                    &&& final(block)@ == block_at(old(self).bytes(), old(self).position() as int)
                },
                Err(Error::UnexpectedEof) => {
                    &&& old(self).position() + 512 > old(self).bytes().len()
                    &&& final(self).position() == max(
                        old(self).position() as int,
                        old(self).bytes().len() as int,
                    )
                },
                Err(Error::Io { operation, .. }) => {
                    &&& operation == Operation::Read
                    &&& old(self).position() <= final(self).position() < old(self).position() + 512
                },
                Err(_) => false,
            },
    {
        let ghost bytes = self.bytes();
        let ghost from = self.position() as int;
        let mut got: usize = 0;
        while got < 512
            invariant
                self.wf(),
                self.continues(old(self)),
                bytes == old(self).bytes(),
                from == old(self).position(),
                got <= 512,
                self.position() == from + got,
                got > 0 ==> from + got <= bytes.len(),
                forall|i: int| 0 <= i < got ==> block@[i] == bytes[from + i],
            decreases 512 - got,
        {
            let (_, rest) = block.split_at_mut(got);
            let n: usize = self.read(rest)?;
            if n == 0 {
                return Err(Error::UnexpectedEof);
            }
            got = got + n;
        }
        assert(block@ =~= block_at(bytes, from));
        Ok(())
    }

    /// Looks for a header at the current position.
    ///
    /// Gives the entry whose header stands there, nothing where the archive
    /// ends there, and an error where neither can be read there. The
    /// position is then behind what was read: at the first byte of the body
    /// where there is an entry.
    pub fn next_entry(&mut self) -> (r: Result<Option<Entry>, Error>)
        requires
            old(self).wf(),
        ensures
            final(self).wf(),
            final(self).continues(old(self)),
            old(self).reliable() ==> !(r matches Err(Error::Io { .. })),
            match r {
                Err(Error::Io { operation, .. }) => {
                    &&& operation == Operation::Read
                    &&& old(self).position() <= final(self).position() < old(self).position()
                        + 1024
                },
                _ => {
                    &&& found_by(r) == found_at(old(self).bytes(), old(self).position() as int)
                    &&& final(self).position() == reached(
                        old(self).bytes(),
                        old(self).position() as int,
                    )
                },
            },
            match r {
                Ok(Some(entry)) => {
                    &&& entry@.wf()
                    &&& entry@.data_offset == old(self).position() + 512
                    &&& entry@.consumed == 0
                },
                _ => true,
            },
    {
        let mut block: [u8; 512] = [0u8; 512];
        self.read_block(&mut block)?;
        if is_zero_block(&block) {
            self.read_block(&mut block)?;
            return if is_zero_block(&block) {
                Ok(None)
            } else {
                Err(Error::HeaderCorruption(Corruption::LoneZeroBlock))
            };
        }
        let header: Header = Header::new(block);
        let size: u64 = header.validate()?;
        let data_offset: u64 = self.pos;
        if round_up(size) > u64::MAX - data_offset {
            return Err(Error::HeaderCorruption(Corruption::BodyOutOfRange));
        }
        Ok(Some(Entry::new(header, size, data_offset)))
    }

    /// Reads and drops `amount` bytes.
    pub fn skip(&mut self, amount: u64) -> (r: Result<(), Error>)
        requires
            old(self).wf(),
        ensures
            final(self).wf(),
            final(self).continues(old(self)),
            old(self).reliable() ==> !(r matches Err(Error::Io { .. })),
            match r {
                Ok(_) => {
                    &&& final(self).position() == old(self).position() + amount
                    &&& amount > 0 ==> old(self).position() + amount <= old(self).bytes().len()
                },
                Err(Error::UnexpectedEof) => {
                    &&& old(self).position() + amount > old(self).bytes().len()
                    &&& final(self).position() == max(
                        old(self).position() as int,
                        old(self).bytes().len() as int,
                    )
                },
                Err(Error::Io { operation, .. }) => {
                    &&& operation == Operation::Read
                    &&& old(self).position() <= final(self).position() < old(self).position()
                        + amount
                },
                Err(_) => false,
            },
    {
        let mut scratch: [u8; 32768] = [0u8; 32768];
        let mut left: u64 = amount;
        while left > 0
            invariant
                self.wf(),
                self.continues(old(self)),
                left <= amount,
                self.position() == old(self).position() + (amount - left),
                left < amount ==> self.position() <= old(self).bytes().len(),
            decreases left,
        {
            let want: usize = if left < 32768 {
                left as usize
            } else {
                32768
            };
            let (chunk, _) = scratch.split_at_mut(want);
            let n: usize = self.read(chunk)?;
            if n == 0 {
                return Err(Error::UnexpectedEof);
            }
            left = left - n as u64;
        }
        Ok(())
    }
}

impl<R: Seekable> Archive<R> {
    /// Whether the position is the distance of the source from its beginning.
    pub open spec fn in_sync(&self) -> bool {
        self.start() == 0
    }

    /// The bytes of the archive once it has moved to `target`: the content
    /// of the source, unless the archive is at `target` already and stays as
    /// it is.
    pub open spec fn bytes_from(&self, target: u64) -> Seq<u8> {
        if target == self.position() {
            self.bytes()
        } else {
            self.source().content()
        }
    }

    /// Starts a traversal of the entries that seeks from header to header.
    ///
    /// The archive is moved to position 0 for it, which can fail where it is
    /// not there already.
    pub fn entries(&mut self) -> (r: Result<Entries, Error>)
        requires
            old(self).wf(),
        ensures
            final(self).wf(),
            final(self).source().content() == old(self).source().content(),
            final(self).reliable() == old(self).reliable(),
            old(self).position() == 0 ==> r is Ok && *final(self) == *old(self),
            old(self).reliable() ==> r is Ok,
            match r {
                Ok(entries) => {
                    &&& entries@ == (Cursor { offset: 0, done: false })
                    &&& final(self).position() == 0
                    &&& final(self).bytes() == old(self).bytes_from(0)
                    &&& old(self).position() != 0 ==> final(self).in_sync()
                },
                Err(e) => {
                    &&& e matches Error::Io { operation: Operation::Seek, .. }
                    &&& final(self).position() == old(self).position()
                    &&& final(self).start() == old(self).start()
                },
            },
    {
        self.seek_to(0)?;
        Ok(Entries::new())
    }

    /// Moves to `target`, without touching the source where the archive is
    /// there already.
    pub fn seek_to(&mut self, target: u64) -> (r: Result<(), Error>)
        requires
            old(self).wf(),
        ensures
            final(self).wf(),
            final(self).source().content() == old(self).source().content(),
            final(self).reliable() == old(self).reliable(),
            target == old(self).position() ==> r is Ok && *final(self) == *old(self),
            old(self).reliable() ==> r is Ok,
            match r {
                Ok(_) => {
                    &&& final(self).position() == target
                    &&& target != old(self).position() ==> final(self).in_sync()
                    &&& final(self).bytes() == old(self).bytes_from(target)
                },
                Err(e) => {
                    &&& e matches Error::Io { operation: Operation::Seek, .. }
                    &&& final(self).position() == old(self).position()
                    &&& final(self).start() == old(self).start()
                },
            },
    {
        if self.pos == target {
            return Ok(());
        }
        match self.obj.seek(target) {
            Ok(_) => {
                self.pos = target;
                Ok(())
            },
            Err(cause) => Err(Error::Io { operation: Operation::Seek, cause }),
        }
    }
}

} // verus!
