//! One entry of an archive: its header, and where its body lies.

use vstd::prelude::*;
use crate::archive::Archive;
use crate::block::{lemma_padded_len, padded_len};
use crate::error::{Error, Operation};
use crate::header::{path_of, Header};
use crate::source::{delivered, Readable, Seekable};

verus! {

/// An entry that a traversal has come to.
#[derive(Debug)]
pub struct Entry {
    header: Header,
    size: u64,
    data_offset: u64,
    pos: u64,
}

/// What an entry is made of.
pub struct EntryView {
    /// The header record.
    pub header: Seq<u8>,
    /// The size of the body in bytes.
    pub size: u64,
    /// The offset in the archive of the first byte of the body.
    pub data_offset: u64,
    /// How many bytes of the body have been read through the entry.
    pub consumed: u64,
}

impl View for Entry {
    type V = EntryView;

    closed spec fn view(&self) -> EntryView {
        EntryView {
            header: self.header@,
            size: self.size,
            data_offset: self.data_offset,
            consumed: self.pos,
        }
    }
}

impl EntryView {
    /// The offset of the header that follows the entry.
    pub open spec fn end(self) -> int {
        self.data_offset + padded_len(self.size as nat)
    }

    /// The offset in the archive of the first byte of the body that has not
    /// been read through the entry.
    pub open spec fn unread(self) -> int {
        self.data_offset + self.consumed
    }

    /// Whether the entry is well formed: no more is read than the body
    /// holds, and the header that follows stands at an offset that exists.
    pub open spec fn wf(self) -> bool {
        &&& self.header.len() == 512
        &&& self.consumed <= self.size
        &&& self.end() <= u64::MAX
    }
}

impl Entry {
    /// An entry of which nothing has been read yet.
    pub(crate) fn new(header: Header, size: u64, data_offset: u64) -> (entry: Entry)
        ensures
            entry@ == (EntryView { header: header@, size, data_offset, consumed: 0 }),
    {
        Entry { header, size, data_offset, pos: 0 }
    }

    /// The header of the entry.
    pub fn header(&self) -> (header: &Header)
        ensures
            header@ == self@.header,
    {
        &self.header
    }

    /// The path of the entry, as the bytes the header holds for it.
    pub fn path_bytes(&self) -> (path: Vec<u8>)
        ensures
            path@ == path_of(self@.header),
    {
        self.header.path_bytes()
    }

    /// The size of the body in bytes.
    pub fn size(&self) -> (size: u64)
        ensures
            size == self@.size,
    {
        self.size
    }

    /// The type flag of the entry.
    pub fn entry_type(&self) -> (flag: u8)
        ensures
            flag == self@.header[156],
    {
        self.header.entry_type()
    }

    /// The offset in the archive of the first byte of the body.
    pub fn data_offset(&self) -> (offset: u64)
        ensures
            offset == self@.data_offset,
    {
        self.data_offset
    }

    /// How many bytes of the body have been read through the entry.
    pub fn consumed(&self) -> (consumed: u64)
        ensures
            consumed == self@.consumed,
    {
        self.pos
    }

    /// How many bytes a read into a buffer of `room` bytes asks for: what is
    /// left of the body, or the whole buffer where that is less.
    pub open spec fn wanted(&self, room: nat) -> nat {
        let left = (self@.size - self@.consumed) as nat;
        if left < room {
            left
        } else {
            room
        }
    }

    /// Whether `self` is the entry `before` with `n` more bytes read.
    pub open spec fn advanced(&self, before: &Self, n: int) -> bool {
        self@ == (EntryView { consumed: (before@.consumed + n) as u64, ..before@ })
    }

    /// Reads the next bytes of the body from a source that is read from
    /// front to back: the bytes at the current position of the archive, and
    /// no more of them than the body has left.
    pub fn read_next<R: Readable>(
        &mut self,
        archive: &mut Archive<R>,
        buf: &mut [u8],
    ) -> (r: Result<usize, Error>)
        requires
            old(archive).wf(),
            old(self)@.wf(),
        ensures
            final(archive).wf(),
            final(archive).continues(old(archive)),
            final(buf)@.len() == old(buf)@.len(),
            ({
                let asked = old(self).wanted(old(buf)@.len()) as int;
                final(buf)@.skip(asked) == old(buf)@.skip(asked)
            }),
            old(archive).reliable() ==> r is Ok,
            match r {
                Ok(n) => {
                    &&& final(self)@.wf()
                    &&& final(self).advanced(old(self), n as int)
                    &&& final(archive).position() == old(archive).position() + n
                    &&& delivered(
                        old(archive).bytes(),
                        old(archive).position() as int,
                        n as int,
                        final(buf)@.take(old(self).wanted(old(buf)@.len()) as int),
                    )
                },
                Err(e) => {
                    &&& e matches Error::Io { operation: Operation::Read, .. }
                    &&& *final(self) == *old(self)
                    &&& final(archive).position() == old(archive).position()
                },
            },
    {
        let left: u64 = self.size - self.pos;
        let want: usize = if left < buf.len() as u64 {
            left as usize
        } else {
            buf.len()
        };
        let (front, _) = buf.split_at_mut(want);
        let n: usize = archive.read(front)?;
        self.pos = self.pos + n as u64;
        Ok(n)
    }

    /// Reads the next bytes of the body from a source that can seek: moves
    /// the archive to where they lie, and reads there no more than the body
    /// has left. Nothing is done where the body has nothing left.
    pub fn read<R: Seekable>(
        &mut self,
        archive: &mut Archive<R>,
        buf: &mut [u8],
    ) -> (r: Result<usize, Error>)
        requires
            old(archive).wf(),
            old(self)@.wf(),
        ensures
            final(archive).wf(),
            final(archive).source().content() == old(archive).source().content(),
            final(archive).reliable() == old(archive).reliable(),
            old(archive).in_sync() ==> final(archive).in_sync(),
            final(buf)@.len() == old(buf)@.len(),
            ({
                let asked = old(self).wanted(old(buf)@.len()) as int;
                final(buf)@.skip(asked) == old(buf)@.skip(asked)
            }),
            old(archive).reliable() ==> r is Ok,
            old(self)@.consumed == old(self)@.size ==> r == Ok::<usize, Error>(0) && *final(self)
                == *old(self) && *final(archive) == *old(archive),
            match r {
                Ok(n) => {
                    &&& final(self)@.wf()
                    &&& final(self).advanced(old(self), n as int)
                    &&& old(self)@.consumed < old(self)@.size ==> ({
                        let from = old(self)@.unread();
                        &&& final(archive).position() == from + n
                        &&& final(archive).bytes() == old(archive).bytes_from(from as u64)
                        &&& delivered(
                            final(archive).bytes(),
                            from,
                            n as int,
                            final(buf)@.take(old(self).wanted(old(buf)@.len()) as int),
                        )
                    })
                },
                Err(e) => {
                    &&& e is Io
                    &&& *final(self) == *old(self)
                },
            },
    {
        if self.size == self.pos {
            return Ok(0);
        }
        proof {
            lemma_padded_len(self.size as nat);
        }
        archive.seek_to(self.data_offset + self.pos)?;
        self.read_next(archive, buf)
    }
}

} // verus!
