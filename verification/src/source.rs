//! Byte sources: what an archive is read from.

use vstd::math::{max, min};
use vstd::prelude::*;
use crate::error::Failure;

verus! {

/// What one successful read of `n` bytes does: the first `n` bytes of the
/// buffer are the `n` bytes of `content` that follow `offset`, and nothing
/// is read only from an empty buffer or at the end of the content.
pub open spec fn delivered(content: Seq<u8>, offset: int, n: int, buf: Seq<u8>) -> bool {
    &&& 0 <= n <= buf.len()
    &&& n > 0 ==> offset + n <= content.len()
    &&& forall|i: int| 0 <= i < n ==> buf[i] == content[offset + i]
    &&& n == 0 ==> buf.len() == 0 || offset >= content.len()
}

/// A source of bytes that can be read from front to back.
///
/// The contracts speak of a source through three things: the bytes it holds,
/// how far into them it stands, and whether it can fail. A verified
/// implementation says what they are, as `MemSource` does, and is held to
/// what `read` promises of them. An implementation in code that is not
/// verified cannot say so and leaves the three as they are given here; the
/// archive then reads what such a source hands out, and is as right as the
/// source is in keeping what `read` promises.
pub trait Readable {
    /// The bytes that the source holds, from its beginning on.
    open spec fn content(&self) -> Seq<u8> {
        Seq::empty()
    }

    /// How many bytes lie between the beginning and the next byte to be read.
    open spec fn offset(&self) -> u64 {
        0
    }

    /// Whether the source never fails.
    open spec fn reliable(&self) -> bool {
        false
    }

    /// Reads some bytes into the front of `buf` and tells how many.
    ///
    /// The bytes are those that follow where the source stands, and the
    /// source then stands behind them. There may be fewer of them than the
    /// buffer has room for, but none only where the buffer has no room or
    /// the source is at its end. A read that fails has read nothing.
    fn read(&mut self, buf: &mut [u8]) -> (r: Result<usize, Failure>)
        ensures
            final(self).content() == old(self).content(),
            final(self).reliable() == old(self).reliable(),
            final(buf)@.len() == old(buf)@.len(),
            old(self).reliable() ==> r is Ok,
            match r {
                Ok(n) => {
                    &&& delivered(
                        old(self).content(),
                        old(self).offset() as int,
                        n as int,
                        final(buf)@,
                    )
                    &&& final(self).offset() == old(self).offset() + n
                },
                Err(_) => final(self).offset() == old(self).offset(),
            },
    ;
}

/// A source that can also be put at any distance from its beginning.
pub trait Seekable: Readable {
    /// Puts the source `target` bytes from its beginning, which may be
    /// behind its last byte. A seek that fails leaves the source where it
    /// stood.
    fn seek(&mut self, target: u64) -> (r: Result<(), Failure>)
        ensures
            final(self).content() == old(self).content(),
            final(self).reliable() == old(self).reliable(),
            old(self).reliable() ==> r is Ok,
            match r {
                Ok(_) => final(self).offset() == target,
                Err(_) => final(self).offset() == old(self).offset(),
            },
    ;
}

/// A source that serves the bytes of a vector.
pub struct MemSource {
    data: Vec<u8>,
    pos: u64,
}

impl MemSource {
    /// The bytes that are served.
    pub closed spec fn data(&self) -> Seq<u8> {
        self.data@
    }

    /// How far into the bytes the source stands.
    pub closed spec fn pos(&self) -> u64 {
        self.pos
    }

    /// A source that stands at the beginning of `data`.
    pub fn new(data: Vec<u8>) -> (source: MemSource)
        ensures
            source.data() == data@,
            source.pos() == 0,
    {
        MemSource { data, pos: 0 }
    }

    /// How far into the bytes the source stands.
    pub fn position(&self) -> (pos: u64)
        ensures
            pos == self.pos(),
    {
        self.pos
    }

    /// Gives the bytes back.
    pub fn into_inner(self) -> (data: Vec<u8>)
        ensures
            data@ == self.data(),
    {
        self.data
    }
}

impl Readable for MemSource {
    open spec fn content(&self) -> Seq<u8> {
        self.data()
    }

    open spec fn offset(&self) -> u64 {
        self.pos()
    }

    open spec fn reliable(&self) -> bool {
        true
    }

    /// Reads as many bytes as the buffer has room for, or as are left.
    fn read(&mut self, buf: &mut [u8]) -> (r: Result<usize, Failure>)
        ensures
            r == Ok::<usize, Failure>(
                min(
                    old(buf)@.len() as int,
                    max(old(self).data().len() - old(self).pos(), 0),
                ) as usize,
            ),
            forall|i: int| r->Ok_0 <= i < old(buf)@.len() ==> final(buf)@[i] == old(buf)@[i],
    {
        let len: usize = self.data.len();
        if self.pos >= len as u64 {
            return Ok(0);
        }
        let start: usize = self.pos as usize;
        let n: usize = if buf.len() < len - start {
            buf.len()
        } else {
            len - start
        };
        let mut i: usize = 0;
        while i < n
            invariant
                i <= n <= buf@.len(),
                start + n <= len == self.data@.len(),
                buf@.len() == old(buf)@.len(),
                self.data@ == old(self).data@,
                self.pos == old(self).pos == start,
                forall|k: int| 0 <= k < i ==> buf@[k] == self.data@[start + k],
                forall|k: int| i <= k < buf@.len() ==> buf@[k] == old(buf)@[k],
            decreases n - i,
        {
            buf[i] = self.data[start + i];
            i += 1;
        }
        self.pos = self.pos + n as u64;
        Ok(n)
    }
}

impl Seekable for MemSource {
    /// Puts the source at `target`, which may lie behind its last byte.
    fn seek(&mut self, target: u64) -> (r: Result<(), Failure>) {
        self.pos = target;
        Ok(())
    }
}

} // verus!
