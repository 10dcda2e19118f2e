//! The two traversals of an archive: one that seeks from header to header,
//! and one that reads its way there.

use vstd::math::max;
use vstd::prelude::*;
use crate::archive::Archive;
use crate::block::{lemma_padded_len, round_up};
use crate::entry::Entry;
use crate::error::{Error, Operation};
use crate::layout::{ending, listing, reached, Cursor, Found};
use crate::members::{all_wf, archive_of, lemma_listing_of_archive, listed, Member};
use crate::source::{Readable, Seekable};

verus! {

/// What a step of a traversal has come to.
pub struct Stepped {
    /// What the step yields.
    pub yielded: Option<Result<Entry, Error>>,
    /// Where the traversal stands after the step.
    pub cursor: Cursor,
    /// The position of the archive after the step.
    pub position: u64,
}

impl Stepped {
    /// What the step yields, as `found_at` would put it.
    pub open spec fn found(self) -> Found {
        match self.yielded {
            Some(Ok(entry)) => Found::Entry { header: entry@.header, size: entry@.size },
            None => Found::End,
            Some(Err(e)) => Found::Fail(e),
        }
    }

    /// Whether the source failed in the step.
    pub open spec fn failed(self) -> bool {
        self.yielded matches Some(Err(Error::Io { .. }))
    }

    /// Whether the step is one of a traversal that stood at `before` in
    /// `bytes` and got what stands there: it yields what `found_at` says,
    /// an entry that it yields is well formed, has its body behind its
    /// header and has not been read from, and the traversal stands where the
    /// next header is, or is done where there is none.
    pub open spec fn finds(self, before: Cursor, bytes: Seq<u8>) -> bool {
        &&& self.found() == before.yields(bytes)
        &&& self.cursor == before.after(bytes)
        &&& self.yielded matches Some(Ok(entry)) ==> {
            &&& entry@.wf()
            &&& entry@.data_offset == before.offset + 512
            &&& entry@.consumed == 0
        }
    }

    /// Whether the step is one in which the source failed: only a source
    /// that is not reliable fails, and the traversal is done.
    pub open spec fn fails(self, before: Cursor, reliable: bool) -> bool {
        &&& !reliable
        &&& self.cursor == (Cursor { done: true, ..before })
    }
}

/// What one step of a traversal that seeks does.
///
/// `before` is the traversal before the step, `bytes` are the bytes of the
/// archive once it has moved to the offset of the traversal, and `step` is
/// what the step comes to. A traversal that is done yields nothing and stays
/// as it is. Any other gets what stands at its offset, and leaves the
/// archive behind what it has read for that, unless the source fails.
pub open spec fn seeks(before: Cursor, bytes: Seq<u8>, reliable: bool, step: Stepped) -> bool {
    if before.done {
        step.yielded is None && step.cursor == before
    } else if step.failed() {
        step.fails(before, reliable)
    } else {
        &&& step.finds(before, bytes)
        &&& step.position == reached(bytes, before.offset as int)
    }
}

/// What one step of a traversal that reads from front to back does.
///
/// `before` is the traversal before the step, `bytes` are the bytes of the
/// archive, `position` is the position of the archive before the step, and
/// `step` is what the step comes to. A traversal that is done yields nothing
/// and stays as it is. Any other gets what stands at its offset, whatever
/// the position was, and leaves the archive behind what it has read for
/// that, unless the source fails. The source is only read, never moved.
pub open spec fn streams(
    before: Cursor,
    bytes: Seq<u8>,
    position: u64,
    reliable: bool,
    step: Stepped,
) -> bool {
    if before.done {
        step.yielded is None && step.cursor == before && step.position == position
    } else if step.failed() {
        &&& step.fails(before, reliable)
        &&& step.yielded matches Some(Err(Error::Io { operation: Operation::Read, .. }))
    } else {
        &&& step.finds(before, bytes)
        &&& step.position == if before.offset > bytes.len() {
            max(position as int, bytes.len() as int)
        } else {
            reached(bytes, before.offset as int)
        }
    }
}

/// A traversal of the entries of an archive that seeks from header to
/// header.
///
/// The bodies of the entries are not read on the way, so they can be read in
/// any order, or not at all.
pub struct Entries {
    offset: u64,
    done: bool,
}

impl View for Entries {
    type V = Cursor;

    closed spec fn view(&self) -> Cursor {
        Cursor { offset: self.offset, done: self.done }
    }
}

/// A traversal of the entries of an archive that reads the archive from
/// front to back.
///
/// The source need not be able to seek, but each entry must be dealt with
/// before the next is asked for.
pub struct EntriesMut {
    next: u64,
    done: bool,
}

impl View for EntriesMut {
    type V = Cursor;

    closed spec fn view(&self) -> Cursor {
        Cursor { offset: self.next, done: self.done }
    }
}

impl Entries {
    /// A traversal that stands at the first header.
    pub(crate) fn new() -> (entries: Entries)
        ensures
            entries@ == (Cursor { offset: 0, done: false }),
    {
        Entries { offset: 0, done: false }
    }

    /// The offset of the header that the traversal reads next.
    pub fn next_offset(&self) -> (offset: u64)
        ensures
            offset == self@.offset,
    {
        self.offset
    }

    /// Whether the traversal has ended.
    pub fn is_done(&self) -> (done: bool)
        ensures
            done == self@.done,
    {
        self.done
    }

    /// Moves to the next header and yields the entry that it stands for.
    ///
    /// Yields nothing, and touches nothing, once the traversal is done. It
    /// is done after it has yielded an error, and after it has yielded
    /// nothing.
    pub fn next<R: Seekable>(
        &mut self,
        archive: &mut Archive<R>,
    ) -> (r: Option<Result<Entry, Error>>)
        requires
            old(archive).wf(),
        ensures
            final(archive).wf(),
            final(archive).source().content() == old(archive).source().content(),
            final(archive).reliable() == old(archive).reliable(),
            old(archive).in_sync() ==> final(archive).in_sync(),
            old(self)@.done ==> *final(archive) == *old(archive),
            !old(self)@.done && !(r matches Some(Err(Error::Io { .. }))) ==> final(archive).bytes()
                == old(archive).bytes_from(old(self)@.offset),
            seeks(
                old(self)@,
                old(archive).bytes_from(old(self)@.offset),
                old(archive).reliable(),
                (Stepped { yielded: r, cursor: final(self)@, position: final(archive).position() }),
            ),
    {
        if self.done {
            return None;
        }
        match archive.seek_to(self.offset) {
            Ok(_) => {},
            Err(e) => {
                self.done = true;
                return Some(Err(e));
            },
        }
        match archive.next_entry() {
            Ok(Some(entry)) => {
                proof {
                    lemma_padded_len(entry@.size as nat);
                }
                self.offset = entry.data_offset() + round_up(entry.size());
                Some(Ok(entry))
            },
            Ok(None) => {
                self.done = true;
                None
            },
            Err(e) => {
                self.done = true;
                Some(Err(e))
            },
        }
    }
}

impl EntriesMut {
    /// A traversal that stands at the first header.
    pub(crate) fn new() -> (entries: EntriesMut)
        ensures
            entries@ == (Cursor { offset: 0, done: false }),
    {
        EntriesMut { next: 0, done: false }
    }

    /// The offset of the header that the traversal reads next.
    pub fn next_offset(&self) -> (offset: u64)
        ensures
            offset == self@.offset,
    {
        self.next
    }

    /// Whether the traversal has ended.
    pub fn is_done(&self) -> (done: bool)
        ensures
            done == self@.done,
    {
        self.done
    }

    /// Reads on to the next header and yields the entry that it stands for.
    ///
    /// Whatever lies between the position of the archive and the header is
    /// read and dropped, so what is yielded does not depend on how much of
    /// the entry before was read. The archive must not have been read beyond
    /// the header.
    ///
    /// Yields nothing, and touches nothing, once the traversal is done. It
    /// is done after it has yielded an error, and after it has yielded
    /// nothing.
    pub fn next<R: Readable>(
        &mut self,
        archive: &mut Archive<R>,
    ) -> (r: Option<Result<Entry, Error>>)
        requires
            old(archive).wf(),
            !old(self)@.done ==> old(archive).position() <= old(self)@.offset,
        ensures
            final(archive).wf(),
            final(archive).continues(old(archive)),
            old(self)@.done ==> *final(archive) == *old(archive),
            streams(
                old(self)@,
                old(archive).bytes(),
                old(archive).position(),
                old(archive).reliable(),
                (Stepped { yielded: r, cursor: final(self)@, position: final(archive).position() }),
            ),
    {
        if self.done {
            return None;
        }
        let delta: u64 = self.next - archive.raw_file_position();
        match archive.skip(delta) {
            Ok(_) => {},
            Err(e) => {
                self.done = true;
                return Some(Err(e));
            },
        }
        match archive.next_entry() {
            Ok(Some(entry)) => {
                proof {
                    lemma_padded_len(entry@.size as nat);
                }
                self.next = entry.data_offset() + round_up(entry.size());
                Some(Ok(entry))
            },
            Ok(None) => {
                self.done = true;
                None
            },
            Err(e) => {
                self.done = true;
                Some(Err(e))
            },
        }
    }
}

/// A traversal that seeks and a traversal that reads from front to back
/// yield the same entries in the same order: where the two stand at the same
/// offset of an archive that is in sync, a step of the one and a step of the
/// other yield the same and leave the two at the same offset again, unless
/// the source fails.
pub proof fn lemma_traversals_agree<R: Seekable>(
    archive: &Archive<R>,
    before: Cursor,
    random: Stepped,
    streaming: Stepped,
)
    requires
        archive.wf(),
        archive.in_sync(),
        seeks(before, archive.bytes_from(before.offset), archive.reliable(), random),
        streams(before, archive.bytes(), archive.position(), archive.reliable(), streaming),
        !random.failed(),
        !streaming.failed(),
    ensures
        random.found() == streaming.found(),
        random.cursor == streaming.cursor,
        random.yielded matches Some(Ok(one)) ==> streaming.yielded matches Some(Ok(other)) && one@
            == other@,
        listing(archive.bytes_from(before.offset), before) == listing(archive.bytes(), before),
        ending(archive.bytes_from(before.offset), before) == ending(archive.bytes(), before),
{
    assert(archive.bytes() =~= archive.source().content());
}

/// Both traversals of a well-formed archive yield its members in their
/// order, and nothing else: the listing of either from the first header on
/// is the members of the archive, and either ends without an error.
pub proof fn lemma_traversals_yield_members<R: Seekable>(
    archive: &Archive<R>,
    members: Seq<Member>,
)
    requires
        archive.wf(),
        archive.in_sync(),
        archive.bytes() == archive_of(members),
        archive.bytes().len() <= u64::MAX,
        all_wf(members),
    ensures
        listing(archive.bytes_from(0), Cursor { offset: 0, done: false }) == listed(members),
        listing(archive.bytes(), Cursor { offset: 0, done: false }) == listed(members),
        ending(archive.bytes_from(0), Cursor { offset: 0, done: false }) == Found::End,
        ending(archive.bytes(), Cursor { offset: 0, done: false }) == Found::End,
{
    assert(archive.bytes() =~= archive.source().content());
    lemma_listing_of_archive(members);
}

/// What a traversal from front to back yields, and where it stands after,
/// does not depend on the position of the archive before the step, and so
/// not on how much of the entry before was read.
pub proof fn lemma_streaming_ignores_position(
    before: Cursor,
    bytes: Seq<u8>,
    reliable: bool,
    position: u64,
    step: Stepped,
    other_position: u64,
    other_step: Stepped,
)
    requires
        streams(before, bytes, position, reliable, step),
        streams(before, bytes, other_position, reliable, other_step),
        !step.failed(),
        !other_step.failed(),
    ensures
        step.found() == other_step.found(),
        step.cursor == other_step.cursor,
        step.yielded matches Some(Ok(one)) ==> other_step.yielded matches Some(Ok(other)) && one@
            == other@,
{
}

} // verus!
