//! How the records of an archive follow each other: what stands at an offset
//! of a sequence of bytes, read as a tar archive.

use vstd::math::max;
use vstd::prelude::*;
use crate::block::{all_zero, lemma_padded_len, padded_len};
use crate::error::{Corruption, Error};
use crate::header::{checked_size, declared_size, lemma_changed_byte_fails_checksum};

verus! {

/// What is found where a header is looked for.
pub enum Found {
    /// An entry: its header record and the size of its body.
    Entry { header: Seq<u8>, size: u64 },
    /// The two records of zeros that end the archive.
    End,
    /// Nothing that can be read.
    Fail(Error),
}

/// The record of `bytes` that starts at `offset`.
pub open spec fn block_at(bytes: Seq<u8>, offset: int) -> Seq<u8> {
    bytes.subrange(offset, offset + 512)
}

/// The offset of the header that follows an entry whose own header stands at
/// `offset` and whose body has `size` bytes.
pub open spec fn following(offset: int, size: u64) -> int {
    offset + 512 + padded_len(size as nat)
}

/// What is found at `offset` in `bytes`.
///
/// Fewer than 512 bytes are an unexpected end. A record of zeros ends the
/// archive where a second one follows it, is an unexpected end where fewer
/// than 512 bytes follow it, and is corrupt otherwise. Any other record is a
/// header, and worth what `checked_size` says, unless the header after its
/// body would stand beyond the largest offset.
pub open spec fn found_at(bytes: Seq<u8>, offset: int) -> Found {
    if offset < 0 || offset + 512 > bytes.len() {
        Found::Fail(Error::UnexpectedEof)
    } else if all_zero(block_at(bytes, offset)) {
        if offset + 1024 > bytes.len() {
            Found::Fail(Error::UnexpectedEof)
        } else if all_zero(block_at(bytes, offset + 512)) {
            Found::End
        } else {
            Found::Fail(Error::HeaderCorruption(Corruption::LoneZeroBlock))
        }
    } else {
        match checked_size(block_at(bytes, offset)) {
            Err(e) => Found::Fail(e),
            Ok(size) => if following(offset, size) > u64::MAX {
                Found::Fail(Error::HeaderCorruption(Corruption::BodyOutOfRange))
            } else {
                Found::Entry { header: block_at(bytes, offset), size }
            },
        }
    }
}

/// How far a reader has come that started at `offset` and went on until it
/// knew what `found_at` says: past one record, past two where the first
/// holds zeros, and to the end of the bytes where they end before that.
pub open spec fn reached(bytes: Seq<u8>, offset: int) -> int {
    if offset + 512 > bytes.len() {
        max(offset, bytes.len() as int)
    } else if !all_zero(block_at(bytes, offset)) {
        offset + 512
    } else if offset + 1024 > bytes.len() {
        bytes.len() as int
    } else {
        offset + 1024
    }
}

/// Where a traversal stands.
pub struct Cursor {
    /// The offset of the next header.
    pub offset: u64,
    /// Whether the traversal has ended, at the end of the archive or at an
    /// error.
    pub done: bool,
}

impl Cursor {
    /// What a traversal that is not done yields next from `bytes`.
    pub open spec fn yields(self, bytes: Seq<u8>) -> Found {
        found_at(bytes, self.offset as int)
    }

    /// Where the traversal stands after it has yielded that: at the header
    /// that follows where it yielded an entry, and at its end where it did
    /// not.
    pub open spec fn after(self, bytes: Seq<u8>) -> Cursor {
        match self.yields(bytes) {
            Found::Entry { size, .. } => Cursor {
                offset: following(self.offset as int, size) as u64,
                done: false,
            },
            _ => Cursor { offset: self.offset, done: true },
        }
    }
}

/// How far `offset` is from the end of `bytes`.
pub open spec fn distance(bytes: Seq<u8>, offset: u64) -> nat {
    if offset >= bytes.len() {
        0
    } else {
        (bytes.len() - offset) as nat
    }
}

/// The entries that a traversal of `bytes` yields from `cursor` on, each as
/// its header record and the size of its body, in the order in which they
/// are yielded.
pub open spec fn listing(bytes: Seq<u8>, cursor: Cursor) -> Seq<(Seq<u8>, u64)>
    decreases distance(bytes, cursor.offset),
{
    if cursor.done {
        Seq::empty()
    } else {
        match cursor.yields(bytes) {
            Found::Entry { header, size } => seq![(header, size)] + listing(
                bytes,
                cursor.after(bytes),
            ),
            _ => Seq::empty(),
        }
    }
}

/// How a traversal of `bytes` from `cursor` on ends: with what it finds
/// where it finds no entry, the end of the archive or an error.
pub open spec fn ending(bytes: Seq<u8>, cursor: Cursor) -> Found
    decreases distance(bytes, cursor.offset),
{
    if cursor.done {
        Found::End
    } else {
        match cursor.yields(bytes) {
            Found::Entry { .. } => ending(bytes, cursor.after(bytes)),
            other => other,
        }
    }
}

/// What a traversal yields is the first entry of its listing, and what it
/// yields after that is the rest; a traversal that yields no entry has an
/// empty listing, and ends with what it yields.
pub proof fn lemma_listing_step(bytes: Seq<u8>, cursor: Cursor)
    requires
        !cursor.done,
    ensures
        match cursor.yields(bytes) {
            Found::Entry { header, size } => {
                &&& listing(bytes, cursor) == seq![(header, size)] + listing(
                    bytes,
                    cursor.after(bytes),
                )
                &&& ending(bytes, cursor) == ending(bytes, cursor.after(bytes))
            },
            other => {
                &&& listing(bytes, cursor) == Seq::<(Seq<u8>, u64)>::empty()
                &&& ending(bytes, cursor) == other
            },
        },
{
}

/// Two records of zeros are an archive without entries, whatever follows
/// them.
pub proof fn lemma_two_zero_records_end_the_archive(bytes: Seq<u8>)
    requires
        bytes.len() >= 1024,
        all_zero(bytes.subrange(0, 1024)),
    ensures
        found_at(bytes, 0) == Found::End,
        listing(bytes, Cursor { offset: 0, done: false }) == Seq::<(Seq<u8>, u64)>::empty(),
        ending(bytes, Cursor { offset: 0, done: false }) == Found::End,
{
    let both = bytes.subrange(0, 1024);
    assert forall|i: int| 0 <= i < 512 implies block_at(bytes, 0)[i] == 0 by {
        assert(bytes[i] == both[i]);
    }
    assert forall|i: int| 0 <= i < 512 implies block_at(bytes, 512)[i] == 0 by {
        assert(bytes[512 + i] == both[512 + i]);
    }
}

/// A record of zeros before a record that holds another byte is corrupt.
pub proof fn lemma_lone_zero_record_is_corrupt(bytes: Seq<u8>, offset: int)
    requires
        0 <= offset,
        offset + 1024 <= bytes.len(),
        all_zero(block_at(bytes, offset)),
        !all_zero(block_at(bytes, offset + 512)),
    ensures
        found_at(bytes, offset) == Found::Fail(
            Error::HeaderCorruption(Corruption::LoneZeroBlock),
        ),
{
}

/// Headers stand at multiples of 512: behind an entry whose header stands at
/// one, the next header stands at one, with room between them for the
/// header and the body and for less than one record more.
pub proof fn lemma_following_is_aligned(offset: int, size: u64)
    requires
        offset % 512 == 0,
    ensures
        following(offset, size) % 512 == 0,
        offset + 512 + size <= following(offset, size) < offset + 512 + size + 512,
{
    let padded = padded_len(size as nat) as int;
    lemma_padded_len(size as nat);
    assert((offset + 512 + padded) % 512 == 0) by (nonlinear_arith)
        requires
            offset % 512 == 0,
            padded % 512 == 0,
    ;
}

/// Where an entry is found, a change of one byte of its header outside the
/// checksum field leaves a checksum that does not match in its place, as
/// long as the size field still decodes.
pub proof fn lemma_changed_header_is_refused(bytes: Seq<u8>, offset: int, at: int, value: u8)
    requires
        found_at(bytes, offset) is Entry,
        0 <= at < 512,
        !(148 <= at < 156),
        value != bytes[offset + at],
        declared_size(block_at(bytes, offset).update(at, value)) is Ok,
    ensures
        found_at(bytes.update(offset + at, value), offset) == Found::Fail(
            Error::HeaderCorruption(Corruption::ChecksumMismatch),
        ),
{
    let block = block_at(bytes, offset);
    let changed = bytes.update(offset + at, value);
    assert(block_at(changed, offset) =~= block.update(at, value));
    lemma_changed_byte_fails_checksum(block, at, value);
}

} // verus!
