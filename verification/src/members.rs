//! Well-formed archives: the bytes that a sequence of members makes, and
//! what a traversal finds in them.

use vstd::prelude::*;
use crate::block::{all_zero, lemma_padded_len, padded_len};
use crate::header::{checked_size, lemma_zero_block_is_no_header};
use crate::layout::{block_at, ending, found_at, lemma_listing_step, listing, Cursor, Found};

verus! {

/// One member of an archive: a header record and the body it stands for.
pub struct Member {
    pub header: Seq<u8>,
    pub body: Seq<u8>,
}

impl Member {
    /// Whether the header is a valid one that declares the size of the body.
    pub open spec fn wf(self) -> bool {
        &&& self.header.len() == 512
        &&& self.body.len() <= u64::MAX
        &&& checked_size(self.header) == Ok::<u64, crate::error::Error>(self.body.len() as u64)
    }

    /// The records that the member takes in an archive: its header, and its
    /// body with as many zeros behind it as fill the last record.
    pub open spec fn image(self) -> Seq<u8> {
        self.header + self.body + zeros((padded_len(self.body.len()) - self.body.len()) as nat)
    }

    /// The member as a traversal yields it.
    pub open spec fn listed(self) -> (Seq<u8>, u64) {
        (self.header, self.body.len() as u64)
    }
}

/// `n` bytes of zero.
pub open spec fn zeros(n: nat) -> Seq<u8> {
    Seq::new(n, |i: int| 0u8)
}

/// The archive that holds `members`: their images one behind the other, and
/// two records of zeros at the end.
pub open spec fn archive_of(members: Seq<Member>) -> Seq<u8>
    decreases members.len(),
{
    if members.len() == 0 {
        zeros(1024)
    } else {
        members[0].image() + archive_of(members.skip(1))
    }
}

/// The members as a traversal yields them.
pub open spec fn listed(members: Seq<Member>) -> Seq<(Seq<u8>, u64)> {
    Seq::new(members.len(), |i: int| members[i].listed())
}

/// Whether every member is well formed.
pub open spec fn all_wf(members: Seq<Member>) -> bool {
    forall|i: int| 0 <= i < members.len() ==> (#[trigger] members[i]).wf()
}

/// Whether `bytes` hold the archive of `members` from `offset` on.
pub open spec fn holds(bytes: Seq<u8>, offset: u64, members: Seq<Member>) -> bool {
    &&& bytes.len() <= u64::MAX
    &&& offset + archive_of(members).len() <= bytes.len()
    &&& bytes.subrange(offset as int, offset + archive_of(members).len()) == archive_of(members)
}

/// Where the archive of some members begins, the first of them is found:
/// its header, behind it its body, and behind the image of the two the
/// archive of the other members.
pub proof fn lemma_first_member_is_found(bytes: Seq<u8>, offset: u64, members: Seq<Member>)
    requires
        all_wf(members),
        members.len() > 0,
        holds(bytes, offset, members),
    ensures
        members[0].image().len() == 512 + padded_len(members[0].body.len()),
        members[0].image().len() % 512 == 0,
        found_at(bytes, offset as int) == (Found::Entry {
            header: members[0].header,
            size: members[0].body.len() as u64,
        }),
        bytes.subrange(offset + 512, offset + 512 + members[0].body.len()) == members[0].body,
        all_wf(members.skip(1)),
        holds(bytes, (offset + members[0].image().len()) as u64, members.skip(1)),
{
    let first = members[0];
    let others = members.skip(1);
    let whole = archive_of(members);
    let step = first.image().len();
    let padded = padded_len(first.body.len());
    lemma_padded_len(first.body.len());
    assert((512 + padded) % 512 == 0) by (nonlinear_arith)
        requires
            padded % 512 == 0,
    ;
    assert forall|k: int| 0 <= k < whole.len() implies bytes[offset + k] == whole[k] by {
        assert(bytes.subrange(offset as int, offset + whole.len())[k] == whole[k]);
    }
    assert(block_at(bytes, offset as int) =~= first.header);
    if all_zero(first.header) {
        lemma_zero_block_is_no_header(first.header);
    }
    assert(bytes.subrange(offset + 512, offset + 512 + first.body.len()) =~= first.body) by {
        assert forall|k: int| 0 <= k < first.body.len() implies bytes[offset + 512 + k]
            == first.body[k] by {
            assert(whole[512 + k] == first.body[k]);
        }
    }
    assert(all_wf(others)) by {
        assert forall|k: int| 0 <= k < others.len() implies (#[trigger] others[k]).wf() by {
            assert(others[k] == members[k + 1]);
        }
    }
    assert(bytes.subrange(offset + step, offset + step + archive_of(others).len()) =~= archive_of(
        others,
    )) by {
        assert forall|k: int| 0 <= k < archive_of(others).len() implies bytes[offset + step + k]
            == archive_of(others)[k] by {
            assert(whole[step + k] == archive_of(others)[k]);
        }
    }
}

/// Where the archive of no members begins, the end of the archive is found.
pub proof fn lemma_end_is_found(bytes: Seq<u8>, offset: u64)
    requires
        holds(bytes, offset, Seq::<Member>::empty()),
    ensures
        found_at(bytes, offset as int) == Found::End,
{
    let end = bytes.subrange(offset as int, offset + 1024);
    let first = block_at(bytes, offset as int);
    let second = block_at(bytes, offset + 512);
    assert(end == zeros(1024));
    assert forall|k: int| 0 <= k < 512 implies first[k] == 0 && second[k] == 0 by {
        assert(first[k] == end[k] && second[k] == end[512 + k]);
    }
}

/// A traversal that stands where the archive of `members` begins yields the
/// members in their order and then ends without an error.
pub proof fn lemma_listing_of_members(bytes: Seq<u8>, offset: u64, members: Seq<Member>)
    requires
        all_wf(members),
        holds(bytes, offset, members),
    ensures
        listing(bytes, Cursor { offset, done: false }) == listed(members),
        ending(bytes, Cursor { offset, done: false }) == Found::End,
    decreases members.len(),
{
    let cursor = Cursor { offset, done: false };
    lemma_listing_step(bytes, cursor);
    if members.len() == 0 {
        assert(members =~= Seq::<Member>::empty());
        lemma_end_is_found(bytes, offset);
        assert(listed(members) =~= Seq::<(Seq<u8>, u64)>::empty());
    } else {
        let first = members[0];
        let others = members.skip(1);
        let next = Cursor { offset: (offset + first.image().len()) as u64, done: false };
        lemma_first_member_is_found(bytes, offset, members);
        lemma_listing_of_members(bytes, next.offset, others);
        assert(cursor.after(bytes) == next);
        assert(seq![first.listed()] + listed(others) =~= listed(members)) by {
            assert forall|k: int| 0 < k < members.len() implies listed(others)[k - 1] == listed(
                members,
            )[k] by {
                assert(others[k - 1] == members[k]);
            }
        }
    }
}

/// The offset in the archive of `members` at which the header of the member
/// `i` stands: behind the images of the members before it.
pub open spec fn offset_of(members: Seq<Member>, i: nat) -> nat
    decreases i,
{
    if i == 0 || members.len() == 0 {
        0
    } else {
        members[0].image().len() + offset_of(members.skip(1), (i - 1) as nat)
    }
}

/// Each member lies in the archive where its header is found: at its
/// offset, which is a multiple of 512, stands an entry with the header of
/// the member and the size of its body, and behind that header lies the
/// body.
pub proof fn lemma_member_is_found(bytes: Seq<u8>, offset: u64, members: Seq<Member>, i: nat)
    requires
        all_wf(members),
        i < members.len(),
        holds(bytes, offset, members),
    ensures
        offset_of(members, i) % 512 == 0,
        found_at(bytes, offset + offset_of(members, i)) == (Found::Entry {
            header: members[i as int].header,
            size: members[i as int].body.len() as u64,
        }),
        offset + offset_of(members, i) + 512 + members[i as int].body.len() <= bytes.len(),
        bytes.subrange(
            offset + offset_of(members, i) + 512,
            offset + offset_of(members, i) + 512 + members[i as int].body.len(),
        ) == members[i as int].body,
    decreases i,
{
    lemma_first_member_is_found(bytes, offset, members);
    if i > 0 {
        let others = members.skip(1);
        let step = members[0].image().len();
        let rest = offset_of(others, (i - 1) as nat);
        lemma_member_is_found(bytes, (offset + step) as u64, others, (i - 1) as nat);
        assert(others[i - 1] == members[i as int]);
        assert(offset_of(members, i) == step + rest);
        assert(offset + offset_of(members, i) == (offset + step) as u64 + rest);
        assert((step + rest) % 512 == 0) by (nonlinear_arith)
            requires
                step % 512 == 0,
                rest % 512 == 0,
        ;
    }
}

/// A traversal of a well-formed archive from its beginning yields the
/// members of the archive in their order and then ends without an error.
pub proof fn lemma_listing_of_archive(members: Seq<Member>)
    requires
        all_wf(members),
        archive_of(members).len() <= u64::MAX,
    ensures
        listing(archive_of(members), Cursor { offset: 0, done: false }) == listed(members),
        ending(archive_of(members), Cursor { offset: 0, done: false }) == Found::End,
{
    let bytes = archive_of(members);
    assert(bytes.subrange(0, bytes.len() as int) =~= bytes);
    lemma_listing_of_members(bytes, 0, members);
}

} // verus!
