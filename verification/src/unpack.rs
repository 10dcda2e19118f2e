//! Extraction: where the entries of an archive go below a destination, and
//! which of them are left out.

use vstd::prelude::*;
use crate::archive::Archive;
use crate::entries::{streams, EntriesMut, Stepped};
use crate::layout::Cursor;
use crate::entry::Entry;
use crate::error::Error;
use crate::header::path_of;
use crate::source::Readable;

verus! {

/// The byte that parts the components of a path.
pub const SLASH: u8 = 0x2f;

/// The byte of which the components `.` and `..` are made.
pub const DOT: u8 = 0x2e;

/// The components of `path`: what stands before, between and behind its
/// slashes, empty components among them.
pub open spec fn components(path: Seq<u8>) -> Seq<Seq<u8>>
    decreases path.len(),
{
    if path.len() == 0 {
        seq![Seq::<u8>::empty()]
    } else {
        let before = components(path.drop_last());
        if path.last() == SLASH {
            before.push(Seq::<u8>::empty())
        } else {
            before.drop_last().push(before.last().push(path.last()))
        }
    }
}

/// Whether a component is the parent directory, `..`.
pub open spec fn is_parent(component: Seq<u8>) -> bool {
    component == seq![DOT, DOT]
}

/// Whether a component names something: it is not empty, as a component
/// before a leading slash or between two slashes is, and it is neither the
/// current directory, `.`, nor the parent directory.
pub open spec fn is_name(component: Seq<u8>) -> bool {
    component.len() > 0 && component != seq![DOT] && !is_parent(component)
}

/// Whether one of the components is the parent directory.
pub open spec fn climbs(parts: Seq<Seq<u8>>) -> bool {
    exists|i: int| 0 <= i < parts.len() && is_parent(#[trigger] parts[i])
}

/// Those of the components that name something, in their order.
pub open spec fn names(parts: Seq<Seq<u8>>) -> Seq<Seq<u8>>
    decreases parts.len(),
{
    if parts.len() == 0 {
        Seq::empty()
    } else if is_name(parts.last()) {
        names(parts.drop_last()).push(parts.last())
    } else {
        names(parts.drop_last())
    }
}

/// The components that a vector of components holds.
pub open spec fn rows(parts: Seq<Vec<u8>>) -> Seq<Seq<u8>> {
    Seq::new(parts.len(), |i: int| parts[i]@)
}

/// What becomes of an entry when the archive is unpacked.
#[derive(Debug, PartialEq, Eq)]
pub enum Target {
    /// The entry is written to the place that these components, one below
    /// the other, name below the destination.
    Write(Vec<Vec<u8>>),
    /// The path has a parent directory among its components: the entry is
    /// left out.
    Climbs,
    /// The path names nothing: the entry is left out.
    Nameless,
}

/// What becomes of an entry when the archive is unpacked, as the contracts
/// put it: a `Target` with sequences for its vectors.
pub enum Place {
    Write(Seq<Seq<u8>>),
    Climbs,
    Nameless,
}

impl View for Target {
    type V = Place;

    open spec fn view(&self) -> Place {
        match self {
            Target::Write(parts) => Place::Write(rows(parts@)),
            Target::Climbs => Place::Climbs,
            Target::Nameless => Place::Nameless,
        }
    }
}

/// Where an entry with the path `path` goes: nowhere where a component of
/// the path is the parent directory or where no component names anything,
/// and else to the components that name something.
pub open spec fn place_of(path: Seq<u8>) -> Place {
    let parts = components(path);
    if climbs(parts) {
        Place::Climbs
    } else if names(parts).len() == 0 {
        Place::Nameless
    } else {
        Place::Write(names(parts))
    }
}

/// The components one behind the other, with a slash between each two.
pub open spec fn joined(parts: Seq<Seq<u8>>) -> Seq<u8>
    decreases parts.len(),
{
    if parts.len() == 0 {
        Seq::empty()
    } else if parts.len() == 1 {
        parts[0]
    } else {
        joined(parts.drop_last()) + seq![SLASH] + parts.last()
    }
}

/// The components of a path are the path cut at its slashes: joined again
/// they are the path.
pub proof fn lemma_components_join_to_path(path: Seq<u8>)
    ensures
        components(path).len() > 0,
        joined(components(path)) == path,
    decreases path.len(),
{
    if path.len() > 0 {
        let front = path.drop_last();
        let before = components(front);
        let parts = components(path);
        lemma_components_join_to_path(front);
        assert(path =~= front.push(path.last()));
        if path.last() == SLASH {
            assert(parts.drop_last() =~= before);
        } else if before.len() > 1 {
            assert(parts.drop_last() =~= before.drop_last());
        }
    }
}

/// No component of a path holds a slash.
pub proof fn lemma_components_hold_no_slash(path: Seq<u8>)
    ensures
        components(path).len() > 0,
        forall|i: int, j: int|
            0 <= i < components(path).len() && 0 <= j < components(path)[i].len()
                ==> #[trigger] components(path)[i][j] != SLASH,
    decreases path.len(),
{
    if path.len() > 0 {
        lemma_components_hold_no_slash(path.drop_last());
    }
}

/// Every name is one of the components, and names something.
pub proof fn lemma_names_are_components(parts: Seq<Seq<u8>>)
    ensures
        forall|k: int|
            0 <= k < names(parts).len() ==> {
                &&& is_name(#[trigger] names(parts)[k])
                &&& parts.contains(names(parts)[k])
            },
    decreases parts.len(),
{
    if parts.len() > 0 {
        let before = parts.drop_last();
        lemma_names_are_components(before);
        assert forall|k: int| 0 <= k < names(parts).len() implies is_name(
            #[trigger] names(parts)[k],
        ) && parts.contains(names(parts)[k]) by {
            if k < names(before).len() {
                assert(before.contains(names(before)[k]));
            }
        }
    }
}

/// Nothing is written outside the destination: where an entry is written,
/// each component of the place names something, none is the parent
/// directory, and none holds a slash.
pub proof fn lemma_place_stays_inside(path: Seq<u8>)
    ensures
        match place_of(path) {
            Place::Write(parts) => {
                &&& parts.len() > 0
                &&& forall|k: int|
                    0 <= k < parts.len() ==> {
                        &&& is_name(#[trigger] parts[k])
                        &&& !is_parent(parts[k])
                        &&& !parts[k].contains(SLASH)
                    }
            },
            _ => true,
        },
{
    let all = components(path);
    lemma_components_hold_no_slash(path);
    lemma_names_are_components(all);
    if !climbs(all) && names(all).len() > 0 {
        let parts = names(all);
        assert forall|k: int| 0 <= k < parts.len() implies is_name(#[trigger] parts[k])
            && !is_parent(parts[k]) && !parts[k].contains(SLASH) by {
            assert(all.contains(parts[k]));
        }
    }
}

/// A path with a parent directory among its components is left out.
pub proof fn lemma_parent_is_left_out(path: Seq<u8>, i: int)
    requires
        0 <= i < components(path).len(),
        is_parent(components(path)[i]),
    ensures
        place_of(path) == Place::Climbs,
{
}

/// One more component climbs where it is the parent directory or where the
/// components before it climb.
pub proof fn lemma_climbs_push(parts: Seq<Seq<u8>>, last: Seq<u8>)
    ensures
        climbs(parts.push(last)) == (climbs(parts) || is_parent(last)),
{
    let more = parts.push(last);
    if climbs(parts) {
        let i = choose|i: int| 0 <= i < parts.len() && is_parent(#[trigger] parts[i]);
        assert(is_parent(more[i]));
    }
    if is_parent(last) {
        assert(is_parent(more[parts.len() as int]));
    }
    if climbs(more) && !is_parent(last) {
        let i = choose|i: int| 0 <= i < more.len() && is_parent(#[trigger] more[i]);
        assert(is_parent(parts[i]));
    }
}

/// Tells whether a component is the parent directory.
fn names_parent(component: &Vec<u8>) -> (r: bool)
    ensures
        r == is_parent(component@),
{
    let r: bool = component.len() == 2 && component[0] == DOT && component[1] == DOT;
    proof {
        if r {
            assert(component@ =~= seq![DOT, DOT]);
        }
    }
    r
}

/// Tells whether a component names something.
fn names_something(component: &Vec<u8>) -> (r: bool)
    ensures
        r == is_name(component@),
{
    let current: bool = component.len() == 1 && component[0] == DOT;
    proof {
        if current {
            assert(component@ =~= seq![DOT]);
        }
    }
    component.len() > 0 && !current && !names_parent(component)
}

/// Finds where an entry with the path `path` goes.
pub fn destination(path: &[u8]) -> (target: Target)
    ensures
        target@ == place_of(path@),
{
    let mut kept: Vec<Vec<u8>> = Vec::new();
    let mut current: Vec<u8> = Vec::new();
    let mut climbing: bool = false;
    let mut i: usize = 0;
    while i < path.len()
        invariant
            i <= path@.len(),
            components(path@.take(i as int)).len() > 0,
            current@ == components(path@.take(i as int)).last(),
            rows(kept@) == names(components(path@.take(i as int)).drop_last()),
            climbing == climbs(components(path@.take(i as int)).drop_last()),
        decreases path@.len() - i,
    {
        let ghost before = components(path@.take(i as int));
        let ghost now = components(path@.take(i + 1));
        proof {
            assert(path@.take(i + 1).drop_last() =~= path@.take(i as int));
        }
        let byte: u8 = path[i];
        if byte == SLASH {
            if names_parent(&current) {
                climbing = true;
            } else if names_something(&current) {
                kept.push(current);
            }
            current = Vec::new();
            proof {
                assert(now.drop_last() =~= before);
                assert(before =~= before.drop_last().push(before.last()));
                lemma_climbs_push(before.drop_last(), before.last());
            }
        } else {
            current.push(byte);
            proof {
                assert(now.drop_last() =~= before.drop_last());
            }
        }
        i += 1;
    }
    let ghost all = components(path@);
    proof {
        assert(path@.take(i as int) =~= path@);
        assert(all =~= all.drop_last().push(all.last()));
        lemma_climbs_push(all.drop_last(), all.last());
    }
    if climbing || names_parent(&current) {
        return Target::Climbs;
    }
    if names_something(&current) {
        kept.push(current);
    }
    assert(rows(kept@) =~= names(all));
    if kept.len() == 0 {
        return Target::Nameless;
    }
    Target::Write(kept)
}

/// An extraction under way: a traversal of the archive from front to back
/// that says of each entry where it goes.
pub struct Unpack {
    entries: EntriesMut,
}

impl View for Unpack {
    type V = Cursor;

    closed spec fn view(&self) -> Cursor {
        self.entries@
    }
}

/// What is to be done next in an extraction.
#[derive(Debug)]
pub enum Step {
    /// The next entry, and where it goes. It is to be written where it goes
    /// somewhere, and to be passed over where it does not.
    Entry { entry: Entry, target: Target },
    /// The archive has been unpacked.
    Finished,
    /// The archive cannot be read further: the extraction has failed.
    Fail(Error),
}

impl Step {
    /// The step as a traversal would yield it.
    pub open spec fn yielded(self) -> Option<Result<Entry, Error>> {
        match self {
            Step::Entry { entry, .. } => Some(Ok(entry)),
            Step::Finished => None,
            Step::Fail(e) => Some(Err(e)),
        }
    }
}

impl Unpack {
    /// An extraction that stands at the first header.
    pub(crate) fn new(entries: EntriesMut) -> (unpack: Unpack)
        ensures
            unpack@ == entries@,
    {
        Unpack { entries }
    }

    /// The offset of the header that is read next.
    pub fn next_offset(&self) -> (offset: u64)
        ensures
            offset == self@.offset,
    {
        self.entries.next_offset()
    }

    /// Whether the extraction has ended.
    pub fn is_done(&self) -> (done: bool)
        ensures
            done == self@.done,
    {
        self.entries.is_done()
    }

    /// Reads on to the next entry and says where it goes.
    ///
    /// The entries come as a traversal from front to back yields them; the
    /// body of an entry that is passed over, and what is left unread of one
    /// that is written, is dropped on the way to the next. The first error
    /// ends the extraction.
    pub fn next<R: Readable>(&mut self, archive: &mut Archive<R>) -> (step: Step)
        requires
            old(archive).wf(),
            !old(self)@.done ==> old(archive).position() <= old(self)@.offset,
        ensures
            final(archive).wf(),
            final(archive).continues(old(archive)),
            old(self)@.done ==> *final(archive) == *old(archive),
            streams(
                old(self)@,
                old(archive).bytes(),
                old(archive).position(),
                old(archive).reliable(),
                (Stepped {
                    yielded: step.yielded(),
                    cursor: final(self)@,
                    position: final(archive).position(),
                }),
            ),
            match step {
                Step::Entry { entry, target } => target@ == place_of(path_of(entry@.header)),
                _ => true,
            },
    {
        match self.entries.next(archive) {
            None => Step::Finished,
            Some(Err(e)) => Step::Fail(e),
            Some(Ok(entry)) => {
                let path: Vec<u8> = entry.path_bytes();
                let target: Target = destination(path.as_slice());
                Step::Entry { entry, target }
            },
        }
    }
}

} // verus!
