//! A reader for tar archives.
//!
//! An [`Archive`] wraps a byte source and keeps track of the position
//! reached in it. Its entries can be traversed in two ways: [`Entries`]
//! seeks from header to header and leaves the bodies to be read in any
//! order, and [`EntriesMut`] reads the archive from front to back, for
//! sources that cannot seek. [`Unpack`] goes through an archive in the
//! second way and says of each entry where it belongs below a destination
//! directory, leaving out those that would end up outside of it.
//!
//! What the functions of the library do is stated over a model of the
//! archive format: `layout` says what stands at an offset of a sequence of
//! bytes, `header` what a header record is worth, and `members` which bytes
//! make a well-formed archive.

pub mod archive;
pub mod block;
pub mod entries;
pub mod entry;
pub mod error;
pub mod header;
pub mod layout;
pub mod members;
pub mod octal;
pub mod source;
pub mod unpack;

pub use crate::archive::Archive;
pub use crate::entries::{Entries, EntriesMut};
pub use crate::entry::Entry;
pub use crate::error::Error;
pub use crate::header::Header;
pub use crate::source::{MemSource, Readable, Seekable};
pub use crate::unpack::{Step, Target, Unpack};
