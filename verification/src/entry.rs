//! What the matching engine reads of one entry of a directory listing.

use vstd::prelude::*;
use crate::args::FileType;

verus! {

/// The kind the file system gives for an entry.
#[derive(Debug, Clone, Copy, PartialEq, Eq, Structural)]
pub enum EntryKind {
    File,
    Dir,
    /// Neither a regular file nor a directory.
    Other,
}

impl EntryKind {
    /// The kind under which an entry is reported: directories as
    /// directories, everything else as files.
    pub open spec fn reported_as(self) -> FileType {
        if self == EntryKind::Dir {
            FileType::Dir
        } else {
            FileType::File
        }
    }

    /// The kind under which an entry of this kind is reported.
    pub fn file_type(&self) -> (t: FileType)
        ensures
            t == self.reported_as(),
    {
        match self {
            EntryKind::Dir => FileType::Dir,
            EntryKind::File => FileType::File,
            EntryKind::Other => FileType::File,
        }
    }

    /// Only directories are descended into.
    pub fn is_dir(&self) -> (r: bool)
        ensures
            r == (*self == EntryKind::Dir),
    {
        match self {
            EntryKind::Dir => true,
            EntryKind::File => false,
            EntryKind::Other => false,
        }
    }
}

/// Mode bits and owner of an entry.
#[derive(Debug, Clone, Copy, PartialEq, Eq, Structural)]
pub struct Metadata {
    /// The mode: permission bits and special bits.
    pub mode: u32,
    /// The owner's user id.
    pub uid: u32,
}

/// One entry of a directory listing, as plain values.
#[derive(Debug, Clone)]
pub struct Entry {
    /// The last segment of the entry's path; `None` where the path has none
    /// or it is not valid text.
    pub name: Option<String>,
    /// The entry's kind.
    pub kind: EntryKind,
    /// The entry's metadata; `None` where it could not be fetched.
    pub meta: Option<Metadata>,
}

impl Entry {
    /// The characters of the base name, where there is one.
    pub open spec fn name_text(&self) -> Option<Seq<char>> {
        match self.name {
            Some(s) => Some(s@),
            None => None,
        }
    }
}

} // verus!
