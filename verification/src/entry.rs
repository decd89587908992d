//! The data model of a sync: entries (file, folder, symlink) paired with
//! root-relative paths, the in-memory trees the doers walk, and the progress
//! markers echoed by the destination doer.

use vstd::prelude::*;

use crate::path::RootRelativePath;
use crate::path::clone_bytes;

verus! {

use crate::path::lex_lt;

/// File-link vs dir-link, meaningful on platforms that distinguish them;
/// elsewhere read as a default.
#[derive(Clone, Copy, Debug, PartialEq, Eq, Structural)]
pub enum SymlinkKind {
    File,
    Folder,
    Generic,
}

/// The coarse kind of an entry.
#[derive(Clone, Copy, Debug, PartialEq, Eq, Structural)]
pub enum EntryKind {
    File,
    Folder,
    Symlink,
}

/// The attributes of one entry as reported by a scan.
#[derive(Debug, PartialEq, Eq)]
pub enum EntryDetails {
    File { modified_time: u64, size: u64 },
    Folder,
    Symlink { target: Vec<u8>, kind: SymlinkKind },
}

/// Mathematical form of [`EntryDetails`].
pub enum EntryDetailsV {
    File { modified_time: u64, size: u64 },
    Folder,
    Symlink { target: Seq<u8>, kind: SymlinkKind },
}

impl View for EntryDetails {
    type V = EntryDetailsV;

    open spec fn view(&self) -> EntryDetailsV {
        match self {
            EntryDetails::File { modified_time, size } => EntryDetailsV::File {
                modified_time: *modified_time,
                size: *size,
            },
            EntryDetails::Folder => EntryDetailsV::Folder,
            EntryDetails::Symlink { target, kind } => EntryDetailsV::Symlink {
                target: target@,
                kind: *kind,
            },
        }
    }
}

/// The kind of a scanned entry.
pub open spec fn kind_of(d: EntryDetailsV) -> EntryKind {
    match d {
        EntryDetailsV::File { .. } => EntryKind::File,
        EntryDetailsV::Folder => EntryKind::Folder,
        EntryDetailsV::Symlink { .. } => EntryKind::Symlink,
    }
}

impl EntryDetails {
    /// The kind of this entry.
    pub fn kind(&self) -> (r: EntryKind)
        ensures
            r == kind_of(self@),
    {
        match self {
            EntryDetails::File { .. } => EntryKind::File,
            EntryDetails::Folder => EntryKind::Folder,
            EntryDetails::Symlink { .. } => EntryKind::Symlink,
        }
    }

    /// A copy of these details.
    pub fn duplicate(&self) -> (r: Self)
        ensures
            r@ == self@,
    {
        match self {
            EntryDetails::File { modified_time, size } => EntryDetails::File {
                modified_time: *modified_time,
                size: *size,
            },
            EntryDetails::Folder => EntryDetails::Folder,
            EntryDetails::Symlink { target, kind } => EntryDetails::Symlink {
                target: clone_bytes(target),
                kind: *kind,
            },
        }
    }
}

/// One entry of a side's ordered scan list.
#[derive(Debug, PartialEq, Eq)]
pub struct Entry {
    pub path: RootRelativePath,
    pub details: EntryDetails,
}

/// Mathematical form of [`Entry`].
pub struct EntryV {
    pub path: Seq<u8>,
    pub details: EntryDetailsV,
}

impl View for Entry {
    type V = EntryV;

    open spec fn view(&self) -> EntryV {
        EntryV { path: self.path@, details: self.details@ }
    }
}

/// The contents of one entry held in an in-memory tree.
#[derive(Debug, PartialEq, Eq)]
pub enum EntryContent {
    File { modified_time: u64, bytes: Vec<u8> },
    Folder,
    Symlink { target: Vec<u8>, kind: SymlinkKind },
}

/// Mathematical form of [`EntryContent`].
pub enum EntryContentV {
    File { modified_time: u64, bytes: Seq<u8> },
    Folder,
    Symlink { target: Seq<u8>, kind: SymlinkKind },
}

impl View for EntryContent {
    type V = EntryContentV;

    open spec fn view(&self) -> EntryContentV {
        match self {
            EntryContent::File { modified_time, bytes } => EntryContentV::File {
                modified_time: *modified_time,
                bytes: bytes@,
            },
            EntryContent::Folder => EntryContentV::Folder,
            EntryContent::Symlink { target, kind } => EntryContentV::Symlink {
                target: target@,
                kind: *kind,
            },
        }
    }
}

/// The scan attributes of a tree entry's contents: a file is reported with
/// its modified time and byte length.
pub open spec fn details_of(c: EntryContentV) -> EntryDetailsV {
    match c {
        EntryContentV::File { modified_time, bytes } => EntryDetailsV::File {
            modified_time,
            size: bytes.len() as u64,
        },
        EntryContentV::Folder => EntryDetailsV::Folder,
        EntryContentV::Symlink { target, kind } => EntryDetailsV::Symlink { target, kind },
    }
}

impl EntryContent {
    /// The kind of these contents.
    pub fn kind(&self) -> (r: EntryKind)
        ensures
            r == kind_of(details_of(self@)),
    {
        match self {
            EntryContent::File { .. } => EntryKind::File,
            EntryContent::Folder => EntryKind::Folder,
            EntryContent::Symlink { .. } => EntryKind::Symlink,
        }
    }

    /// The scan attributes of these contents.
    pub fn details(&self) -> (r: EntryDetails)
        requires
            self@ matches EntryContentV::File { bytes, .. } ==> bytes.len() <= u64::MAX,
        ensures
            r@ == details_of(self@),
    {
        match self {
            EntryContent::File { modified_time, bytes } => EntryDetails::File {
                modified_time: *modified_time,
                size: bytes.len() as u64,
            },
            EntryContent::Folder => EntryDetails::Folder,
            EntryContent::Symlink { target, kind } => EntryDetails::Symlink {
                target: clone_bytes(target),
                kind: *kind,
            },
        }
    }

    /// A copy of these contents.
    pub fn duplicate(&self) -> (r: Self)
        ensures
            r@ == self@,
    {
        match self {
            EntryContent::File { modified_time, bytes } => EntryContent::File {
                modified_time: *modified_time,
                bytes: clone_bytes(bytes),
            },
            EntryContent::Folder => EntryContent::Folder,
            EntryContent::Symlink { target, kind } => EntryContent::Symlink {
                target: clone_bytes(target),
                kind: *kind,
            },
        }
    }
}

/// One entry of an in-memory tree: a path and what lies at it.
#[derive(Debug, PartialEq, Eq)]
pub struct TreeEntry {
    pub path: RootRelativePath,
    pub content: EntryContent,
}

/// Mathematical form of [`TreeEntry`].
pub struct TreeEntryV {
    pub path: Seq<u8>,
    pub content: EntryContentV,
}

impl View for TreeEntry {
    type V = TreeEntryV;

    open spec fn view(&self) -> TreeEntryV {
        TreeEntryV { path: self.path@, content: self.content@ }
    }
}

/// A sequence of entries stands in strictly ascending canonical path order.
pub open spec fn strictly_sorted_entries(s: Seq<EntryV>) -> bool {
    forall|i: int, j: int| 0 <= i < j < s.len() ==> lex_lt(#[trigger] s[i].path, #[trigger] s[j].path)
}

/// A sequence of tree entries stands in strictly ascending canonical path
/// order.
pub open spec fn strictly_sorted_tree(s: Seq<TreeEntryV>) -> bool {
    forall|i: int, j: int| 0 <= i < j < s.len() ==> lex_lt(#[trigger] s[i].path, #[trigger] s[j].path)
}

/// The current phase of a sync as carried in a progress marker.
#[derive(Clone, Copy, Debug, PartialEq, Eq)]
pub enum ProgressPhase {
    Deleting { num_entries_deleted: u32, current_entry_id: Option<u32> },
    Copying { num_entries_copied: u32, num_bytes_copied: u64, current_entry_id: Option<u32> },
    Done,
}

/// A control message injected into the destination command stream; when the
/// destination doer echoes it, every command sent before it has completed.
#[derive(Clone, Copy, Debug, PartialEq, Eq)]
pub struct ProgressMarker {
    /// Cumulative work dispatched at the moment the marker was issued.
    pub completed_work: u64,
    /// The phase the sync was in at that moment.
    pub phase: ProgressPhase,
}

/// Counts of the concrete actions a sync run performed (or, in a dry run,
/// would have performed).
#[derive(Clone, Copy, Debug, PartialEq, Eq, Structural, Default)]
pub struct NumActions {
    pub copied_files: u32,
    pub created_folders: u32,
    pub copied_symlinks: u32,
    pub deleted_files: u32,
    pub deleted_folders: u32,
    pub deleted_symlinks: u32,
}

} // verus!
