//! The destination doer: applies deletes, folder creates, chunked file
//! writes and symlink creates to its tree, strictly in the order the
//! commands arrive, and echoes progress markers once everything before them
//! has been applied.
//!
//! A chunked write is atomic: from `write_file_start` through every
//! `write_file_chunk`, the tree is untouched — the bytes gather in a
//! pending buffer, the model of a sibling temporary file — and only
//! `write_file_end` installs the complete contents at the final path, the
//! model of an atomic rename.  A write abandoned before its end therefore
//! leaves the destination exactly as it was: no partially written file ever
//! appears at the final path.

use vstd::prelude::*;

use crate::entry::EntryContent;
use crate::entry::EntryKind;
use crate::entry::ProgressMarker;
use crate::entry::SymlinkKind;
use crate::path::RootRelativePath;
use crate::reconcile::SyncError;
use crate::tree::Tree;

verus! {

use crate::entry::EntryContentV;
use crate::entry::TreeEntryV;
use crate::entry::details_of;
use crate::entry::kind_of;
use crate::path::is_below;
use crate::tree::spec_tree_find;
use crate::tree::spec_tree_remove;
use crate::tree::spec_tree_upsert;

/// A file write in flight: the bytes received so far, held apart from the
/// tree until the write completes.
pub struct PendingWrite {
    path: RootRelativePath,
    modified_time: u64,
    expected_size: u64,
    data: Vec<u8>,
}

/// Mathematical form of [`PendingWrite`].
pub struct PendingWriteV {
    pub path: Seq<u8>,
    pub modified_time: u64,
    pub expected_size: u64,
    pub data: Seq<u8>,
}

impl View for PendingWrite {
    type V = PendingWriteV;

    closed spec fn view(&self) -> PendingWriteV {
        PendingWriteV {
            path: self.path@,
            modified_time: self.modified_time,
            expected_size: self.expected_size,
            data: self.data@,
        }
    }
}

/// The destination doer's state: its tree and at most one write in flight.
pub struct DestDoer {
    tree: Tree,
    pending: Option<PendingWrite>,
}

impl DestDoer {
    /// The tree as it stands; a pending write is not part of it.
    pub closed spec fn spec_tree(self) -> Seq<TreeEntryV> {
        self.tree@
    }

    /// The write in flight, if any.
    pub closed spec fn spec_pending(self) -> Option<PendingWriteV> {
        match self.pending {
            Some(p) => Some(p@),
            None => None,
        }
    }

    /// A doer over the given destination tree.
    pub fn new(tree: Tree) -> (r: Self)
        ensures
            r.spec_tree() == tree@,
            r.spec_pending() is None,
    {
        DestDoer { tree, pending: None }
    }

    /// Hands the final tree back once the sync is over.
    pub fn into_tree(self) -> (r: Tree)
        ensures
            r@ == self.spec_tree(),
    {
        self.tree
    }

    /// Removes a file or symlink, or an empty folder.  The entry must exist
    /// with the expected kind; a folder that still has entries below it
    /// cannot be removed, as on a real filesystem.  On failure the tree is
    /// untouched.
    pub fn delete_entry(&mut self, path: &RootRelativePath, kind: EntryKind) -> (r: Result<
        (),
        SyncError,
    >)
        ensures
            final(self).spec_pending() == old(self).spec_pending(),
            ({
                let ok = match spec_tree_find(old(self).spec_tree(), path@) {
                    Some(c) => kind_of(details_of(c)) == kind && (kind is Folder ==> !exists|
                        i: int,
                    |
                        0 <= i < old(self).spec_tree().len() && is_below(
                            (#[trigger] old(self).spec_tree()[i]).path,
                            path@,
                        )),
                    None => false,
                };
                &&& (r is Ok) == ok
                &&& ok ==> final(self).spec_tree() == spec_tree_remove(
                    old(self).spec_tree(),
                    path@,
                )
                &&& !ok ==> final(self).spec_tree() == old(self).spec_tree() && (r matches Err(e)
                    && e is IoError)
            }),
    {
        let found_kind = match self.tree.find(path) {
            Some(c) => Some(c.kind()),
            None => None,
        };
        match found_kind {
            None => Err(
                SyncError::IoError("Cannot delete an entry that does not exist".to_owned()),
            ),
            Some(k) => {
                let matches_kind = match (k, kind) {
                    (EntryKind::File, EntryKind::File) => true,
                    (EntryKind::Folder, EntryKind::Folder) => true,
                    (EntryKind::Symlink, EntryKind::Symlink) => true,
                    _ => false,
                };
                if !matches_kind {
                    return Err(
                        SyncError::IoError(
                            "The entry to delete has a different kind than expected".to_owned(),
                        ),
                    );
                }
                if matches!(kind, EntryKind::Folder) && self.tree.has_entries_below(path) {
                    return Err(
                        SyncError::IoError("Cannot delete a folder that is not empty".to_owned()),
                    );
                }
                self.tree.remove(path);
                Ok(())
            },
        }
    }

    /// Creates a folder at the path; an existing folder there is left as it
    /// is, anything else there is an error.  On failure the tree is
    /// untouched.
    pub fn create_folder(&mut self, path: &RootRelativePath) -> (r: Result<(), SyncError>)
        ensures
            final(self).spec_pending() == old(self).spec_pending(),
            ({
                let ok = match spec_tree_find(old(self).spec_tree(), path@) {
                    Some(c) => c is Folder,
                    None => true,
                };
                &&& (r is Ok) == ok
                &&& ok ==> final(self).spec_tree() == spec_tree_upsert(
                    old(self).spec_tree(),
                    TreeEntryV { path: path@, content: EntryContentV::Folder },
                )
                &&& !ok ==> final(self).spec_tree() == old(self).spec_tree() && (r matches Err(e)
                    && e is IoError)
            }),
    {
        match self.tree.find(path) {
            Some(c) => {
                if !matches!(c, EntryContent::Folder) {
                    return Err(
                        SyncError::IoError(
                            "Cannot create a folder where another entry stands".to_owned(),
                        ),
                    );
                }
            },
            None => {},
        }
        self.tree.upsert(path.duplicate(), EntryContent::Folder);
        Ok(())
    }

    /// Creates a symlink at the path, replacing whatever entry stood there.
    pub fn create_symlink(&mut self, path: &RootRelativePath, target: Vec<u8>, kind: SymlinkKind)
        ensures
            final(self).spec_pending() == old(self).spec_pending(),
            final(self).spec_tree() == spec_tree_upsert(
                old(self).spec_tree(),
                TreeEntryV {
                    path: path@,
                    content: EntryContentV::Symlink { target: target@, kind },
                },
            ),
    {
        self.tree.upsert(path.duplicate(), EntryContent::Symlink { target, kind });
    }

    /// Opens a write stream for a file.  The bytes to come gather apart
    /// from the tree, which stays untouched until the write ends.  A write
    /// already in flight is a protocol error.
    pub fn write_file_start(
        &mut self,
        path: &RootRelativePath,
        size: u64,
        modified_time: u64,
    ) -> (r: Result<(), SyncError>)
        ensures
            final(self).spec_tree() == old(self).spec_tree(),
            old(self).spec_pending() is Some ==> (r matches Err(e) && e is ProtocolError
                && final(self).spec_pending() == old(self).spec_pending()),
            old(self).spec_pending() is None ==> r is Ok && final(self).spec_pending() == Some(
                PendingWriteV {
                    path: path@,
                    modified_time,
                    expected_size: size,
                    data: Seq::<u8>::empty(),
                },
            ),
    {
        if self.pending.is_some() {
            return Err(
                SyncError::ProtocolError(
                    "A file write began while another was in flight".to_owned(),
                ),
            );
        }
        let data: Vec<u8> = Vec::new();
        proof {
            assert(data@ =~= Seq::<u8>::empty());
        }
        self.pending = Some(
            PendingWrite { path: path.duplicate(), modified_time, expected_size: size, data },
        );
        Ok(())
    }

    /// Appends a chunk to the write in flight; the tree stays untouched.
    /// A chunk without a write in flight is a protocol error.
    pub fn write_file_chunk(&mut self, data: &[u8]) -> (r: Result<(), SyncError>)
        ensures
            final(self).spec_tree() == old(self).spec_tree(),
            old(self).spec_pending() matches Some(p) ==> r is Ok && final(self).spec_pending()
                == Some(PendingWriteV { data: p.data + data@, ..p }),
            old(self).spec_pending() is None ==> ((r matches Err(e) && e is ProtocolError)
                && final(self).spec_pending() is None),
    {
        let pending = self.pending.take();
        match pending {
            None => Err(
                SyncError::ProtocolError("A file chunk arrived with no write in flight".to_owned()),
            ),
            Some(mut p) => {
                let ghost oldp = p@;
                let mut k: usize = 0;
                while k < data.len()
                    invariant
                        0 <= k <= data@.len(),
                        p@.path == oldp.path,
                        p@.modified_time == oldp.modified_time,
                        p@.expected_size == oldp.expected_size,
                        p@.data == oldp.data + data@.subrange(0, k as int),
                    decreases data@.len() - k,
                {
                    p.data.push(data[k]);
                    proof {
                        assert(oldp.data + data@.subrange(0, k + 1) =~= (oldp.data
                            + data@.subrange(0, k as int)).push(data@[k as int]));
                    }
                    k += 1;
                }
                proof {
                    assert(data@.subrange(0, data@.len() as int) =~= data@);
                    assert(p@ == (PendingWriteV { data: oldp.data + data@, ..oldp }));
                }
                self.pending = Some(p);
                Ok(())
            },
        }
    }

    /// Completes the write in flight: the gathered bytes and the modified
    /// time are installed at the final path in one step, replacing whatever
    /// entry stood there, as an atomic rename would.  An end without a
    /// write in flight is a protocol error.
    pub fn write_file_end(&mut self) -> (r: Result<(), SyncError>)
        ensures
            old(self).spec_pending() matches Some(p) ==> r is Ok && final(self).spec_pending()
                is None && p.data.len() <= u64::MAX && final(self).spec_tree() == spec_tree_upsert(
                old(self).spec_tree(),
                TreeEntryV {
                    path: p.path,
                    content: EntryContentV::File {
                        modified_time: p.modified_time,
                        bytes: p.data,
                    },
                },
            ),
            old(self).spec_pending() is None ==> ((r matches Err(e) && e is ProtocolError)
                && final(self).spec_pending() is None && final(self).spec_tree() == old(
                self,
            ).spec_tree()),
    {
        let pending = self.pending.take();
        match pending {
            None => Err(
                SyncError::ProtocolError("A file write ended with none in flight".to_owned()),
            ),
            Some(p) => {
                let PendingWrite { path, modified_time, expected_size, data } = p;
                let ghost n = data@.len();
                let len_check = data.len();
                proof {
                    assert(n <= u64::MAX);
                }
                self.tree.upsert(path, EntryContent::File { modified_time, bytes: data });
                Ok(())
            },
        }
    }

    /// Echoes a progress marker.  The doer applies its commands strictly in
    /// arrival order, so by the time the echo comes back, every command
    /// before the marker has been durably applied.
    pub fn process_marker(&mut self, marker: ProgressMarker) -> (r: ProgressMarker)
        ensures
            r == marker,
            final(self).spec_tree() == old(self).spec_tree(),
            final(self).spec_pending() == old(self).spec_pending(),
    {
        marker
    }
}

} // verus!
