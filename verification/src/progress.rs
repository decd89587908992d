//! Progress accounting for a sync run.
//!
//! Three registers track the work of the destination doer: `total` is a
//! pessimistic upper bound built up during the scan and reduced whenever an
//! operation is decided unnecessary; `sent` counts the work dispatched to the
//! doer; `completed` counts the work the doer has confirmed through echoed
//! progress markers.  The registers always stand in the order
//! `completed <= sent <= total`, componentwise.

use vstd::prelude::*;

use crate::entry::EntryDetails;
use crate::entry::ProgressMarker;
use crate::entry::ProgressPhase;
use crate::path::RootRelativePath;

verus! {

use crate::entry::EntryDetailsV;

/// The file size below which per-entry overhead dominates, so the work of a
/// copy is taken as constant.
pub const MIN_FILE_SIZE: u64 = 1048576;

/// The minimum amount of work between two progress markers.
pub const MARKER_THRESHOLD: u64 = 1048576;

/// The amount of work charged for one delete.
pub const DELETE_WORK: u64 = 1048576;

/// A related set of progress measurements.
#[derive(Clone, Copy, Debug, PartialEq, Eq, Structural, Default)]
pub struct ProgressValues {
    /// Generic measure of work, in arbitrary units, estimating how long the
    /// operations will take.
    pub work: u64,
    /// Number of entry deletions.
    pub delete: u32,
    /// Number of entry copies/creates.
    pub copy: u32,
    /// Number of bytes of file copies.
    pub copy_bytes: u64,
}

/// The zero measurement.
pub open spec fn pv_zero() -> ProgressValues {
    ProgressValues { work: 0, delete: 0, copy: 0, copy_bytes: 0 }
}

/// `a <= b` componentwise.
pub open spec fn pv_le(a: ProgressValues, b: ProgressValues) -> bool {
    &&& a.work <= b.work
    &&& a.delete <= b.delete
    &&& a.copy <= b.copy
    &&& a.copy_bytes <= b.copy_bytes
}

/// The componentwise sum `a + b` stays within the counters' ranges.
pub open spec fn pv_fits(a: ProgressValues, b: ProgressValues) -> bool {
    &&& a.work + b.work <= u64::MAX
    &&& a.delete + b.delete <= u32::MAX
    &&& a.copy + b.copy <= u32::MAX
    &&& a.copy_bytes + b.copy_bytes <= u64::MAX
}

/// Componentwise sum.
pub open spec fn pv_add(a: ProgressValues, b: ProgressValues) -> ProgressValues
    recommends
        pv_fits(a, b),
{
    ProgressValues {
        work: (a.work + b.work) as u64,
        delete: (a.delete + b.delete) as u32,
        copy: (a.copy + b.copy) as u32,
        copy_bytes: (a.copy_bytes + b.copy_bytes) as u64,
    }
}

/// Componentwise difference.
pub open spec fn pv_sub(a: ProgressValues, b: ProgressValues) -> ProgressValues
    recommends
        pv_le(b, a),
{
    ProgressValues {
        work: (a.work - b.work) as u64,
        delete: (a.delete - b.delete) as u32,
        copy: (a.copy - b.copy) as u32,
        copy_bytes: (a.copy_bytes - b.copy_bytes) as u64,
    }
}

/// The progress charged for copying one whole entry: a file contributes its
/// size with a floor of [`MIN_FILE_SIZE`]; folders and symlinks count as a
/// small file.
pub open spec fn spec_for_copy(e: EntryDetailsV) -> ProgressValues {
    match e {
        EntryDetailsV::File { size, .. } => ProgressValues {
            work: if size > MIN_FILE_SIZE {
                size
            } else {
                MIN_FILE_SIZE
            },
            delete: 0,
            copy: 1,
            copy_bytes: size,
        },
        _ => ProgressValues { work: MIN_FILE_SIZE, delete: 0, copy: 1, copy_bytes: 0 },
    }
}

/// The progress charged for copying one chunk of a file.  Small files carry
/// all their overhead in the final chunk; only the final chunk counts the
/// entry as copied.
pub open spec fn spec_for_copy_partial(chunk_start: u64, chunk_size: u64, file_size: u64) -> ProgressValues
    recommends
        chunk_start + chunk_size <= file_size,
{
    if chunk_start + chunk_size < file_size {
        ProgressValues {
            work: if file_size > MIN_FILE_SIZE {
                chunk_size
            } else {
                0
            },
            delete: 0,
            copy: 0,
            copy_bytes: chunk_size,
        }
    } else {
        ProgressValues {
            work: if file_size > MIN_FILE_SIZE {
                chunk_size
            } else {
                MIN_FILE_SIZE
            },
            delete: 0,
            copy: 1,
            copy_bytes: chunk_size,
        }
    }
}

/// The progress charged for deleting one entry.
pub open spec fn spec_for_delete(e: EntryDetailsV) -> ProgressValues {
    ProgressValues { work: DELETE_WORK, delete: 1, copy: 0, copy_bytes: 0 }
}

impl ProgressValues {
    /// A set of measurements to represent the copying of a single entry.
    pub fn for_copy(e: &EntryDetails) -> (r: ProgressValues)
        ensures
            r == spec_for_copy(e@),
    {
        match e {
            EntryDetails::File { size, .. } => {
                let work = if *size > MIN_FILE_SIZE {
                    *size
                } else {
                    MIN_FILE_SIZE
                };
                ProgressValues { work, delete: 0, copy: 1, copy_bytes: *size }
            },
            _ => ProgressValues { work: MIN_FILE_SIZE, delete: 0, copy: 1, copy_bytes: 0 },
        }
    }

    /// A set of measurements to represent the copying of one chunk of a
    /// single file.
    pub fn for_copy_partial(chunk_start: u64, chunk_size: u64, file_size: u64) -> (r:
        ProgressValues)
        requires
            chunk_start + chunk_size <= file_size,
        ensures
            r == spec_for_copy_partial(chunk_start, chunk_size, file_size),
    {
        if chunk_start + chunk_size < file_size {
            let work = if file_size > MIN_FILE_SIZE {
                chunk_size
            } else {
                0
            };
            ProgressValues { work, delete: 0, copy: 0, copy_bytes: chunk_size }
        } else {
            let work = if file_size > MIN_FILE_SIZE {
                chunk_size
            } else {
                MIN_FILE_SIZE
            };
            ProgressValues { work, delete: 0, copy: 1, copy_bytes: chunk_size }
        }
    }

    /// A set of measurements to represent the deletion of a single entry.
    pub fn for_delete(e: &EntryDetails) -> (r: ProgressValues)
        ensures
            r == spec_for_delete(e@),
    {
        ProgressValues { work: DELETE_WORK, delete: 1, copy: 0, copy_bytes: 0 }
    }

    /// Adds another set of measurements into this one.
    pub fn add_assign(&mut self, rhs: ProgressValues)
        requires
            pv_fits(*old(self), rhs),
        ensures
            *final(self) == pv_add(*old(self), rhs),
    {
        self.work = self.work + rhs.work;
        self.delete = self.delete + rhs.delete;
        self.copy = self.copy + rhs.copy;
        self.copy_bytes = self.copy_bytes + rhs.copy_bytes;
    }

    /// Removes another set of measurements from this one.
    pub fn sub_assign(&mut self, rhs: ProgressValues)
        requires
            pv_le(rhs, *old(self)),
        ensures
            *final(self) == pv_sub(*old(self), rhs),
    {
        self.work = self.work - rhs.work;
        self.delete = self.delete - rhs.delete;
        self.copy = self.copy - rhs.copy;
        self.copy_bytes = self.copy_bytes - rhs.copy_bytes;
    }
}

/// Tracker of the three progress registers of a sync run, together with the
/// scanned entry lists used to resolve the entry ids carried in markers.
pub struct Progress {
    /// Pessimistic upper bound on the work the destination doer will be
    /// asked to complete; reduced as entries are decided up to date.
    total: ProgressValues,
    /// Work dispatched to the destination doer so far.
    sent: ProgressValues,
    /// Work the destination doer has confirmed through echoed markers.
    completed: ProgressValues,
    /// The work register of the last marker issued, used to limit marker
    /// frequency.
    last_progress_marker: u64,
    /// Whether a Copying marker has come back yet, i.e. the doer has
    /// finished the deletes and begun the copies.
    copies_started: bool,
    /// The source scan list, indexed by the entry ids of Copying markers.
    src_entries: Vec<RootRelativePath>,
    /// The destination scan list, indexed by the entry ids of Deleting
    /// markers.
    dest_entries: Vec<RootRelativePath>,
    /// The id of the entry the doer was last reported working on.
    current_entry_id: Option<u32>,
}

impl Progress {
    /// Work-accounting monotonicity: the three registers always stand in
    /// the order `completed <= sent <= total`, componentwise, and a marker
    /// is never older than the last one issued.
    #[verifier::type_invariant]
    spec fn wf(self) -> bool {
        &&& pv_le(self.completed, self.sent)
        &&& pv_le(self.sent, self.total)
        &&& self.last_progress_marker <= self.sent.work
        &&& !self.copies_started ==> (self.current_entry_id matches Some(id) ==> (id as int)
            < self.dest_entries@.len())
        &&& self.copies_started ==> (self.current_entry_id matches Some(id) ==> (id as int)
            < self.src_entries@.len())
    }

    /// The `total` register.
    pub closed spec fn spec_total(self) -> ProgressValues {
        self.total
    }

    /// The `sent` register.
    pub closed spec fn spec_sent(self) -> ProgressValues {
        self.sent
    }

    /// The `completed` register.
    pub closed spec fn spec_completed(self) -> ProgressValues {
        self.completed
    }

    /// The work register of the last marker issued.
    pub closed spec fn spec_last_marker(self) -> u64 {
        self.last_progress_marker
    }

    /// Whether a Copying marker has come back yet.
    pub closed spec fn spec_copies_started(self) -> bool {
        self.copies_started
    }

    /// The source scan list held for id lookups.
    pub closed spec fn spec_src_entries(self) -> Seq<Seq<u8>> {
        self.src_entries@.map_values(|p: RootRelativePath| p@)
    }

    /// The destination scan list held for id lookups.
    pub closed spec fn spec_dest_entries(self) -> Seq<Seq<u8>> {
        self.dest_entries@.map_values(|p: RootRelativePath| p@)
    }

    /// The id of the entry the doer was last reported working on.
    pub closed spec fn spec_current_entry_id(self) -> Option<u32> {
        self.current_entry_id
    }

    /// The three registers, in the order completed, sent, total.
    ///
    /// Work-accounting monotonicity: whenever the registers are read they
    /// stand in the order `completed <= sent <= total`, componentwise.
    pub fn registers(&self) -> (r: (ProgressValues, ProgressValues, ProgressValues))
        ensures
            r.0 == self.spec_completed(),
            r.1 == self.spec_sent(),
            r.2 == self.spec_total(),
            pv_le(r.0, r.1),
            pv_le(r.1, r.2),
    {
        proof {
            use_type_invariant(self);
        }
        (self.completed, self.sent, self.total)
    }

    /// A fresh tracker with all registers at zero.
    pub fn new() -> (r: Self)
        ensures
            r.spec_total() == pv_zero(),
            r.spec_sent() == pv_zero(),
            r.spec_completed() == pv_zero(),
            r.spec_last_marker() == 0,
            !r.spec_copies_started(),
            r.spec_current_entry_id() is None,
    {
        Progress {
            total: ProgressValues { work: 0, delete: 0, copy: 0, copy_bytes: 0 },
            sent: ProgressValues { work: 0, delete: 0, copy: 0, copy_bytes: 0 },
            completed: ProgressValues { work: 0, delete: 0, copy: 0, copy_bytes: 0 },
            last_progress_marker: 0,
            copies_started: false,
            src_entries: Vec::new(),
            dest_entries: Vec::new(),
            current_entry_id: None,
        }
    }

    /// Stores the two scan lists so the entry ids of later markers can be
    /// shown as paths.
    pub fn set_entries(
        &mut self,
        src_entries: Vec<RootRelativePath>,
        dest_entries: Vec<RootRelativePath>,
    )
        requires
            old(self).spec_current_entry_id() is None,
        ensures
            final(self).spec_src_entries() == src_entries@.map_values(|p: RootRelativePath| p@),
            final(self).spec_dest_entries() == dest_entries@.map_values(|p: RootRelativePath| p@),
            final(self).spec_total() == old(self).spec_total(),
            final(self).spec_sent() == old(self).spec_sent(),
            final(self).spec_completed() == old(self).spec_completed(),
            final(self).spec_last_marker() == old(self).spec_last_marker(),
            final(self).spec_copies_started() == old(self).spec_copies_started(),
            final(self).spec_current_entry_id() is None,
    {
        proof {
            use_type_invariant(&*self);
        }
        self.src_entries = src_entries;
        self.dest_entries = dest_entries;
    }

    /// Increases the totals to account for the given entry being deleted.
    pub fn inc_total_for_delete(&mut self, e: &EntryDetails)
        requires
            pv_fits(old(self).spec_total(), spec_for_delete(e@)),
        ensures
            final(self).spec_total() == pv_add(old(self).spec_total(), spec_for_delete(e@)),
            final(self).spec_sent() == old(self).spec_sent(),
            final(self).spec_completed() == old(self).spec_completed(),
            final(self).spec_last_marker() == old(self).spec_last_marker(),
            final(self).spec_copies_started() == old(self).spec_copies_started(),
            final(self).spec_src_entries() == old(self).spec_src_entries(),
            final(self).spec_dest_entries() == old(self).spec_dest_entries(),
            final(self).spec_current_entry_id() == old(self).spec_current_entry_id(),
    {
        proof {
            use_type_invariant(&*self);
        }
        let mut t = self.total;
        t.add_assign(ProgressValues::for_delete(e));
        self.total = t;
    }

    /// Decreases the totals to account for the given entry not needing to
    /// be deleted after all.
    pub fn dec_total_for_delete(&mut self, e: &EntryDetails)
        requires
            pv_le(spec_for_delete(e@), old(self).spec_total()),
            pv_le(old(self).spec_sent(), pv_sub(old(self).spec_total(), spec_for_delete(e@))),
        ensures
            final(self).spec_total() == pv_sub(old(self).spec_total(), spec_for_delete(e@)),
            final(self).spec_sent() == old(self).spec_sent(),
            final(self).spec_completed() == old(self).spec_completed(),
            final(self).spec_last_marker() == old(self).spec_last_marker(),
            final(self).spec_copies_started() == old(self).spec_copies_started(),
            final(self).spec_src_entries() == old(self).spec_src_entries(),
            final(self).spec_dest_entries() == old(self).spec_dest_entries(),
            final(self).spec_current_entry_id() == old(self).spec_current_entry_id(),
    {
        proof {
            use_type_invariant(&*self);
        }
        let mut t = self.total;
        t.sub_assign(ProgressValues::for_delete(e));
        self.total = t;
    }

    /// Increases the totals to account for the given entry being copied.
    pub fn inc_total_for_copy(&mut self, e: &EntryDetails)
        requires
            pv_fits(old(self).spec_total(), spec_for_copy(e@)),
        ensures
            final(self).spec_total() == pv_add(old(self).spec_total(), spec_for_copy(e@)),
            final(self).spec_sent() == old(self).spec_sent(),
            final(self).spec_completed() == old(self).spec_completed(),
            final(self).spec_last_marker() == old(self).spec_last_marker(),
            final(self).spec_copies_started() == old(self).spec_copies_started(),
            final(self).spec_src_entries() == old(self).spec_src_entries(),
            final(self).spec_dest_entries() == old(self).spec_dest_entries(),
            final(self).spec_current_entry_id() == old(self).spec_current_entry_id(),
    {
        proof {
            use_type_invariant(&*self);
        }
        let mut t = self.total;
        t.add_assign(ProgressValues::for_copy(e));
        self.total = t;
    }

    /// Decreases the totals to account for the given entry not needing to
    /// be copied after all.
    pub fn dec_total_for_copy(&mut self, e: &EntryDetails)
        requires
            pv_le(spec_for_copy(e@), old(self).spec_total()),
            pv_le(old(self).spec_sent(), pv_sub(old(self).spec_total(), spec_for_copy(e@))),
        ensures
            final(self).spec_total() == pv_sub(old(self).spec_total(), spec_for_copy(e@)),
            final(self).spec_sent() == old(self).spec_sent(),
            final(self).spec_completed() == old(self).spec_completed(),
            final(self).spec_last_marker() == old(self).spec_last_marker(),
            final(self).spec_copies_started() == old(self).spec_copies_started(),
            final(self).spec_src_entries() == old(self).spec_src_entries(),
            final(self).spec_dest_entries() == old(self).spec_dest_entries(),
            final(self).spec_current_entry_id() == old(self).spec_current_entry_id(),
    {
        proof {
            use_type_invariant(&*self);
        }
        let mut t = self.total;
        t.sub_assign(ProgressValues::for_copy(e));
        self.total = t;
    }

    /// Increases the sent counters to account for the given entry being
    /// deleted.
    pub fn delete_sent(&mut self, e: &EntryDetails)
        requires
            pv_fits(old(self).spec_sent(), spec_for_delete(e@)),
            pv_le(pv_add(old(self).spec_sent(), spec_for_delete(e@)), old(self).spec_total()),
        ensures
            final(self).spec_sent() == pv_add(old(self).spec_sent(), spec_for_delete(e@)),
            final(self).spec_total() == old(self).spec_total(),
            final(self).spec_completed() == old(self).spec_completed(),
            final(self).spec_last_marker() == old(self).spec_last_marker(),
            final(self).spec_copies_started() == old(self).spec_copies_started(),
            final(self).spec_src_entries() == old(self).spec_src_entries(),
            final(self).spec_dest_entries() == old(self).spec_dest_entries(),
            final(self).spec_current_entry_id() == old(self).spec_current_entry_id(),
    {
        proof {
            use_type_invariant(&*self);
        }
        let mut t = self.sent;
        t.add_assign(ProgressValues::for_delete(e));
        self.sent = t;
    }

    /// Increases the sent counters to account for the given entry being
    /// copied whole.
    pub fn copy_sent(&mut self, e: &EntryDetails)
        requires
            pv_fits(old(self).spec_sent(), spec_for_copy(e@)),
            pv_le(pv_add(old(self).spec_sent(), spec_for_copy(e@)), old(self).spec_total()),
        ensures
            final(self).spec_sent() == pv_add(old(self).spec_sent(), spec_for_copy(e@)),
            final(self).spec_total() == old(self).spec_total(),
            final(self).spec_completed() == old(self).spec_completed(),
            final(self).spec_last_marker() == old(self).spec_last_marker(),
            final(self).spec_copies_started() == old(self).spec_copies_started(),
            final(self).spec_src_entries() == old(self).spec_src_entries(),
            final(self).spec_dest_entries() == old(self).spec_dest_entries(),
            final(self).spec_current_entry_id() == old(self).spec_current_entry_id(),
    {
        proof {
            use_type_invariant(&*self);
        }
        let mut t = self.sent;
        t.add_assign(ProgressValues::for_copy(e));
        self.sent = t;
    }

    /// Increases the sent counters to account for one chunk of a file being
    /// copied.
    pub fn copy_sent_partial(&mut self, chunk_start: u64, chunk_size: u64, file_size: u64)
        requires
            chunk_start + chunk_size <= file_size,
            pv_fits(old(self).spec_sent(), spec_for_copy_partial(chunk_start, chunk_size, file_size)),
            pv_le(
                pv_add(
                    old(self).spec_sent(),
                    spec_for_copy_partial(chunk_start, chunk_size, file_size),
                ),
                old(self).spec_total(),
            ),
        ensures
            final(self).spec_sent() == pv_add(
                old(self).spec_sent(),
                spec_for_copy_partial(chunk_start, chunk_size, file_size),
            ),
            final(self).spec_total() == old(self).spec_total(),
            final(self).spec_completed() == old(self).spec_completed(),
            final(self).spec_last_marker() == old(self).spec_last_marker(),
            final(self).spec_copies_started() == old(self).spec_copies_started(),
            final(self).spec_src_entries() == old(self).spec_src_entries(),
            final(self).spec_dest_entries() == old(self).spec_dest_entries(),
            final(self).spec_current_entry_id() == old(self).spec_current_entry_id(),
    {
        proof {
            use_type_invariant(&*self);
        }
        let mut t = self.sent;
        t.add_assign(ProgressValues::for_copy_partial(chunk_start, chunk_size, file_size));
        self.sent = t;
    }

    /// The marker that describes the point of progress the dispatched work
    /// has reached: still deleting while fewer deletes were sent than the
    /// total asks for, otherwise copying.
    pub open spec fn spec_marker(self, current_entry_id: Option<u32>) -> ProgressMarker {
        if self.spec_sent().delete < self.spec_total().delete {
            ProgressMarker {
                completed_work: self.spec_sent().work,
                phase: ProgressPhase::Deleting {
                    num_entries_deleted: self.spec_sent().delete,
                    current_entry_id,
                },
            }
        } else {
            ProgressMarker {
                completed_work: self.spec_sent().work,
                phase: ProgressPhase::Copying {
                    num_entries_copied: self.spec_sent().copy,
                    num_bytes_copied: self.spec_sent().copy_bytes,
                    current_entry_id,
                },
            }
        }
    }

    /// A marker for the work sent so far, or nothing when the last marker
    /// was issued too recently for another one to be worth its overhead.
    pub fn get_progress_marker_limited(&mut self, current_entry_id: Option<u32>) -> (r: Option<
        ProgressMarker,
    >)
        ensures
            (r is None) == (old(self).spec_sent().work - old(self).spec_last_marker()
                < MARKER_THRESHOLD),
            r matches Some(m) ==> m == old(self).spec_marker(current_entry_id)
                && final(self).spec_last_marker() == old(self).spec_sent().work,
            r is None ==> final(self).spec_last_marker() == old(self).spec_last_marker(),
            final(self).spec_total() == old(self).spec_total(),
            final(self).spec_sent() == old(self).spec_sent(),
            final(self).spec_completed() == old(self).spec_completed(),
            final(self).spec_copies_started() == old(self).spec_copies_started(),
            final(self).spec_src_entries() == old(self).spec_src_entries(),
            final(self).spec_dest_entries() == old(self).spec_dest_entries(),
            final(self).spec_current_entry_id() == old(self).spec_current_entry_id(),
    {
        proof {
            use_type_invariant(&*self);
        }
        if self.sent.work - self.last_progress_marker < MARKER_THRESHOLD {
            return None;
        }
        Some(self.get_progress_marker(current_entry_id))
    }

    /// A marker for the work sent so far, including the id of the entry
    /// about to be processed so its path can be shown while it is worked on.
    pub fn get_progress_marker(&mut self, current_entry_id: Option<u32>) -> (r: ProgressMarker)
        ensures
            r == old(self).spec_marker(current_entry_id),
            final(self).spec_last_marker() == old(self).spec_sent().work,
            final(self).spec_total() == old(self).spec_total(),
            final(self).spec_sent() == old(self).spec_sent(),
            final(self).spec_completed() == old(self).spec_completed(),
            final(self).spec_copies_started() == old(self).spec_copies_started(),
            final(self).spec_src_entries() == old(self).spec_src_entries(),
            final(self).spec_dest_entries() == old(self).spec_dest_entries(),
            final(self).spec_current_entry_id() == old(self).spec_current_entry_id(),
    {
        proof {
            use_type_invariant(&*self);
        }
        self.last_progress_marker = self.sent.work;
        if self.sent.delete < self.total.delete {
            ProgressMarker {
                completed_work: self.sent.work,
                phase: ProgressPhase::Deleting {
                    num_entries_deleted: self.sent.delete,
                    current_entry_id,
                },
            }
        } else {
            ProgressMarker {
                completed_work: self.sent.work,
                phase: ProgressPhase::Copying {
                    num_entries_copied: self.sent.copy,
                    num_bytes_copied: self.sent.copy_bytes,
                    current_entry_id,
                },
            }
        }
    }

    /// The terminal marker, issued once every decided operation has been
    /// dispatched; at that point the totals and the sent counters agree.
    pub fn all_work_sent(&mut self) -> (r: ProgressMarker)
        requires
            old(self).spec_total() == old(self).spec_sent(),
        ensures
            r == (ProgressMarker {
                completed_work: old(self).spec_sent().work,
                phase: ProgressPhase::Done,
            }),
            final(self).spec_last_marker() == old(self).spec_sent().work,
            final(self).spec_total() == old(self).spec_total(),
            final(self).spec_sent() == old(self).spec_sent(),
            final(self).spec_completed() == old(self).spec_completed(),
            final(self).spec_copies_started() == old(self).spec_copies_started(),
            final(self).spec_src_entries() == old(self).spec_src_entries(),
            final(self).spec_dest_entries() == old(self).spec_dest_entries(),
            final(self).spec_current_entry_id() == old(self).spec_current_entry_id(),
    {
        proof {
            use_type_invariant(&*self);
        }
        self.last_progress_marker = self.sent.work;
        ProgressMarker { completed_work: self.sent.work, phase: ProgressPhase::Done }
    }

    /// Whether an echoed marker may be applied: it must not claim more than
    /// the work dispatched so far, and its entry id must fall inside the
    /// side's scan list.
    pub open spec fn spec_marker_plausible(self, marker: ProgressMarker) -> bool {
        &&& marker.completed_work <= self.spec_sent().work
        &&& match marker.phase {
            ProgressPhase::Deleting { num_entries_deleted, current_entry_id } => {
                &&& num_entries_deleted <= self.spec_sent().delete
                &&& !self.spec_copies_started()
                &&& current_entry_id matches Some(id) ==> (id as int)
                    < self.spec_dest_entries().len()
            },
            ProgressPhase::Copying { num_entries_copied, num_bytes_copied, current_entry_id } => {
                &&& num_entries_copied <= self.spec_sent().copy
                &&& num_bytes_copied <= self.spec_sent().copy_bytes
                &&& current_entry_id matches Some(id) ==> (id as int)
                    < self.spec_src_entries().len()
            },
            ProgressPhase::Done => {
                &&& self.spec_sent() == self.spec_total()
                &&& marker.completed_work == self.spec_sent().work
            },
        }
    }

    /// Applies a marker echoed back by the destination doer: the completed
    /// registers advance to what the marker reports, and the terminal
    /// marker brings them up to the full totals.
    pub fn update_completed(&mut self, marker: &ProgressMarker)
        requires
            old(self).spec_marker_plausible(*marker),
        ensures
            final(self).spec_total() == old(self).spec_total(),
            final(self).spec_sent() == old(self).spec_sent(),
            final(self).spec_last_marker() == old(self).spec_last_marker(),
            final(self).spec_src_entries() == old(self).spec_src_entries(),
            final(self).spec_dest_entries() == old(self).spec_dest_entries(),
            match marker.phase {
                ProgressPhase::Deleting { num_entries_deleted, current_entry_id } => {
                    &&& final(self).spec_completed() == (ProgressValues {
                        work: marker.completed_work,
                        delete: num_entries_deleted,
                        ..old(self).spec_completed()
                    })
                    &&& final(self).spec_current_entry_id() == current_entry_id
                    &&& final(self).spec_copies_started() == old(self).spec_copies_started()
                },
                ProgressPhase::Copying { num_entries_copied, num_bytes_copied, current_entry_id } => {
                    &&& final(self).spec_completed() == (ProgressValues {
                        work: marker.completed_work,
                        copy: num_entries_copied,
                        copy_bytes: num_bytes_copied,
                        ..old(self).spec_completed()
                    })
                    &&& final(self).spec_current_entry_id() == current_entry_id
                    &&& final(self).spec_copies_started()
                },
                ProgressPhase::Done => {
                    &&& final(self).spec_completed() == final(self).spec_total()
                    &&& final(self).spec_current_entry_id() == old(self).spec_current_entry_id()
                    &&& final(self).spec_copies_started() == old(self).spec_copies_started()
                },
            },
    {
        proof {
            use_type_invariant(&*self);
        }
        match marker.phase {
            ProgressPhase::Deleting { num_entries_deleted, current_entry_id } => {
                let completed = ProgressValues {
                    work: marker.completed_work,
                    delete: num_entries_deleted,
                    ..self.completed
                };
                self.completed = completed;
                self.current_entry_id = current_entry_id;
            },
            ProgressPhase::Copying { num_entries_copied, num_bytes_copied, current_entry_id } => {
                let completed = ProgressValues {
                    work: marker.completed_work,
                    copy: num_entries_copied,
                    copy_bytes: num_bytes_copied,
                    ..self.completed
                };
                self.current_entry_id = None;
                self.copies_started = true;
                self.completed = completed;
                self.current_entry_id = current_entry_id;
            },
            ProgressPhase::Done => {
                self.completed = self.sent;
            },
        }
    }

    /// Whether the doer has been seen to finish the deletes and begin the
    /// copies.  The caller turns the first `true` into a wall-clock stamp
    /// if it wants to time the copy phase.
    pub fn copies_started(&self) -> (r: bool)
        ensures
            r == self.spec_copies_started(),
    {
        self.copies_started
    }

    /// The path of the entry the doer was last reported working on: an id
    /// from a Deleting marker indexes the destination list, one from a
    /// Copying marker the source list.
    pub fn current_entry_path(&self) -> (r: Option<&RootRelativePath>)
        ensures
            match self.spec_current_entry_id() {
                Some(id) => r matches Some(p) && p@ == (if self.spec_copies_started() {
                    self.spec_src_entries()[id as int]
                } else {
                    self.spec_dest_entries()[id as int]
                }),
                None => r is None,
            },
    {
        proof {
            use_type_invariant(self);
        }
        match self.current_entry_id {
            Some(id) => {
                if self.copies_started {
                    Some(&self.src_entries[id as usize])
                } else {
                    Some(&self.dest_entries[id as usize])
                }
            },
            None => None,
        }
    }
}

/// The total progress of a contiguous run of chunks: the fold of
/// [`spec_for_copy_partial`] over `chunks`, starting from `acc`.
pub open spec fn chunk_progress(
    acc: ProgressValues,
    chunks: Seq<(u64, u64)>,
    file_size: u64,
) -> ProgressValues
    decreases chunks.len(),
{
    if chunks.len() == 0 {
        acc
    } else {
        pv_add(
            chunk_progress(acc, chunks.drop_last(), file_size),
            spec_for_copy_partial(chunks.last().0, chunks.last().1, file_size),
        )
    }
}

/// Whether a run of chunks covers `[0, file_size)` contiguously, every chunk
/// before the last one ending strictly inside the file.
pub open spec fn chunks_cover(chunks: Seq<(u64, u64)>, file_size: u64) -> bool {
    &&& chunks.len() > 0
    &&& chunks[0].0 == 0
    &&& forall|i: int|
        0 <= i < chunks.len() - 1 ==> (#[trigger] chunks[i].0 + chunks[i].1 < file_size
            && chunks[i + 1].0 == chunks[i].0 + chunks[i].1)
    &&& chunks.last().0 + chunks.last().1 == file_size
}

/// Chunk-sum law: a sequence of partial-copy contributions that covers a
/// whole file adds up to exactly the progress of copying the file in one
/// piece, whatever the chunking.
pub proof fn lemma_chunk_sum(chunks: Seq<(u64, u64)>, modified_time: u64, file_size: u64)
    requires
        chunks_cover(chunks, file_size),
    ensures
        chunk_progress(pv_zero(), chunks, file_size) == spec_for_copy(
            EntryDetailsV::File { modified_time, size: file_size },
        ),
{
    lemma_chunk_progress_prefix(chunks, file_size, chunks.len() as int);
    assert(chunks.subrange(0, chunks.len() as int) =~= chunks);
}

/// The running progress of every proper prefix of a covering run of chunks:
/// no entry counted yet, bytes equal to the bytes handed over so far, and
/// work equal to those bytes for a large file and nothing for a small one.
proof fn lemma_chunk_progress_prefix(chunks: Seq<(u64, u64)>, file_size: u64, n: int)
    requires
        chunks_cover(chunks, file_size),
        0 <= n <= chunks.len(),
    ensures
        n < chunks.len() ==> {
            let p = chunk_progress(pv_zero(), chunks.subrange(0, n), file_size);
            &&& p.delete == 0
            &&& p.copy == 0
            &&& p.copy_bytes == chunk_end(chunks, n)
            &&& p.work == if file_size > MIN_FILE_SIZE {
                chunk_end(chunks, n)
            } else {
                0
            }
        },
        n == chunks.len() ==> {
            let p = chunk_progress(pv_zero(), chunks.subrange(0, n), file_size);
            &&& p.delete == 0
            &&& p.copy == 1
            &&& p.copy_bytes == file_size
            &&& p.work == if file_size > MIN_FILE_SIZE {
                file_size
            } else {
                MIN_FILE_SIZE
            }
        },
    decreases n,
{
    if n == 0 {
        assert(chunks.subrange(0, 0) =~= Seq::<(u64, u64)>::empty());
    } else {
        lemma_chunk_progress_prefix(chunks, file_size, n - 1);
        let pre = chunks.subrange(0, n - 1);
        let cur = chunks.subrange(0, n);
        assert(cur.drop_last() =~= pre);
        assert(cur.last() == chunks[n - 1]);
        lemma_chunk_end_bound(chunks, file_size, n - 1);
    }
}

/// The exclusive end offset of chunk `i - 1`, i.e. how many bytes the first
/// `i` chunks hand over.
pub open spec fn chunk_end(chunks: Seq<(u64, u64)>, i: int) -> int
    recommends
        0 <= i <= chunks.len(),
{
    if i == 0 {
        0
    } else {
        chunks[i - 1].0 + chunks[i - 1].1
    }
}

/// Each chunk of a covering run continues where the previous one ended.
proof fn lemma_chunk_end_bound(chunks: Seq<(u64, u64)>, file_size: u64, i: int)
    requires
        chunks_cover(chunks, file_size),
        0 <= i < chunks.len(),
    ensures
        chunks[i].0 == chunk_end(chunks, i),
        chunk_end(chunks, i + 1) <= file_size,
        i < chunks.len() - 1 ==> chunk_end(chunks, i + 1) < file_size,
        i == chunks.len() - 1 ==> chunk_end(chunks, i + 1) == file_size,
{
    if i > 0 {
        assert(chunks[i - 1].0 + chunks[i - 1].1 < file_size && chunks[i].0 == chunks[i - 1].0
            + chunks[i - 1].1);
    }
    if i < chunks.len() - 1 {
        assert(chunks[i].0 + chunks[i].1 < file_size && chunks[i + 1].0 == chunks[i].0
            + chunks[i].1);
    }
}

} // verus!
