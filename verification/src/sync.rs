//! The boss sync driver over in-memory trees: scan both sides through the
//! filter, reconcile the two ordered entry lists, and dispatch the decided
//! deletes (children first) and copies (parents first, files chunked) to
//! the destination doer, keeping the progress registers exact throughout.

use vstd::prelude::*;

use crate::behaviour::DestRootNeedsDeletingBehaviour;
use crate::doer::DestDoer;
use crate::entry::Entry;
use crate::entry::EntryContent;
use crate::entry::EntryDetails;
use crate::entry::EntryKind;
use crate::entry::NumActions;
use crate::filter::Filters;
use crate::path::RootRelativePath;
use crate::progress::Progress;
use crate::progress::ProgressValues;
use crate::reconcile::ReconcileOutcome;
use crate::reconcile::SyncBehaviours;
use crate::reconcile::SyncError;
use crate::reconcile::SyncPlan;
use crate::reconcile::reconcile;
use crate::tree::Tree;

verus! {

use crate::entry::EntryContentV;
use crate::entry::EntryDetailsV;
use crate::entry::EntryV;
use crate::entry::TreeEntryV;
use crate::entry::details_of;
use crate::entry::kind_of;
use crate::filter::FilterRuleV;
use crate::path::is_below;
use crate::progress::DELETE_WORK;
use crate::progress::spec_for_copy;
use crate::reconcile::spec_list_find;
use crate::reconcile::spec_lists_conformant;
use crate::reconcile::spec_merge_has_error;
use crate::reconcile::spec_pair_decision;
use crate::reconcile::spec_root_mismatch;
use crate::tree::spec_scan;
use crate::tree::spec_tree_find;
use crate::tree::spec_tree_remove;
use crate::tree::spec_tree_upsert;

/// The work of copying one entry, as charged to the totals.
pub open spec fn copy_work_of(d: EntryDetailsV) -> int {
    spec_for_copy(d).work as int
}

/// The byte count of one entry's copy.
pub open spec fn copy_bytes_of(d: EntryDetailsV) -> int {
    spec_for_copy(d).copy_bytes as int
}

/// The summed copy work of the first `n` entries of a scan list.
pub open spec fn sum_copy_work(l: Seq<EntryV>, n: int) -> int
    decreases n,
{
    if n <= 0 {
        0
    } else {
        sum_copy_work(l, n - 1) + copy_work_of(l[n - 1].details)
    }
}

/// The summed copy bytes of the first `n` entries of a scan list.
pub open spec fn sum_copy_bytes(l: Seq<EntryV>, n: int) -> int
    decreases n,
{
    if n <= 0 {
        0
    } else {
        sum_copy_bytes(l, n - 1) + copy_bytes_of(l[n - 1].details)
    }
}

/// The summed copy work of the flagged entries among the first `n`.
pub open spec fn sum_flagged_work(l: Seq<EntryV>, flags: Seq<bool>, n: int) -> int
    decreases n,
{
    if n <= 0 {
        0
    } else {
        sum_flagged_work(l, flags, n - 1) + if flags[n - 1] {
            copy_work_of(l[n - 1].details)
        } else {
            0
        }
    }
}

/// The summed copy bytes of the flagged entries among the first `n`.
pub open spec fn sum_flagged_bytes(l: Seq<EntryV>, flags: Seq<bool>, n: int) -> int
    decreases n,
{
    if n <= 0 {
        0
    } else {
        sum_flagged_bytes(l, flags, n - 1) + if flags[n - 1] {
            copy_bytes_of(l[n - 1].details)
        } else {
            0
        }
    }
}

/// How many of the first `n` flags are set.
pub open spec fn count_flags(flags: Seq<bool>, n: int) -> int
    decreases n,
{
    if n <= 0 {
        0
    } else {
        count_flags(flags, n - 1) + if flags[n - 1] {
            1int
        } else {
            0int
        }
    }
}

/// How many of the first `n` flagged entries have the given kind.
pub open spec fn count_flagged_kind(l: Seq<EntryV>, flags: Seq<bool>, kind: EntryKind, n: int) -> int
    decreases n,
{
    if n <= 0 {
        0
    } else {
        count_flagged_kind(l, flags, kind, n - 1) + if flags[n - 1] && kind_of(l[n - 1].details)
            == kind {
            1int
        } else {
            0int
        }
    }
}

/// Every partial sum is bounded by the full sum, and all are nonnegative.
pub proof fn lemma_sum_bounds(l: Seq<EntryV>, flags: Seq<bool>, n: int)
    requires
        0 <= n,
    ensures
        0 <= sum_copy_work(l, n),
        0 <= sum_copy_bytes(l, n),
        0 <= sum_flagged_work(l, flags, n) <= sum_copy_work(l, n),
        0 <= sum_flagged_bytes(l, flags, n) <= sum_copy_bytes(l, n),
        0 <= count_flags(flags, n) <= n,
    decreases n,
{
    if n > 0 {
        lemma_sum_bounds(l, flags, n - 1);
        assert(copy_work_of(l[n - 1].details) >= 0);
    }
}

/// What a delete applies to the destination tree: the entry must exist
/// with the expected kind, and a folder must already be empty.
pub open spec fn spec_apply_delete(t: Seq<TreeEntryV>, e: EntryV) -> Result<Seq<TreeEntryV>, ()> {
    match spec_tree_find(t, e.path) {
        Some(c) => {
            if kind_of(details_of(c)) == kind_of(e.details) && (kind_of(e.details) is Folder
                ==> !exists|i: int| 0 <= i < t.len() && is_below((#[trigger] t[i]).path, e.path)) {
                Ok(spec_tree_remove(t, e.path))
            } else {
                Err(())
            }
        },
        None => Err(()),
    }
}

/// The destination tree after dispatching the flagged deletes with index
/// at least `j`, in reverse scan order (children before parents).
pub open spec fn run_deletes(
    t: Seq<TreeEntryV>,
    destl: Seq<EntryV>,
    flags: Seq<bool>,
    j: int,
) -> Result<Seq<TreeEntryV>, ()>
    decreases destl.len() - j,
{
    if j < 0 || j >= destl.len() {
        Ok(t)
    } else {
        match run_deletes(t, destl, flags, j + 1) {
            Err(()) => Err(()),
            Ok(tt) => {
                if flags[j] {
                    spec_apply_delete(tt, destl[j])
                } else {
                    Ok(tt)
                }
            },
        }
    }
}

/// What a copy applies to the destination tree: a folder is created (or
/// found already there), a symlink replaces whatever stood at the path,
/// and a file's bytes are taken whole from the source tree.
pub open spec fn spec_apply_copy(
    t: Seq<TreeEntryV>,
    srct: Seq<TreeEntryV>,
    e: EntryV,
) -> Result<Seq<TreeEntryV>, ()> {
    match e.details {
        EntryDetailsV::Folder => {
            match spec_tree_find(t, e.path) {
                Some(c) => {
                    if c is Folder {
                        Ok(spec_tree_upsert(t, TreeEntryV { path: e.path, content: EntryContentV::Folder }))
                    } else {
                        Err(())
                    }
                },
                None => Ok(
                    spec_tree_upsert(t, TreeEntryV { path: e.path, content: EntryContentV::Folder }),
                ),
            }
        },
        EntryDetailsV::Symlink { target, kind } => Ok(
            spec_tree_upsert(
                t,
                TreeEntryV { path: e.path, content: EntryContentV::Symlink { target, kind } },
            ),
        ),
        EntryDetailsV::File { modified_time, size } => {
            match spec_tree_find(srct, e.path) {
                Some(EntryContentV::File { bytes, .. }) => Ok(
                    spec_tree_upsert(
                        t,
                        TreeEntryV {
                            path: e.path,
                            content: EntryContentV::File { modified_time, bytes },
                        },
                    ),
                ),
                _ => Err(()),
            }
        },
    }
}

/// The destination tree after dispatching the first `i` flagged copies, in
/// scan order (parents before children).
pub open spec fn run_copies(
    t: Seq<TreeEntryV>,
    srct: Seq<TreeEntryV>,
    srcl: Seq<EntryV>,
    flags: Seq<bool>,
    i: int,
) -> Result<Seq<TreeEntryV>, ()>
    decreases i,
{
    if i <= 0 {
        Ok(t)
    } else {
        match run_copies(t, srct, srcl, flags, i - 1) {
            Err(()) => Err(()),
            Ok(tt) => {
                if flags[i - 1] {
                    spec_apply_copy(tt, srct, srcl[i - 1])
                } else {
                    Ok(tt)
                }
            },
        }
    }
}

/// The action counts a plan performs when carried out (or would perform,
/// in a dry run).
pub open spec fn spec_plan_actions(
    srcl: Seq<EntryV>,
    destl: Seq<EntryV>,
    dflags: Seq<bool>,
    cflags: Seq<bool>,
) -> NumActions {
    NumActions {
        copied_files: count_flagged_kind(srcl, cflags, EntryKind::File, srcl.len() as int) as u32,
        created_folders: count_flagged_kind(
            srcl,
            cflags,
            EntryKind::Folder,
            srcl.len() as int,
        ) as u32,
        copied_symlinks: count_flagged_kind(
            srcl,
            cflags,
            EntryKind::Symlink,
            srcl.len() as int,
        ) as u32,
        deleted_files: count_flagged_kind(destl, dflags, EntryKind::File, destl.len() as int) as u32,
        deleted_folders: count_flagged_kind(
            destl,
            dflags,
            EntryKind::Folder,
            destl.len() as int,
        ) as u32,
        deleted_symlinks: count_flagged_kind(
            destl,
            dflags,
            EntryKind::Symlink,
            destl.len() as int,
        ) as u32,
    }
}

/// The zero action count.
pub open spec fn spec_no_actions() -> NumActions {
    NumActions {
        copied_files: 0,
        created_folders: 0,
        copied_symlinks: 0,
        deleted_files: 0,
        deleted_folders: 0,
        deleted_symlinks: 0,
    }
}


/// Prefix sums grow with the prefix.
pub proof fn lemma_sum_prefix_mono(l: Seq<EntryV>, flags: Seq<bool>, a: int, b: int)
    requires
        0 <= a <= b,
    ensures
        sum_copy_work(l, a) <= sum_copy_work(l, b),
        sum_copy_bytes(l, a) <= sum_copy_bytes(l, b),
        sum_flagged_work(l, flags, a) <= sum_flagged_work(l, flags, b),
        sum_flagged_bytes(l, flags, a) <= sum_flagged_bytes(l, flags, b),
        count_flags(flags, a) <= count_flags(flags, b),
    decreases b - a,
{
    if a < b {
        lemma_sum_prefix_mono(l, flags, a, b - 1);
        assert(copy_work_of(l[b - 1].details) >= 0);
        assert(copy_bytes_of(l[b - 1].details) >= 0);
    }
}

/// A kind-restricted count never exceeds the flag count.
pub proof fn lemma_count_kind_le(l: Seq<EntryV>, flags: Seq<bool>, kind: EntryKind, n: int)
    requires
        0 <= n,
    ensures
        0 <= count_flagged_kind(l, flags, kind, n) <= count_flags(flags, n),
    decreases n,
{
    if n > 0 {
        lemma_count_kind_le(l, flags, kind, n - 1);
    }
}

/// A failed delete anywhere fails the whole delete run.
pub proof fn lemma_run_deletes_err(t: Seq<TreeEntryV>, destl: Seq<EntryV>, flags: Seq<bool>, j: int)
    requires
        0 <= j,
        run_deletes(t, destl, flags, j) is Err,
    ensures
        run_deletes(t, destl, flags, 0) is Err,
    decreases j,
{
    if j > 0 {
        if j >= destl.len() {
            assert(run_deletes(t, destl, flags, j) is Ok);
        } else {
            assert(run_deletes(t, destl, flags, j - 1) is Err);
            lemma_run_deletes_err(t, destl, flags, j - 1);
        }
    }
}

/// A failed copy anywhere fails the rest of the copy run.
pub proof fn lemma_run_copies_err(
    t: Seq<TreeEntryV>,
    srct: Seq<TreeEntryV>,
    srcl: Seq<EntryV>,
    flags: Seq<bool>,
    i: int,
    n: int,
)
    requires
        0 <= i <= n,
        run_copies(t, srct, srcl, flags, i) is Err,
    ensures
        run_copies(t, srct, srcl, flags, n) is Err,
    decreases n - i,
{
    if i < n {
        assert(run_copies(t, srct, srcl, flags, i + 1) is Err);
        lemma_run_copies_err(t, srct, srcl, flags, i + 1, n);
    }
}

/// The summed copy work of a whole tree's first `n` entries.
pub open spec fn tree_copy_work(t: Seq<TreeEntryV>, n: int) -> int
    decreases n,
{
    if n <= 0 {
        0
    } else {
        tree_copy_work(t, n - 1) + copy_work_of(details_of(t[n - 1].content))
    }
}

/// The summed copy bytes of a whole tree's first `n` entries.
pub open spec fn tree_copy_bytes(t: Seq<TreeEntryV>, n: int) -> int
    decreases n,
{
    if n <= 0 {
        0
    } else {
        tree_copy_bytes(t, n - 1) + copy_bytes_of(details_of(t[n - 1].content))
    }
}

/// Sums over the first `n` entries agree between a list and the same list
/// with one more entry pushed at the end.
proof fn lemma_sum_push_agree(l: Seq<EntryV>, e: EntryV, n: int)
    requires
        0 <= n <= l.len(),
    ensures
        sum_copy_work(l.push(e), n) == sum_copy_work(l, n),
        sum_copy_bytes(l.push(e), n) == sum_copy_bytes(l, n),
    decreases n,
{
    if n > 0 {
        lemma_sum_push_agree(l, e, n - 1);
        assert(l.push(e)[n - 1] == l[n - 1]);
    }
}

/// Tree sums over the first `n` entries agree between a tree and the same
/// tree with one more entry pushed at the end.
proof fn lemma_tree_sum_push_agree(t: Seq<TreeEntryV>, e: TreeEntryV, n: int)
    requires
        0 <= n <= t.len(),
    ensures
        tree_copy_work(t.push(e), n) == tree_copy_work(t, n),
        tree_copy_bytes(t.push(e), n) == tree_copy_bytes(t, n),
    decreases n,
{
    if n > 0 {
        lemma_tree_sum_push_agree(t, e, n - 1);
        assert(t.push(e)[n - 1] == t[n - 1]);
    }
}

/// The scan of a tree asks for no more copy work or bytes than the whole
/// tree holds, and tree sums are nonnegative.
pub proof fn lemma_scan_sums(t: Seq<TreeEntryV>, rules: Seq<FilterRuleV>)
    ensures
        0 <= sum_copy_work(spec_scan(t, rules), spec_scan(t, rules).len() as int) <= tree_copy_work(
            t,
            t.len() as int,
        ),
        0 <= sum_copy_bytes(spec_scan(t, rules), spec_scan(t, rules).len() as int)
            <= tree_copy_bytes(t, t.len() as int),
    decreases t.len(),
{
    let scan = spec_scan(t, rules);
    lemma_sum_bounds(scan, Seq::<bool>::empty(), scan.len() as int);
    if t.len() == 0 {
        let pred = |x: TreeEntryV| crate::filter::spec_included(rules, x.path);
        assert(t.filter(pred) =~= Seq::<TreeEntryV>::empty());
    } else {
        let tp = t.drop_last();
        lemma_scan_sums(tp, rules);
        assert(tp.push(t.last()) =~= t);
        lemma_tree_sum_push_agree(tp, t.last(), tp.len() as int);
        assert(tree_copy_work(t, t.len() as int) == tree_copy_work(tp, tp.len() as int)
            + copy_work_of(details_of(t.last().content))) by {
            assert(t[t.len() - 1] == t.last());
            assert(tree_copy_work(t, t.len() - 1) == tree_copy_work(tp.push(t.last()), tp.len() as int));
        }
        assert(tree_copy_bytes(t, t.len() as int) == tree_copy_bytes(tp, tp.len() as int)
            + copy_bytes_of(details_of(t.last().content))) by {
            assert(t[t.len() - 1] == t.last());
            assert(tree_copy_bytes(t, t.len() - 1) == tree_copy_bytes(tp.push(t.last()), tp.len() as int));
        }
        crate::tree::lemma_scan_step_pub(tp, t.last(), rules);
        let sp = spec_scan(tp, rules);
        assert(copy_work_of(details_of(t.last().content)) >= 0);
        assert(copy_bytes_of(details_of(t.last().content)) >= 0);
        if crate::filter::spec_included(rules, t.last().path) {
            let ee = crate::tree::entry_of_tree(t.last());
            assert(scan == sp.push(ee));
            lemma_sum_push_agree(sp, ee, sp.len() as int);
            assert(sum_copy_work(scan, scan.len() as int) == sum_copy_work(sp, sp.len() as int)
                + copy_work_of(ee.details));
            assert(sum_copy_bytes(scan, scan.len() as int) == sum_copy_bytes(sp, sp.len() as int)
                + copy_bytes_of(ee.details));
        } else {
            assert(scan == sp);
        }
    }
}


/// The chunk size of streamed file transfers: an implementation knob
/// balancing per-message overhead against write latency.
pub const TRANSFER_CHUNK_SIZE: u64 = 4194304;

/// The delete flag the reconciler decides for destination entry `j`, when
/// no decision errs.
pub open spec fn spec_delete_flag(
    srcl: Seq<EntryV>,
    destl: Seq<EntryV>,
    b: SyncBehaviours,
    j: int,
) -> bool {
    spec_pair_decision(spec_list_find(srcl, destl[j].path), Some(destl[j].details), b) matches Ok(
        fl,
    ) && fl.0
}

/// The copy flag the reconciler decides for source entry `i`, when no
/// decision errs.
pub open spec fn spec_copy_flag(
    srcl: Seq<EntryV>,
    destl: Seq<EntryV>,
    b: SyncBehaviours,
    i: int,
) -> bool {
    spec_pair_decision(Some(srcl[i].details), spec_list_find(destl, srcl[i].path), b) matches Ok(
        fl,
    ) && fl.1
}

/// The delete flags of a whole reconciliation.
pub open spec fn spec_delete_flags(srcl: Seq<EntryV>, destl: Seq<EntryV>, b: SyncBehaviours) -> Seq<
    bool,
> {
    Seq::new(destl.len(), |j: int| spec_delete_flag(srcl, destl, b, j))
}

/// The copy flags of a whole reconciliation.
pub open spec fn spec_copy_flags(srcl: Seq<EntryV>, destl: Seq<EntryV>, b: SyncBehaviours) -> Seq<
    bool,
> {
    Seq::new(srcl.len(), |i: int| spec_copy_flag(srcl, destl, b, i))
}

/// What carrying out a plan returns: in a dry run the untouched
/// destination with the would-be action counts; otherwise the fold of the
/// flagged deletes (in reverse order) and the flagged copies (in order)
/// over the destination tree, an I/O failure of either fold surfacing as
/// an I/O error.
pub open spec fn spec_dispatch_post(
    r: Result<SyncOutcome, SyncError>,
    srct: Seq<TreeEntryV>,
    destt: Seq<TreeEntryV>,
    srcl: Seq<EntryV>,
    destl: Seq<EntryV>,
    dflags: Seq<bool>,
    cflags: Seq<bool>,
    dry_run: bool,
) -> bool {
    if dry_run {
        r matches Ok(o) && !o.root_skipped && o.dest@ == destt && o.actions == spec_plan_actions(
            srcl,
            destl,
            dflags,
            cflags,
        )
    } else {
        match run_deletes(destt, destl, dflags, 0) {
            Err(()) => r matches Err(e) && e is IoError,
            Ok(t1) => match run_copies(t1, srct, srcl, cflags, srcl.len() as int) {
                Err(()) => r matches Err(e) && e is IoError,
                Ok(t2) => r matches Ok(o) && !o.root_skipped && o.dest@ == t2 && o.actions
                    == spec_plan_actions(srcl, destl, dflags, cflags),
            },
        }
    }
}

/// Counts what a plan does, by kind, without carrying it out.
fn count_plan_actions(src_list: &Vec<Entry>, dest_list: &Vec<Entry>, plan: &SyncPlan) -> (r:
    NumActions)
    requires
        plan.delete_flags@.len() == dest_list@.len(),
        plan.copy_flags@.len() == src_list@.len(),
        src_list@.len() <= u32::MAX,
        dest_list@.len() <= u32::MAX,
    ensures
        r == spec_plan_actions(
            src_list@.map_values(|e: Entry| e@),
            dest_list@.map_values(|e: Entry| e@),
            plan.delete_flags@,
            plan.copy_flags@,
        ),
{
    let ghost srcl = src_list@.map_values(|e: Entry| e@);
    let ghost destl = dest_list@.map_values(|e: Entry| e@);
    let mut actions = NumActions {
        copied_files: 0,
        created_folders: 0,
        copied_symlinks: 0,
        deleted_files: 0,
        deleted_folders: 0,
        deleted_symlinks: 0,
    };
    let mut j: usize = 0;
    while j < dest_list.len()
        invariant
            0 <= j <= destl.len(),
            destl == dest_list@.map_values(|e: Entry| e@),
            destl.len() == dest_list@.len() <= u32::MAX,
            plan.delete_flags@.len() == destl.len(),
            actions.deleted_files == count_flagged_kind(
                destl,
                plan.delete_flags@,
                EntryKind::File,
                j as int,
            ),
            actions.deleted_folders == count_flagged_kind(
                destl,
                plan.delete_flags@,
                EntryKind::Folder,
                j as int,
            ),
            actions.deleted_symlinks == count_flagged_kind(
                destl,
                plan.delete_flags@,
                EntryKind::Symlink,
                j as int,
            ),
            actions.copied_files == 0 && actions.created_folders == 0 && actions.copied_symlinks
                == 0,
        decreases destl.len() - j,
    {
        proof {
            lemma_count_kind_le(destl, plan.delete_flags@, EntryKind::File, j + 1);
            lemma_count_kind_le(destl, plan.delete_flags@, EntryKind::Folder, j + 1);
            lemma_count_kind_le(destl, plan.delete_flags@, EntryKind::Symlink, j + 1);
            lemma_sum_bounds(destl, plan.delete_flags@, j + 1);
        }
        if plan.delete_flags[j] {
            match dest_list[j].details.kind() {
                EntryKind::File => {
                    actions.deleted_files = actions.deleted_files + 1;
                },
                EntryKind::Folder => {
                    actions.deleted_folders = actions.deleted_folders + 1;
                },
                EntryKind::Symlink => {
                    actions.deleted_symlinks = actions.deleted_symlinks + 1;
                },
            }
        }
        j += 1;
    }
    let mut i: usize = 0;
    while i < src_list.len()
        invariant
            0 <= i <= srcl.len(),
            srcl == src_list@.map_values(|e: Entry| e@),
            destl == dest_list@.map_values(|e: Entry| e@),
            srcl.len() == src_list@.len() <= u32::MAX,
            destl.len() == dest_list@.len(),
            plan.delete_flags@.len() == destl.len(),
            plan.copy_flags@.len() == srcl.len(),
            actions.copied_files == count_flagged_kind(
                srcl,
                plan.copy_flags@,
                EntryKind::File,
                i as int,
            ),
            actions.created_folders == count_flagged_kind(
                srcl,
                plan.copy_flags@,
                EntryKind::Folder,
                i as int,
            ),
            actions.copied_symlinks == count_flagged_kind(
                srcl,
                plan.copy_flags@,
                EntryKind::Symlink,
                i as int,
            ),
            actions.deleted_files == count_flagged_kind(
                destl,
                plan.delete_flags@,
                EntryKind::File,
                destl.len() as int,
            ),
            actions.deleted_folders == count_flagged_kind(
                destl,
                plan.delete_flags@,
                EntryKind::Folder,
                destl.len() as int,
            ),
            actions.deleted_symlinks == count_flagged_kind(
                destl,
                plan.delete_flags@,
                EntryKind::Symlink,
                destl.len() as int,
            ),
        decreases srcl.len() - i,
    {
        proof {
            lemma_count_kind_le(srcl, plan.copy_flags@, EntryKind::File, i + 1);
            lemma_count_kind_le(srcl, plan.copy_flags@, EntryKind::Folder, i + 1);
            lemma_count_kind_le(srcl, plan.copy_flags@, EntryKind::Symlink, i + 1);
            lemma_sum_bounds(srcl, plan.copy_flags@, i + 1);
        }
        if plan.copy_flags[i] {
            match src_list[i].details.kind() {
                EntryKind::File => {
                    actions.copied_files = actions.copied_files + 1;
                },
                EntryKind::Folder => {
                    actions.created_folders = actions.created_folders + 1;
                },
                EntryKind::Symlink => {
                    actions.copied_symlinks = actions.copied_symlinks + 1;
                },
            }
        }
        i += 1;
    }
    actions
}


/// Streams one file to the destination doer in chunks, charging each chunk
/// to the sent counters; the chunks' contributions add up to exactly the
/// whole file's copy progress, whatever the chunking.
fn copy_one_file(
    progress: &mut Progress,
    doer: &mut DestDoer,
    path: &RootRelativePath,
    size: u64,
    modified_time: u64,
    bytes: &Vec<u8>,
    entry_id: u32,
) -> (r: Result<(), SyncError>)
    requires
        bytes@.len() == size,
        old(doer).spec_pending() is None,
        old(progress).spec_sent().delete == old(progress).spec_total().delete,
        (entry_id as int) < old(progress).spec_src_entries().len(),
        old(progress).spec_sent().work + spec_for_copy(
            EntryDetailsV::File { modified_time, size },
        ).work <= old(progress).spec_total().work,
        old(progress).spec_sent().copy + 1 <= old(progress).spec_total().copy,
        old(progress).spec_sent().copy_bytes + size <= old(progress).spec_total().copy_bytes,
    ensures
        r is Ok,
        final(doer).spec_pending() is None,
        final(doer).spec_tree() == spec_tree_upsert(
            old(doer).spec_tree(),
            TreeEntryV {
                path: path@,
                content: EntryContentV::File { modified_time, bytes: bytes@ },
            },
        ),
        final(progress).spec_total() == old(progress).spec_total(),
        final(progress).spec_sent() == crate::progress::pv_add(
            old(progress).spec_sent(),
            spec_for_copy(EntryDetailsV::File { modified_time, size }),
        ),
        final(progress).spec_src_entries() == old(progress).spec_src_entries(),
        final(progress).spec_dest_entries() == old(progress).spec_dest_entries(),
{
    let ghost base = old(progress).spec_sent();
    let ghost fc = spec_for_copy(EntryDetailsV::File { modified_time, size });
    match doer.write_file_start(path, size, modified_time) {
        Ok(()) => {},
        Err(e) => {
            proof {
                assert(false);
            }
            return Err(e);
        },
    }
    if size == 0 {
        let empty: [u8; 0] = [];
        match doer.write_file_chunk(empty.as_slice()) {
            Ok(()) => {},
            Err(e) => {
                proof {
                    assert(false);
                }
                return Err(e);
            },
        }
        progress.copy_sent_partial(0, 0, 0);
        proof {
            assert(bytes@.subrange(0, 0) =~= Seq::<u8>::empty());
            assert(Seq::<u8>::empty() + empty@ =~= bytes@);
        }
    } else {
        let blen = bytes.len();
        let mut offset: u64 = 0;
        proof {
            assert(bytes@.subrange(0, 0) =~= Seq::<u8>::empty());
        }
        while offset < size
            invariant
                0 <= offset <= size,
                size == bytes@.len(),
                blen == bytes@.len(),
                doer.spec_pending() == Some(
                    crate::doer::PendingWriteV {
                        path: path@,
                        modified_time,
                        expected_size: size,
                        data: bytes@.subrange(0, offset as int),
                    },
                ),
                doer.spec_tree() == old(doer).spec_tree(),
                progress.spec_total() == old(progress).spec_total(),
                progress.spec_src_entries() == old(progress).spec_src_entries(),
                progress.spec_dest_entries() == old(progress).spec_dest_entries(),
                (entry_id as int) < progress.spec_src_entries().len(),
                base == old(progress).spec_sent(),
                fc == spec_for_copy(EntryDetailsV::File { modified_time, size }),
                base.delete == progress.spec_total().delete,
                base.copy + 1 <= progress.spec_total().copy,
                base.work + fc.work <= progress.spec_total().work,
                base.copy_bytes + size <= progress.spec_total().copy_bytes,
                offset < size ==> progress.spec_sent() == (ProgressValues {
                    work: (base.work + (if size > crate::progress::MIN_FILE_SIZE {
                        offset as int
                    } else {
                        0int
                    })) as u64,
                    delete: base.delete,
                    copy: base.copy,
                    copy_bytes: (base.copy_bytes + offset) as u64,
                }),
                offset == size ==> progress.spec_sent() == crate::progress::pv_add(base, fc),
            decreases size - offset,
        {
            let chunk = if size - offset > TRANSFER_CHUNK_SIZE {
                TRANSFER_CHUNK_SIZE
            } else {
                size - offset
            };
            let lo = offset as usize;
            let hi = (offset + chunk) as usize;
            let piece = vstd::slice::slice_subrange(bytes.as_slice(), lo, hi);
            match doer.write_file_chunk(piece) {
                Ok(()) => {},
                Err(e) => {
                    proof {
                        assert(false);
                    }
                    return Err(e);
                },
            }
            proof {
                assert(bytes@.subrange(0, offset as int) + bytes@.subrange(
                    offset as int,
                    offset + chunk,
                ) =~= bytes@.subrange(0, offset + chunk));
                let part = crate::progress::spec_for_copy_partial(offset, chunk, size);
                if size > crate::progress::MIN_FILE_SIZE {
                    assert(fc.work == size);
                    assert(part.work == chunk);
                } else {
                    assert(fc.work == crate::progress::MIN_FILE_SIZE);
                    if offset + chunk < size {
                        assert(part.work == 0);
                    } else {
                        assert(part.work == crate::progress::MIN_FILE_SIZE);
                    }
                }
                assert(progress.spec_sent().work + part.work <= progress.spec_total().work);
                assert(progress.spec_sent().copy + part.copy <= progress.spec_total().copy);
                assert(progress.spec_sent().copy_bytes + part.copy_bytes
                    <= progress.spec_total().copy_bytes);
                assert(progress.spec_sent().delete + part.delete <= progress.spec_total().delete);
            }
            progress.copy_sent_partial(offset, chunk, size);
            if let Some(m) = progress.get_progress_marker_limited(Some(entry_id)) {
                let echoed = doer.process_marker(m);
                progress.update_completed(&echoed);
            }
            offset = offset + chunk;
        }
        proof {
            assert(bytes@.subrange(0, size as int) =~= bytes@);
        }
    }
    match doer.write_file_end() {
        Ok(()) => {},
        Err(e) => {
            proof {
                assert(false);
            }
            return Err(e);
        },
    }
    Ok(())
}


/// Carries a decided plan out against the destination doer: all flagged
/// deletes first, in reverse scan order, then all flagged copies in scan
/// order, with progress markers injected along the way and every register
/// exact when the terminal marker is issued.
#[verifier::rlimit(100)]
fn dispatch_plan(
    src_tree: &Tree,
    dest_tree: Tree,
    src_list: &Vec<Entry>,
    dest_list: &Vec<Entry>,
    plan: &SyncPlan,
) -> (r: Result<Tree, SyncError>)
    requires
        plan.delete_flags@.len() == dest_list@.len(),
        plan.copy_flags@.len() == src_list@.len(),
        src_list@.len() <= u32::MAX,
        dest_list@.len() <= u32::MAX,
        sum_copy_work(src_list@.map_values(|e: Entry| e@), src_list@.len() as int) + dest_list@.len()
            * DELETE_WORK <= u64::MAX,
        sum_copy_bytes(src_list@.map_values(|e: Entry| e@), src_list@.len() as int) <= u64::MAX,
        forall|ii: int|
            0 <= ii < src_list@.len() ==> (spec_tree_find(
                src_tree@,
                (#[trigger] src_list@[ii])@.path,
            ) matches Some(c) && details_of(c) == src_list@[ii]@.details),
    ensures
        ({
            let srcl = src_list@.map_values(|e: Entry| e@);
            let destl = dest_list@.map_values(|e: Entry| e@);
            match run_deletes(dest_tree@, destl, plan.delete_flags@, 0) {
                Err(()) => r matches Err(e) && e is IoError,
                Ok(t1) => match run_copies(t1, src_tree@, srcl, plan.copy_flags@, srcl.len() as int) {
                    Err(()) => r matches Err(e) && e is IoError,
                    Ok(t2) => r matches Ok(t) && t@ == t2,
                },
            }
        }),
{
    let ghost srcl = src_list@.map_values(|e: Entry| e@);
    let ghost destl = dest_list@.map_values(|e: Entry| e@);
    let ghost dflags = plan.delete_flags@;
    let ghost cflags = plan.copy_flags@;
    let ghost destt0 = dest_tree@;
    let slen = src_list.len();
    let dlen = dest_list.len();

    let mut progress = Progress::new();

    // Pessimistic totals: every source entry may need copying, every
    // destination entry may need deleting.
    let mut i: usize = 0;
    while i < slen
        invariant
            0 <= i <= slen,
            slen == srcl.len(),
            srcl == src_list@.map_values(|e: Entry| e@),
            sum_copy_work(srcl, slen as int) + dlen * DELETE_WORK <= u64::MAX,
            sum_copy_bytes(srcl, slen as int) <= u64::MAX,
            slen <= u32::MAX,
            progress.spec_total() == (ProgressValues {
                work: sum_copy_work(srcl, i as int) as u64,
                delete: 0,
                copy: i as u32,
                copy_bytes: sum_copy_bytes(srcl, i as int) as u64,
            }),
            progress.spec_sent() == crate::progress::pv_zero(),
            progress.spec_completed() == crate::progress::pv_zero(),
            progress.spec_current_entry_id() is None,
            !progress.spec_copies_started(),
        decreases slen - i,
    {
        proof {
            lemma_sum_bounds(srcl, cflags, i as int);
            lemma_sum_bounds(srcl, cflags, i + 1);
            lemma_sum_prefix_mono(srcl, cflags, i + 1, slen as int);
            assert(dlen * DELETE_WORK >= 0) by (nonlinear_arith)
                requires
                    dlen >= 0,
            ;
        }
        progress.inc_total_for_copy(&src_list[i].details);
        i += 1;
    }
    proof {
        lemma_sum_bounds(srcl, cflags, slen as int);
    }
    let mut j: usize = 0;
    while j < dlen
        invariant
            0 <= j <= dlen,
            dlen == destl.len(),
            slen == srcl.len(),
            srcl == src_list@.map_values(|e: Entry| e@),
            destl == dest_list@.map_values(|e: Entry| e@),
            sum_copy_work(srcl, slen as int) + dlen * DELETE_WORK <= u64::MAX,
            0 <= sum_copy_work(srcl, slen as int),
            sum_copy_bytes(srcl, slen as int) <= u64::MAX,
            slen <= u32::MAX,
            dlen <= u32::MAX,
            progress.spec_total() == (ProgressValues {
                work: (sum_copy_work(srcl, slen as int) + j * DELETE_WORK) as u64,
                delete: j as u32,
                copy: slen as u32,
                copy_bytes: sum_copy_bytes(srcl, slen as int) as u64,
            }),
            progress.spec_sent() == crate::progress::pv_zero(),
            progress.spec_completed() == crate::progress::pv_zero(),
            progress.spec_current_entry_id() is None,
            !progress.spec_copies_started(),
        decreases dlen - j,
    {
        proof {
            assert(0 <= j * DELETE_WORK && (j + 1) * DELETE_WORK <= dlen * DELETE_WORK) by (nonlinear_arith)
                requires
                    0 <= j < dlen,
            ;
            assert((j + 1) * DELETE_WORK == j * DELETE_WORK + DELETE_WORK) by (nonlinear_arith);
        }
        progress.inc_total_for_delete(&dest_list[j].details);
        j += 1;
    }

    // The scan lists, kept for showing entry ids as paths.
    let mut src_paths: Vec<RootRelativePath> = Vec::new();
    let mut i2: usize = 0;
    while i2 < slen
        invariant
            src_paths@.len() == i2,
            0 <= i2 <= slen,
            slen == src_list@.len(),
        decreases slen - i2,
    {
        src_paths.push(src_list[i2].path.duplicate());
        i2 += 1;
    }
    let mut dest_paths: Vec<RootRelativePath> = Vec::new();
    let mut j2: usize = 0;
    while j2 < dlen
        invariant
            dest_paths@.len() == j2,
            0 <= j2 <= dlen,
            dlen == dest_list@.len(),
        decreases dlen - j2,
    {
        dest_paths.push(dest_list[j2].path.duplicate());
        j2 += 1;
    }
    progress.set_entries(src_paths, dest_paths);

    // Reduce the totals by everything the plan decided against.
    let mut j3: usize = 0;
    while j3 < dlen
        invariant
            0 <= j3 <= dlen,
            dlen == destl.len(),
            slen == srcl.len(),
            srcl == src_list@.map_values(|e: Entry| e@),
            destl == dest_list@.map_values(|e: Entry| e@),
            dflags == plan.delete_flags@,
            dflags.len() == dlen,
            sum_copy_work(srcl, slen as int) + dlen * DELETE_WORK <= u64::MAX,
            0 <= sum_copy_work(srcl, slen as int),
            sum_copy_bytes(srcl, slen as int) <= u64::MAX,
            slen <= u32::MAX,
            dlen <= u32::MAX,
            progress.spec_total() == (ProgressValues {
                work: (sum_copy_work(srcl, slen as int) + (count_flags(dflags, j3 as int) + dlen
                    - j3) * DELETE_WORK) as u64,
                delete: (count_flags(dflags, j3 as int) + dlen - j3) as u32,
                copy: slen as u32,
                copy_bytes: sum_copy_bytes(srcl, slen as int) as u64,
            }),
            progress.spec_sent() == crate::progress::pv_zero(),
            progress.spec_completed() == crate::progress::pv_zero(),
            progress.spec_current_entry_id() is None,
            !progress.spec_copies_started(),
            progress.spec_src_entries().len() == slen,
            progress.spec_dest_entries().len() == dlen,
        decreases dlen - j3,
    {
        proof {
            lemma_sum_bounds(destl, dflags, j3 as int);
            lemma_sum_bounds(destl, dflags, j3 + 1);
            let c0 = count_flags(dflags, j3 as int);
            let c1 = count_flags(dflags, j3 + 1);
            assert(c1 == c0 + (if dflags[j3 as int] { 1int } else { 0int }));
            assert((c0 + dlen - j3) * DELETE_WORK <= dlen * DELETE_WORK && 0 <= (c0 + dlen - j3)
                * DELETE_WORK && (c0 + dlen - j3 - 1) * DELETE_WORK == (c0 + dlen - j3)
                * DELETE_WORK - DELETE_WORK && (c1 + dlen - j3 - 1) * DELETE_WORK <= dlen
                * DELETE_WORK && 0 <= (c1 + dlen - j3 - 1) * DELETE_WORK) by (nonlinear_arith)
                requires
                    0 <= c0,
                    c0 <= j3,
                    c1 == c0 + (if dflags[j3 as int] { 1int } else { 0int }),
                    0 <= j3 < dlen,
            ;
        }
        if !plan.delete_flags[j3] {
            progress.dec_total_for_delete(&dest_list[j3].details);
        }
        j3 += 1;
    }
    proof {
        lemma_sum_bounds(destl, dflags, dlen as int);
        lemma_sum_bounds(srcl, cflags, slen as int);
        assert(srcl.subrange(0, 0) =~= Seq::<EntryV>::empty());
    }
    let mut i3: usize = 0;
    while i3 < slen
        invariant
            0 <= i3 <= slen,
            dlen == destl.len(),
            slen == srcl.len(),
            srcl == src_list@.map_values(|e: Entry| e@),
            destl == dest_list@.map_values(|e: Entry| e@),
            dflags == plan.delete_flags@,
            cflags == plan.copy_flags@,
            dflags.len() == dlen,
            cflags.len() == slen,
            sum_copy_work(srcl, slen as int) + dlen * DELETE_WORK <= u64::MAX,
            0 <= sum_copy_work(srcl, slen as int),
            sum_copy_bytes(srcl, slen as int) <= u64::MAX,
            slen <= u32::MAX,
            dlen <= u32::MAX,
            0 <= count_flags(dflags, dlen as int) <= dlen,
            progress.spec_total() == (ProgressValues {
                work: (count_flags(dflags, dlen as int) * DELETE_WORK + sum_flagged_work(
                    srcl,
                    cflags,
                    i3 as int,
                ) + sum_copy_work(srcl, slen as int) - sum_copy_work(srcl, i3 as int)) as u64,
                delete: count_flags(dflags, dlen as int) as u32,
                copy: (count_flags(cflags, i3 as int) + slen - i3) as u32,
                copy_bytes: (sum_flagged_bytes(srcl, cflags, i3 as int) + sum_copy_bytes(
                    srcl,
                    slen as int,
                ) - sum_copy_bytes(srcl, i3 as int)) as u64,
            }),
            progress.spec_sent() == crate::progress::pv_zero(),
            progress.spec_completed() == crate::progress::pv_zero(),
            progress.spec_current_entry_id() is None,
            !progress.spec_copies_started(),
            progress.spec_src_entries().len() == slen,
            progress.spec_dest_entries().len() == dlen,
        decreases slen - i3,
    {
        proof {
            lemma_sum_bounds(srcl, cflags, i3 as int);
            lemma_sum_bounds(srcl, cflags, i3 + 1);
            lemma_sum_bounds(srcl, cflags, slen as int);
            lemma_sum_prefix_mono(srcl, cflags, i3 + 1, slen as int);
            let cd = count_flags(dflags, dlen as int);
            assert(0 <= cd * DELETE_WORK && cd * DELETE_WORK <= dlen * DELETE_WORK) by (nonlinear_arith)
                requires
                    0 <= cd <= dlen,
            ;
        }
        if !plan.copy_flags[i3] {
            progress.dec_total_for_copy(&src_list[i3].details);
        }
        i3 += 1;
    }

    // Dispatch the deletes, children before parents.
    let ghost total1 = progress.spec_total();
    let mut doer = DestDoer::new(dest_tree);
    let mut jj: usize = dlen;
    while jj > 0
        invariant
            0 <= jj <= dlen,
            dlen == destl.len(),
            slen == srcl.len(),
            srcl == src_list@.map_values(|e: Entry| e@),
            destl == dest_list@.map_values(|e: Entry| e@),
            dflags == plan.delete_flags@,
            cflags == plan.copy_flags@,
            dflags.len() == dlen,
            cflags.len() == slen,
            sum_copy_work(srcl, slen as int) + dlen * DELETE_WORK <= u64::MAX,
            0 <= sum_copy_work(srcl, slen as int),
            sum_copy_bytes(srcl, slen as int) <= u64::MAX,
            slen <= u32::MAX,
            dlen <= u32::MAX,
            total1 == (ProgressValues {
                work: (count_flags(dflags, dlen as int) * DELETE_WORK + sum_flagged_work(
                    srcl,
                    cflags,
                    slen as int,
                )) as u64,
                delete: count_flags(dflags, dlen as int) as u32,
                copy: count_flags(cflags, slen as int) as u32,
                copy_bytes: sum_flagged_bytes(srcl, cflags, slen as int) as u64,
            }),
            progress.spec_total() == total1,
            progress.spec_sent() == (ProgressValues {
                work: ((count_flags(dflags, dlen as int) - count_flags(dflags, jj as int))
                    * DELETE_WORK) as u64,
                delete: (count_flags(dflags, dlen as int) - count_flags(dflags, jj as int)) as u32,
                copy: 0,
                copy_bytes: 0,
            }),
            !progress.spec_copies_started(),
            progress.spec_src_entries().len() == slen,
            progress.spec_dest_entries().len() == dlen,
            doer.spec_pending() is None,
            destt0 == dest_tree@,
            run_deletes(destt0, destl, dflags, jj as int) matches Ok(tt) && tt == doer.spec_tree(),
        decreases jj,
    {
        let j4 = jj - 1;
        proof {
            lemma_sum_bounds(destl, dflags, j4 as int);
            lemma_sum_bounds(destl, dflags, jj as int);
            lemma_sum_bounds(destl, dflags, dlen as int);
            lemma_sum_prefix_mono(destl, dflags, jj as int, dlen as int);
            lemma_sum_prefix_mono(destl, dflags, j4 as int, dlen as int);
            lemma_sum_bounds(srcl, cflags, slen as int);
            let cd = count_flags(dflags, dlen as int);
            let cj = count_flags(dflags, jj as int);
            let cj0 = count_flags(dflags, j4 as int);
            let f: int = if dflags[j4 as int] {
                1int
            } else {
                0int
            };
            assert(cj == cj0 + f);
            let sfw = sum_flagged_work(srcl, cflags, slen as int);
            assert(0 <= (cd - cj) * DELETE_WORK && (cd - cj) * DELETE_WORK + DELETE_WORK == (cd
                - cj0 + 1 - f) * DELETE_WORK && (cd - cj0) * DELETE_WORK <= cd * DELETE_WORK && 0
                <= (cd - cj0) * DELETE_WORK && cd * DELETE_WORK <= cd * DELETE_WORK + sfw) by (nonlinear_arith)
                requires
                    0 <= cj0 <= cj <= cd,
                    cj == cj0 + f,
                    0 <= f <= 1,
                    0 <= sfw,
            ;
        }
        if plan.delete_flags[j4] {
            // A marker first, so the doer can echo how far it has come.
            if let Some(m) = progress.get_progress_marker_limited(Some(j4 as u32)) {
                let echoed = doer.process_marker(m);
                progress.update_completed(&echoed);
            }
            let kind = dest_list[j4].details.kind();
            match doer.delete_entry(&dest_list[j4].path, kind) {
                Ok(()) => {},
                Err(e) => {
                    proof {
                        assert(run_deletes(destt0, destl, dflags, j4 as int) is Err);
                        lemma_run_deletes_err(destt0, destl, dflags, j4 as int);
                    }
                    return Err(e);
                },
            }
            progress.delete_sent(&dest_list[j4].details);
        }
        jj = j4;
    }

    // Dispatch the copies, parents before children, files in chunks.
    let ghost t1 = doer.spec_tree();
    let mut i4: usize = 0;
    while i4 < slen
        invariant
            0 <= i4 <= slen,
            dlen == destl.len(),
            slen == srcl.len(),
            srcl == src_list@.map_values(|e: Entry| e@),
            destl == dest_list@.map_values(|e: Entry| e@),
            dflags == plan.delete_flags@,
            cflags == plan.copy_flags@,
            dflags.len() == dlen,
            cflags.len() == slen,
            sum_copy_work(srcl, slen as int) + dlen * DELETE_WORK <= u64::MAX,
            0 <= sum_copy_work(srcl, slen as int),
            sum_copy_bytes(srcl, slen as int) <= u64::MAX,
            slen <= u32::MAX,
            dlen <= u32::MAX,
            forall|ii: int|
                0 <= ii < srcl.len() ==> (spec_tree_find(src_tree@, (#[trigger] srcl[ii]).path)
                    matches Some(c) && details_of(c) == srcl[ii].details),
            total1 == (ProgressValues {
                work: (count_flags(dflags, dlen as int) * DELETE_WORK + sum_flagged_work(
                    srcl,
                    cflags,
                    slen as int,
                )) as u64,
                delete: count_flags(dflags, dlen as int) as u32,
                copy: count_flags(cflags, slen as int) as u32,
                copy_bytes: sum_flagged_bytes(srcl, cflags, slen as int) as u64,
            }),
            progress.spec_total() == total1,
            progress.spec_sent() == (ProgressValues {
                work: (count_flags(dflags, dlen as int) * DELETE_WORK + sum_flagged_work(
                    srcl,
                    cflags,
                    i4 as int,
                )) as u64,
                delete: count_flags(dflags, dlen as int) as u32,
                copy: count_flags(cflags, i4 as int) as u32,
                copy_bytes: sum_flagged_bytes(srcl, cflags, i4 as int) as u64,
            }),
            progress.spec_src_entries().len() == slen,
            progress.spec_dest_entries().len() == dlen,
            doer.spec_pending() is None,
            run_deletes(dest_tree@, destl, dflags, 0) == Ok::<Seq<TreeEntryV>, ()>(t1),
            run_copies(t1, src_tree@, srcl, cflags, i4 as int) matches Ok(tt) && tt
                == doer.spec_tree(),
        decreases slen - i4,
    {
        proof {
            lemma_sum_bounds(srcl, cflags, i4 as int);
            lemma_sum_bounds(srcl, cflags, i4 + 1);
            lemma_sum_bounds(srcl, cflags, slen as int);
            lemma_sum_prefix_mono(srcl, cflags, i4 + 1, slen as int);
            lemma_sum_bounds(destl, dflags, dlen as int);
            let cd = count_flags(dflags, dlen as int);
            assert(0 <= cd * DELETE_WORK) by (nonlinear_arith)
                requires
                    0 <= cd,
            ;
        }
        if plan.copy_flags[i4] {
            if let Some(m) = progress.get_progress_marker_limited(Some(i4 as u32)) {
                let echoed = doer.process_marker(m);
                progress.update_completed(&echoed);
            }
            let entry = &src_list[i4];
            match &entry.details {
                EntryDetails::Folder => {
                    match doer.create_folder(&entry.path) {
                        Ok(()) => {},
                        Err(e) => {
                            proof {
                                assert(run_copies(t1, src_tree@, srcl, cflags, i4 + 1) is Err);
                                lemma_run_copies_err(
                                    t1,
                                    src_tree@,
                                    srcl,
                                    cflags,
                                    i4 + 1,
                                    slen as int,
                                );
                            }
                            return Err(e);
                        },
                    }
                    progress.copy_sent(&entry.details);
                },
                EntryDetails::Symlink { target, kind } => {
                    doer.create_symlink(&entry.path, crate::path::clone_bytes(target), *kind);
                    progress.copy_sent(&entry.details);
                },
                EntryDetails::File { modified_time, size } => {
                    proof {
                        assert(spec_tree_find(src_tree@, (srcl[i4 as int]).path) matches Some(c)
                            && details_of(c) == srcl[i4 as int].details);
                        assert(srcl[i4 as int] == src_list@[i4 as int]@);
                    }
                    let content = src_tree.find(&entry.path);
                    match content {
                        Some(EntryContent::File { bytes, .. }) => {
                            let n = bytes.len();
                            proof {
                                assert(n as u64 == *size);
                                assert(bytes@.len() == *size);
                            }
                            match copy_one_file(
                                &mut progress,
                                &mut doer,
                                &entry.path,
                                *size,
                                *modified_time,
                                bytes,
                                i4 as u32,
                            ) {
                                Ok(()) => {},
                                Err(e) => {
                                    proof {
                                        assert(false);
                                    }
                                    return Err(e);
                                },
                            }
                        },
                        _ => {
                            proof {
                                assert(false);
                            }
                            return Err(
                                SyncError::IoError(
                                    "A source file disappeared between scan and copy".to_owned(),
                                ),
                            );
                        },
                    }
                },
            }
        }
        i4 += 1;
    }

    // Everything decided has been dispatched: issue the terminal marker and
    // wait for its echo.
    proof {
        lemma_sum_bounds(srcl, cflags, slen as int);
        lemma_sum_bounds(destl, dflags, dlen as int);
    }
    let done = progress.all_work_sent();
    let echoed = doer.process_marker(done);
    progress.update_completed(&echoed);
    Ok(doer.into_tree())
}


/// One sync run over in-memory trees: scan both sides through the filter,
/// reconcile the ordered entry lists, and carry the decided plan out (or
/// only count it, in a dry run).
///
/// The run fails with an I/O error when the source root does not exist;
/// with a protocol error when a scan list is malformed, which conformant
/// trees never produce; with a policy error when a behaviour resolves an
/// action to an error or to a prompt, which nothing here can raise; and
/// with an I/O error when a delete or create cannot be applied.  Otherwise
/// it succeeds, and the returned tree is exactly the fold of the decided
/// deletes and copies over the destination.
/// Reconciles two scan lists and pins the resulting flags down as whole
/// sequences.
fn decide_sync(src_list: &Vec<Entry>, dest_list: &Vec<Entry>, b: &SyncBehaviours) -> (r: Result<
    ReconcileOutcome,
    SyncError,
>)
    ensures
        ({
            let srcl = src_list@.map_values(|e: Entry| e@);
            let destl = dest_list@.map_values(|e: Entry| e@);
            &&& (r matches Err(e) && e is ProtocolError) == !spec_lists_conformant(srcl, destl)
            &&& spec_lists_conformant(srcl, destl) ==> {
                if spec_root_mismatch(srcl, destl) {
                    match b.dest_root_needs_deleting {
                        DestRootNeedsDeletingBehaviour::Skip => r == Ok::<
                            ReconcileOutcome,
                            SyncError,
                        >(ReconcileOutcome::RootSkipped),
                        DestRootNeedsDeletingBehaviour::Delete => (r matches Ok(
                            ReconcileOutcome::Plan(plan),
                        ) && plan.delete_flags@ == Seq::new(destl.len(), |j: int| true)
                            && plan.copy_flags@ == Seq::new(srcl.len(), |i: int| true)),
                        _ => (r matches Err(e) && e is PolicyError),
                    }
                } else {
                    &&& (r matches Err(e) && e is PolicyError) == spec_merge_has_error(
                        srcl,
                        destl,
                        *b,
                    )
                    &&& !spec_merge_has_error(srcl, destl, *b) ==> (r matches Ok(
                        ReconcileOutcome::Plan(plan),
                    ) && plan.delete_flags@ == spec_delete_flags(srcl, destl, *b)
                        && plan.copy_flags@ == spec_copy_flags(srcl, destl, *b))
                }
            }
        }),
{
    let ghost srcl = src_list@.map_values(|e: Entry| e@);
    let ghost destl = dest_list@.map_values(|e: Entry| e@);
    let r = reconcile(src_list, dest_list, b);
    proof {
        if spec_lists_conformant(srcl, destl) {
            if spec_root_mismatch(srcl, destl) {
                if b.dest_root_needs_deleting == DestRootNeedsDeletingBehaviour::Delete {
                    if let Ok(ReconcileOutcome::Plan(plan)) = &r {
                        assert(plan.delete_flags@ =~= Seq::new(destl.len(), |j: int| true));
                        assert(plan.copy_flags@ =~= Seq::new(srcl.len(), |i: int| true));
                    }
                }
            } else {
                if !spec_merge_has_error(srcl, destl, *b) {
                    if let Ok(ReconcileOutcome::Plan(plan)) = &r {
                        assert(plan.delete_flags@ =~= spec_delete_flags(srcl, destl, *b));
                        assert(plan.copy_flags@ =~= spec_copy_flags(srcl, destl, *b));
                    }
                }
            }
        }
    }
    r
}

/// Counts a decided plan and, unless this is a dry run, carries it out.
fn execute_plan(
    src: &Tree,
    dest: &Tree,
    src_list: &Vec<Entry>,
    dest_list: &Vec<Entry>,
    plan: &SyncPlan,
    dry_run: bool,
) -> (r: Result<SyncOutcome, SyncError>)
    requires
        plan.delete_flags@.len() == dest_list@.len(),
        plan.copy_flags@.len() == src_list@.len(),
        src_list@.len() <= u32::MAX,
        dest_list@.len() <= u32::MAX,
        sum_copy_work(src_list@.map_values(|e: Entry| e@), src_list@.len() as int) + dest_list@.len()
            * DELETE_WORK <= u64::MAX,
        sum_copy_bytes(src_list@.map_values(|e: Entry| e@), src_list@.len() as int) <= u64::MAX,
        forall|ii: int|
            0 <= ii < src_list@.len() ==> (spec_tree_find(
                src@,
                (#[trigger] src_list@[ii])@.path,
            ) matches Some(c) && details_of(c) == src_list@[ii]@.details),
    ensures
        spec_dispatch_post(
            r,
            src@,
            dest@,
            src_list@.map_values(|e: Entry| e@),
            dest_list@.map_values(|e: Entry| e@),
            plan.delete_flags@,
            plan.copy_flags@,
            dry_run,
        ),
{
    let actions = count_plan_actions(src_list, dest_list, plan);
    if dry_run {
        return Ok(SyncOutcome { dest: dest.duplicate(), actions, root_skipped: false });
    }
    match dispatch_plan(src, dest.duplicate(), src_list, dest_list, plan) {
        Ok(t) => Ok(SyncOutcome { dest: t, actions, root_skipped: false }),
        Err(e) => Err(e),
    }
}

/// Every entry of a sorted tree's scan resolves in the tree itself, with
/// the same attributes the scan reported.
proof fn lemma_scan_entries_resolve(t: Seq<TreeEntryV>, rules: Seq<FilterRuleV>)
    requires
        crate::entry::strictly_sorted_tree(t),
    ensures
        forall|ii: int|
            0 <= ii < spec_scan(t, rules).len() ==> (spec_tree_find(
                t,
                (#[trigger] spec_scan(t, rules)[ii]).path,
            ) matches Some(c) && details_of(c) == spec_scan(t, rules)[ii].details),
{
    crate::tree::lemma_scan_properties(t, rules);
    let scan = spec_scan(t, rules);
    assert forall|ii: int| 0 <= ii < scan.len() implies (spec_tree_find(
        t,
        (#[trigger] scan[ii]).path,
    ) matches Some(c) && details_of(c) == scan[ii].details) by {
        let k = choose|k: int|
            0 <= k < t.len() && #[trigger] scan[ii] == crate::tree::entry_of_tree(t[k]);
        crate::tree::lemma_tree_find_at(t, k);
    }
}

#[verifier::rlimit(100)]
#[verifier::spinoff_prover]
pub fn sync_trees(
    src: &Tree,
    dest: &Tree,
    filters: &Filters,
    behaviours: &SyncBehaviours,
    dry_run: bool,
) -> (r: Result<SyncOutcome, SyncError>)
    requires
        src@.len() <= u32::MAX,
        dest@.len() <= u32::MAX,
        tree_copy_work(src@, src@.len() as int) + dest@.len() * DELETE_WORK <= u64::MAX,
        tree_copy_bytes(src@, src@.len() as int) <= u64::MAX,
    ensures
        ({
            let rules = filters@;
            let srcl = spec_scan(src@, rules);
            let destl = spec_scan(dest@, rules);
            &&& (src@.len() == 0 ==> (r matches Err(e) && e is IoError))
            &&& src@.len() > 0 ==> {
                if !spec_lists_conformant(srcl, destl) {
                    r matches Err(e) && e is ProtocolError
                } else if spec_root_mismatch(srcl, destl) {
                    match behaviours.dest_root_needs_deleting {
                        DestRootNeedsDeletingBehaviour::Skip => (r matches Ok(o) && o.root_skipped
                            && o.dest@ == dest@ && o.actions == spec_no_actions()),
                        DestRootNeedsDeletingBehaviour::Delete => spec_dispatch_post(
                            r,
                            src@,
                            dest@,
                            srcl,
                            destl,
                            Seq::new(destl.len(), |j: int| true),
                            Seq::new(srcl.len(), |i: int| true),
                            dry_run,
                        ),
                        _ => (r matches Err(e) && e is PolicyError),
                    }
                } else if spec_merge_has_error(srcl, destl, *behaviours) {
                    r matches Err(e) && e is PolicyError
                } else {
                    spec_dispatch_post(
                        r,
                        src@,
                        dest@,
                        srcl,
                        destl,
                        spec_delete_flags(srcl, destl, *behaviours),
                        spec_copy_flags(srcl, destl, *behaviours),
                        dry_run,
                    )
                }
            }
        }),
{
    let ghost rules = filters@;
    if src.len() == 0 {
        return Err(SyncError::IoError("The source path does not exist".to_owned()));
    }
    let src_list = src.scan(filters);
    let dest_list = dest.scan(filters);
    let ghost srcl = src_list@.map_values(|e: Entry| e@);
    let ghost destl = dest_list@.map_values(|e: Entry| e@);
    proof {
        lemma_scan_sums(src@, rules);
        lemma_scan_sums(dest@, rules);
        assert(destl.len() * DELETE_WORK <= dest@.len() * DELETE_WORK && 0 <= destl.len()
            * DELETE_WORK) by (nonlinear_arith)
            requires
                0 <= destl.len() <= dest@.len(),
        ;
    }
    let plan = match decide_sync(&src_list, &dest_list, behaviours) {
        Err(e) => {
            return Err(e);
        },
        Ok(ReconcileOutcome::RootSkipped) => {
            return Ok(
                SyncOutcome {
                    dest: dest.duplicate(),
                    actions: NumActions {
                        copied_files: 0,
                        created_folders: 0,
                        copied_symlinks: 0,
                        deleted_files: 0,
                        deleted_folders: 0,
                        deleted_symlinks: 0,
                    },
                    root_skipped: true,
                },
            );
        },
        Ok(ReconcileOutcome::Plan(plan)) => plan,
    };
    proof {
        lemma_scan_entries_resolve(src@, rules);
        assert forall|ii: int| 0 <= ii < src_list@.len() implies (spec_tree_find(
            src@,
            (#[trigger] src_list@[ii])@.path,
        ) matches Some(c) && details_of(c) == src_list@[ii]@.details) by {
            assert(srcl[ii] == src_list@[ii]@);
            assert(srcl[ii] == spec_scan(src@, rules)[ii]);
        }
    }
    execute_plan(src, dest, &src_list, &dest_list, &plan, dry_run)
}

/// What one run of a sync concluded.
#[derive(Debug, PartialEq, Eq)]
pub struct SyncOutcome {
    /// The destination tree after the run (unchanged in a dry run).
    pub dest: Tree,
    /// What the run did, or, in a dry run, would have done.
    pub actions: NumActions,
    /// Whether the run ended early, successfully but with nothing done,
    /// because the destination root needed deleting and the behaviour said
    /// to leave it.
    pub root_skipped: bool,
}

} // verus!
