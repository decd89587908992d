//! The engine's general laws, stated and proved once: running the same
//! sync twice finds nothing left to do, and the filter is symmetric — an
//! excluded entry is neither created on the destination nor deleted from
//! it.

use vstd::prelude::*;

verus! {

use crate::behaviour::DestFileUpdateBehaviour;
use crate::entry::EntryKind;
use crate::entry::EntryV;
use crate::entry::TreeEntryV;
use crate::entry::strictly_sorted_entries;
use crate::entry::strictly_sorted_tree;
use crate::filter::FilterRuleV;
use crate::filter::spec_included;
use crate::reconcile::SyncBehaviours;
use crate::reconcile::spec_list_find;
use crate::reconcile::spec_merge_has_error;
use crate::reconcile::spec_pair_decision;
use crate::reconcile::lemma_list_find_at;
use crate::sync::count_flagged_kind;
use crate::sync::count_flags;
use crate::sync::run_copies;
use crate::sync::run_deletes;
use crate::sync::spec_copy_flag;
use crate::sync::spec_delete_flag;
use crate::sync::spec_plan_actions;
use crate::sync::spec_no_actions;
use crate::tree::lemma_tree_remove_find;
use crate::tree::lemma_tree_remove_keeps_sorted;
use crate::tree::lemma_tree_upsert_find;
use crate::tree::lemma_tree_upsert_sorted;
use crate::tree::spec_scan;
use crate::tree::spec_tree_find;
use crate::tree::lemma_scan_properties;

/// Counts over flags none of which are set are zero.
proof fn lemma_counts_of_no_flags(l: Seq<EntryV>, flags: Seq<bool>, kind: EntryKind, n: int)
    requires
        0 <= n,
        forall|k: int| 0 <= k < n ==> !flags[k],
    ensures
        count_flags(flags, n) == 0,
        count_flagged_kind(l, flags, kind, n) == 0,
    decreases n,
{
    if n > 0 {
        lemma_counts_of_no_flags(l, flags, kind, n - 1);
    }
}

/// A delete run with no flag set gives the tree back unchanged.
pub proof fn lemma_run_deletes_no_flags(
    t: Seq<TreeEntryV>,
    destl: Seq<EntryV>,
    flags: Seq<bool>,
    j: int,
)
    requires
        0 <= j,
        forall|k: int| 0 <= k < destl.len() ==> !flags[k],
    ensures
        run_deletes(t, destl, flags, j) == Ok::<Seq<TreeEntryV>, ()>(t),
    decreases destl.len() - j,
{
    if j < destl.len() {
        lemma_run_deletes_no_flags(t, destl, flags, j + 1);
    }
}

/// A copy run with no flag set gives the tree back unchanged.
pub proof fn lemma_run_copies_no_flags(
    t: Seq<TreeEntryV>,
    srct: Seq<TreeEntryV>,
    srcl: Seq<EntryV>,
    flags: Seq<bool>,
    i: int,
)
    requires
        i <= srcl.len(),
        forall|k: int| 0 <= k < srcl.len() ==> !flags[k],
    ensures
        run_copies(t, srct, srcl, flags, i) == Ok::<Seq<TreeEntryV>, ()>(t),
    decreases i,
{
    if i > 0 {
        lemma_run_copies_no_flags(t, srct, srcl, flags, i - 1);
    }
}

/// Idempotence: reconciling a scan list against an identical one decides
/// nothing, as long as files with equal modified times are skipped (the
/// default).  No decision errs, no entry is deleted or copied, the action
/// counts are all zero, and carrying the empty plan out leaves any
/// destination tree exactly as it was.  So the second of two runs of the
/// same sync performs zero copies and zero deletes.
pub proof fn lemma_second_sync_does_nothing(
    l: Seq<EntryV>,
    b: SyncBehaviours,
    t: Seq<TreeEntryV>,
    srct: Seq<TreeEntryV>,
)
    requires
        strictly_sorted_entries(l),
        b.files_same_time == DestFileUpdateBehaviour::Skip,
    ensures
        !spec_merge_has_error(l, l, b),
        forall|j: int| 0 <= j < l.len() ==> !spec_delete_flag(l, l, b, j),
        forall|i: int| 0 <= i < l.len() ==> !spec_copy_flag(l, l, b, i),
        spec_plan_actions(
            l,
            l,
            Seq::new(l.len(), |j: int| spec_delete_flag(l, l, b, j)),
            Seq::new(l.len(), |i: int| spec_copy_flag(l, l, b, i)),
        ) == spec_no_actions(),
        run_deletes(t, l, Seq::new(l.len(), |j: int| spec_delete_flag(l, l, b, j)), 0) == Ok::<
            Seq<TreeEntryV>,
            (),
        >(t),
        run_copies(t, srct, l, Seq::new(l.len(), |i: int| spec_copy_flag(l, l, b, i)), l.len() as int)
            == Ok::<Seq<TreeEntryV>, ()>(t),
{
    assert forall|j: int| 0 <= j < l.len() implies spec_pair_decision(
        spec_list_find(l, (#[trigger] l[j]).path),
        Some(l[j].details),
        b,
    ) == Ok::<(bool, bool), ()>((false, false)) by {
        lemma_list_find_at(l, j);
    }
    assert forall|i: int| 0 <= i < l.len() implies spec_pair_decision(
        Some((#[trigger] l[i]).details),
        spec_list_find(l, l[i].path),
        b,
    ) == Ok::<(bool, bool), ()>((false, false)) by {
        lemma_list_find_at(l, i);
    }
    let dflags = Seq::new(l.len(), |j: int| spec_delete_flag(l, l, b, j));
    let cflags = Seq::new(l.len(), |i: int| spec_copy_flag(l, l, b, i));
    lemma_counts_of_no_flags(l, dflags, EntryKind::File, l.len() as int);
    lemma_counts_of_no_flags(l, dflags, EntryKind::Folder, l.len() as int);
    lemma_counts_of_no_flags(l, dflags, EntryKind::Symlink, l.len() as int);
    lemma_counts_of_no_flags(l, cflags, EntryKind::File, l.len() as int);
    lemma_counts_of_no_flags(l, cflags, EntryKind::Folder, l.len() as int);
    lemma_counts_of_no_flags(l, cflags, EntryKind::Symlink, l.len() as int);
    lemma_run_deletes_no_flags(t, l, dflags, 0);
    lemma_run_copies_no_flags(t, srct, l, cflags, l.len() as int);
}

/// A delete run never touches a path that stands in none of its entries,
/// and keeps the tree sorted.
pub proof fn lemma_run_deletes_untouched(
    t: Seq<TreeEntryV>,
    destl: Seq<EntryV>,
    flags: Seq<bool>,
    j: int,
    p: Seq<u8>,
)
    requires
        0 <= j,
        strictly_sorted_tree(t),
        forall|k: int| 0 <= k < destl.len() ==> (#[trigger] destl[k].path) != p,
    ensures
        run_deletes(t, destl, flags, j) matches Ok(t1) ==> strictly_sorted_tree(t1)
            && spec_tree_find(t1, p) == spec_tree_find(t, p),
    decreases destl.len() - j,
{
    if j < destl.len() {
        lemma_run_deletes_untouched(t, destl, flags, j + 1, p);
        let inner = run_deletes(t, destl, flags, j + 1);
        if inner is Ok {
            let tt = inner->Ok_0;
            if flags[j] {
                if crate::sync::spec_apply_delete(tt, destl[j]) is Ok {
                    lemma_tree_remove_keeps_sorted(tt, destl[j].path);
                    lemma_tree_remove_find(tt, destl[j].path, p);
                }
            }
        }
    }
}

/// A copy run never touches a path that stands in none of its entries, and
/// keeps the tree sorted.
pub proof fn lemma_run_copies_untouched(
    t: Seq<TreeEntryV>,
    srct: Seq<TreeEntryV>,
    srcl: Seq<EntryV>,
    flags: Seq<bool>,
    i: int,
    p: Seq<u8>,
)
    requires
        i <= srcl.len(),
        strictly_sorted_tree(t),
        forall|k: int| 0 <= k < srcl.len() ==> (#[trigger] srcl[k].path) != p,
    ensures
        run_copies(t, srct, srcl, flags, i) matches Ok(t2) ==> strictly_sorted_tree(t2)
            && spec_tree_find(t2, p) == spec_tree_find(t, p),
    decreases i,
{
    if i > 0 {
        lemma_run_copies_untouched(t, srct, srcl, flags, i - 1, p);
        let inner = run_copies(t, srct, srcl, flags, i - 1);
        if inner is Ok {
            let tt = inner->Ok_0;
            if flags[i - 1] {
                if crate::sync::spec_apply_copy(tt, srct, srcl[i - 1]) is Ok {
                    lemma_apply_copy_untouched(tt, srct, srcl[i - 1], p);
                }
            }
        }
    }
}

/// One applied copy only touches its own path.
proof fn lemma_apply_copy_untouched(
    t: Seq<TreeEntryV>,
    srct: Seq<TreeEntryV>,
    e: EntryV,
    p: Seq<u8>,
)
    requires
        strictly_sorted_tree(t),
        e.path != p,
    ensures
        crate::sync::spec_apply_copy(t, srct, e) matches Ok(t2) ==> strictly_sorted_tree(t2)
            && spec_tree_find(t2, p) == spec_tree_find(t, p),
{
    if crate::sync::spec_apply_copy(t, srct, e) is Ok {
        match e.details {
            crate::entry::EntryDetailsV::Folder => {
                lemma_tree_upsert_sorted(
                    t,
                    TreeEntryV { path: e.path, content: crate::entry::EntryContentV::Folder },
                );
                lemma_tree_upsert_find(
                    t,
                    TreeEntryV { path: e.path, content: crate::entry::EntryContentV::Folder },
                    p,
                );
            },
            crate::entry::EntryDetailsV::Symlink { target, kind } => {
                let entry = TreeEntryV {
                    path: e.path,
                    content: crate::entry::EntryContentV::Symlink { target, kind },
                };
                lemma_tree_upsert_sorted(t, entry);
                lemma_tree_upsert_find(t, entry, p);
            },
            crate::entry::EntryDetailsV::File { modified_time, size } => {
                let found = spec_tree_find(srct, e.path);
                if found is Some {
                    match found->0 {
                        crate::entry::EntryContentV::File { bytes, .. } => {
                            let entry = TreeEntryV {
                                path: e.path,
                                content: crate::entry::EntryContentV::File {
                                    modified_time,
                                    bytes,
                                },
                            };
                            lemma_tree_upsert_sorted(t, entry);
                            lemma_tree_upsert_find(t, entry, p);
                        },
                        _ => {},
                    }
                }
            },
        }
    }
}


/// The contents a copy of one scanned entry installs: a folder, the
/// symlink's target, or the file's bytes as they stand in the source tree.
pub open spec fn spec_copied_content(srct: Seq<TreeEntryV>, e: EntryV) -> crate::entry::EntryContentV {
    match e.details {
        crate::entry::EntryDetailsV::Folder => crate::entry::EntryContentV::Folder,
        crate::entry::EntryDetailsV::Symlink { target, kind } => crate::entry::EntryContentV::Symlink { target, kind },
        crate::entry::EntryDetailsV::File { modified_time, size } => {
            match spec_tree_find(srct, e.path) {
                Some(crate::entry::EntryContentV::File { bytes, .. }) => crate::entry::EntryContentV::File { modified_time, bytes },
                _ => crate::entry::EntryContentV::Folder,
            }
        },
    }
}

/// What stands at each path after a delete run over a sorted scan list:
/// nothing at a flagged path, whatever stood there before at every other.
pub proof fn lemma_run_deletes_find(
    t: Seq<TreeEntryV>,
    destl: Seq<EntryV>,
    flags: Seq<bool>,
    j: int,
    q: Seq<u8>,
)
    requires
        0 <= j,
        strictly_sorted_tree(t),
        strictly_sorted_entries(destl),
        flags.len() == destl.len(),
    ensures
        run_deletes(t, destl, flags, j) matches Ok(t1) ==> strictly_sorted_tree(t1) && spec_tree_find(
            t1,
            q,
        ) == (if exists|k: int| j <= k < destl.len() && flags[k] && (#[trigger] destl[k].path) == q {
            None
        } else {
            spec_tree_find(t, q)
        }),
    decreases destl.len() - j,
{
    if j < destl.len() {
        lemma_run_deletes_find(t, destl, flags, j + 1, q);
        let inner = run_deletes(t, destl, flags, j + 1);
        if inner is Ok {
            let tt = inner->Ok_0;
            if flags[j] {
                if crate::sync::spec_apply_delete(tt, destl[j]) is Ok {
                    lemma_tree_remove_keeps_sorted(tt, destl[j].path);
                    lemma_tree_remove_find(tt, destl[j].path, q);
                    if destl[j].path == q {
                        assert(exists|k: int|
                            j <= k < destl.len() && flags[k] && (#[trigger] destl[k].path) == q);
                    } else {
                        if exists|k: int|
                            j <= k < destl.len() && flags[k] && (#[trigger] destl[k].path) == q {
                            let k = choose|k: int|
                                j <= k < destl.len() && flags[k] && (#[trigger] destl[k].path)
                                    == q;
                            assert(k > j);
                            assert(exists|k2: int|
                                j + 1 <= k2 < destl.len() && flags[k2] && (
                                #[trigger] destl[k2].path) == q);
                        }
                    }
                }
            } else {
                if exists|k: int|
                    j <= k < destl.len() && flags[k] && (#[trigger] destl[k].path) == q {
                    let k = choose|k: int|
                        j <= k < destl.len() && flags[k] && (#[trigger] destl[k].path) == q;
                    assert(k > j);
                    assert(exists|k2: int|
                        j + 1 <= k2 < destl.len() && flags[k2] && (#[trigger] destl[k2].path)
                            == q);
                }
            }
        }
    }
}

/// What stands at each path after a copy run over a sorted scan list: the
/// copied contents at a flagged path, whatever stood there before at every
/// other.
pub proof fn lemma_run_copies_find(
    t: Seq<TreeEntryV>,
    srct: Seq<TreeEntryV>,
    srcl: Seq<EntryV>,
    flags: Seq<bool>,
    i: int,
    q: Seq<u8>,
)
    requires
        0 <= i <= srcl.len(),
        strictly_sorted_tree(t),
        strictly_sorted_entries(srcl),
        flags.len() == srcl.len(),
    ensures
        run_copies(t, srct, srcl, flags, i) matches Ok(t2) ==> strictly_sorted_tree(t2)
            && spec_tree_find(t2, q) == (if exists|k: int|
            0 <= k < i && flags[k] && (#[trigger] srcl[k].path) == q {
            Some(
                spec_copied_content(
                    srct,
                    srcl[choose|k: int| 0 <= k < i && flags[k] && (#[trigger] srcl[k].path) == q],
                ),
            )
        } else {
            spec_tree_find(t, q)
        }),
    decreases i,
{
    if i > 0 {
        lemma_run_copies_find(t, srct, srcl, flags, i - 1, q);
        let inner = run_copies(t, srct, srcl, flags, i - 1);
        if inner is Ok {
            let tt = inner->Ok_0;
            if flags[i - 1] {
                let e = srcl[i - 1];
                if crate::sync::spec_apply_copy(tt, srct, e) is Ok {
                    lemma_apply_copy_find(tt, srct, e, q);
                    if e.path == q {
                        assert(exists|k: int|
                            0 <= k < i && flags[k] && (#[trigger] srcl[k].path) == q);
                        let k = choose|k: int|
                            0 <= k < i && flags[k] && (#[trigger] srcl[k].path) == q;
                        // Paths are unique in a sorted list, so the chosen
                        // witness is this very entry.
                        if k != i - 1 {
                            crate::path::lemma_lex_trichotomy(srcl[k].path, srcl[i - 1].path);
                        }
                        assert(k == i - 1);
                    } else {
                        if exists|k: int|
                            0 <= k < i && flags[k] && (#[trigger] srcl[k].path) == q {
                            let k = choose|k: int|
                                0 <= k < i && flags[k] && (#[trigger] srcl[k].path) == q;
                            assert(k < i - 1);
                            assert(exists|k2: int|
                                0 <= k2 < i - 1 && flags[k2] && (#[trigger] srcl[k2].path) == q);
                            let k2 = choose|k2: int|
                                0 <= k2 < i - 1 && flags[k2] && (#[trigger] srcl[k2].path) == q;
                            if k2 != k {
                                crate::path::lemma_lex_trichotomy(srcl[k2].path, srcl[k].path);
                            }
                        }
                    }
                }
            } else {
                if exists|k: int| 0 <= k < i && flags[k] && (#[trigger] srcl[k].path) == q {
                    let k = choose|k: int|
                        0 <= k < i && flags[k] && (#[trigger] srcl[k].path) == q;
                    assert(k < i - 1);
                    assert(exists|k2: int|
                        0 <= k2 < i - 1 && flags[k2] && (#[trigger] srcl[k2].path) == q);
                    let k2 = choose|k2: int|
                        0 <= k2 < i - 1 && flags[k2] && (#[trigger] srcl[k2].path) == q;
                    if k2 != k {
                        crate::path::lemma_lex_trichotomy(srcl[k2].path, srcl[k].path);
                    }
                }
            }
        }
    }
}

/// One applied copy installs exactly its contents at its path.
proof fn lemma_apply_copy_find(
    t: Seq<TreeEntryV>,
    srct: Seq<TreeEntryV>,
    e: EntryV,
    q: Seq<u8>,
)
    requires
        strictly_sorted_tree(t),
    ensures
        crate::sync::spec_apply_copy(t, srct, e) matches Ok(t2) ==> strictly_sorted_tree(t2)
            && spec_tree_find(t2, q) == (if q == e.path {
            Some(spec_copied_content(srct, e))
        } else {
            spec_tree_find(t, q)
        }),
{
    if crate::sync::spec_apply_copy(t, srct, e) is Ok {
        match e.details {
            crate::entry::EntryDetailsV::Folder => {
                let entry = TreeEntryV { path: e.path, content: crate::entry::EntryContentV::Folder };
                lemma_tree_upsert_sorted(t, entry);
                lemma_tree_upsert_find(t, entry, q);
            },
            crate::entry::EntryDetailsV::Symlink { target, kind } => {
                let entry = TreeEntryV {
                    path: e.path,
                    content: crate::entry::EntryContentV::Symlink { target, kind },
                };
                lemma_tree_upsert_sorted(t, entry);
                lemma_tree_upsert_find(t, entry, q);
            },
            crate::entry::EntryDetailsV::File { modified_time, size } => {
                let found = spec_tree_find(srct, e.path);
                if found is Some {
                    match found->0 {
                        crate::entry::EntryContentV::File { bytes, .. } => {
                            let entry = TreeEntryV {
                                path: e.path,
                                content: crate::entry::EntryContentV::File {
                                    modified_time,
                                    bytes,
                                },
                            };
                            lemma_tree_upsert_sorted(t, entry);
                            lemma_tree_upsert_find(t, entry, q);
                        },
                        _ => {},
                    }
                }
            },
        }
    }
}

/// Filter symmetry: a path the filter excludes appears in neither side's
/// scan, so no decided action names it — it is neither created on the
/// destination nor deleted from it, and whatever stood at it on the
/// destination still stands there after the plan has been carried out.
pub proof fn lemma_filter_symmetry(
    srct: Seq<TreeEntryV>,
    destt: Seq<TreeEntryV>,
    rules: Seq<FilterRuleV>,
    dflags: Seq<bool>,
    cflags: Seq<bool>,
    p: Seq<u8>,
)
    requires
        strictly_sorted_tree(destt),
        !spec_included(rules, p),
    ensures
        forall|j: int|
            0 <= j < spec_scan(destt, rules).len() ==> (#[trigger] spec_scan(destt, rules)[j].path)
                != p,
        forall|i: int|
            0 <= i < spec_scan(srct, rules).len() ==> (#[trigger] spec_scan(srct, rules)[i].path)
                != p,
        run_deletes(destt, spec_scan(destt, rules), dflags, 0) matches Ok(t1) ==> (
        spec_tree_find(t1, p) == spec_tree_find(destt, p) && (run_copies(
            t1,
            srct,
            spec_scan(srct, rules),
            cflags,
            spec_scan(srct, rules).len() as int,
        ) matches Ok(t2) ==> spec_tree_find(t2, p) == spec_tree_find(destt, p))),
{
    lemma_scan_properties(destt, rules);
    lemma_scan_properties(srct, rules);
    let destl = spec_scan(destt, rules);
    let srcl = spec_scan(srct, rules);
    assert forall|j: int| 0 <= j < destl.len() implies (#[trigger] destl[j].path) != p by {
        assert(spec_included(rules, destl[j].path));
    }
    assert forall|i: int| 0 <= i < srcl.len() implies (#[trigger] srcl[i].path) != p by {
        assert(spec_included(rules, srcl[i].path));
    }
    lemma_run_deletes_untouched(destt, destl, dflags, 0, p);
    let after = run_deletes(destt, destl, dflags, 0);
    if after is Ok {
        lemma_run_copies_untouched(after->Ok_0, srct, srcl, cflags, srcl.len() as int, p);
    }
}


/// In a sorted scan list, two indices carrying the same path are the same
/// index.
proof fn lemma_unique_path(l: Seq<EntryV>, a: int, c: int)
    requires
        strictly_sorted_entries(l),
        0 <= a < l.len(),
        0 <= c < l.len(),
        l[a].path == l[c].path,
    ensures
        a == c,
{
    if a != c {
        crate::path::lemma_lex_trichotomy(l[a].path, l[c].path);
    }
}

/// The mirror law, for a path the source scan carries: after a successful
/// run under fully permissive behaviours — overwrite files whatever their
/// times say, except those with equal times, which are assumed to agree
/// already; delete whatever is not wanted — the destination carries the
/// source's own contents at the path, byte for byte and with its modified
/// time.  The two scan lists come with the facts a scan guarantees, which
/// [`crate::tree::lemma_scan_properties`] provides.
#[verifier::rlimit(100)]
pub proof fn lemma_mirror_present(
    srct: Seq<TreeEntryV>,
    destt: Seq<TreeEntryV>,
    srcl: Seq<EntryV>,
    destl: Seq<EntryV>,
    dflags: Seq<bool>,
    cflags: Seq<bool>,
    b: SyncBehaviours,
    q: Seq<u8>,
    t1: Seq<TreeEntryV>,
    t2: Seq<TreeEntryV>,
)
    requires
        strictly_sorted_tree(srct),
        strictly_sorted_tree(destt),
        strictly_sorted_entries(srcl),
        strictly_sorted_entries(destl),
        forall|ii: int|
            0 <= ii < srcl.len() ==> exists|k: int|
                0 <= k < srct.len() && #[trigger] srcl[ii] == crate::tree::entry_of_tree(srct[k]),
        forall|jj: int|
            0 <= jj < destl.len() ==> exists|k: int|
                0 <= k < destt.len() && #[trigger] destl[jj] == crate::tree::entry_of_tree(
                    destt[k],
                ),
        dflags.len() == destl.len(),
        cflags.len() == srcl.len(),
        forall|j: int| 0 <= j < destl.len() ==> #[trigger] dflags[j] == spec_delete_flag(srcl, destl, b, j),
        forall|i: int| 0 <= i < srcl.len() ==> #[trigger] cflags[i] == spec_copy_flag(srcl, destl, b, i),
        b.dest_file_older == DestFileUpdateBehaviour::Overwrite,
        b.dest_file_newer == DestFileUpdateBehaviour::Overwrite,
        b.files_same_time == DestFileUpdateBehaviour::Skip,
        b.dest_entry_needs_deleting == crate::behaviour::DestEntryNeedsDeletingBehaviour::Delete,
        ({
            let sd = spec_list_find(srcl, q);
            let dd = spec_list_find(destl, q);
            (sd matches Some(crate::entry::EntryDetailsV::File { modified_time: m1, .. }) && dd
                matches Some(crate::entry::EntryDetailsV::File { modified_time: m2, .. }) && m1
                == m2) ==> spec_tree_find(destt, q) == spec_tree_find(srct, q)
        }),
        spec_list_find(srcl, q) is Some,
        run_deletes(destt, destl, dflags, 0) == Ok::<Seq<TreeEntryV>, ()>(t1),
        run_copies(t1, srct, srcl, cflags, srcl.len() as int) == Ok::<Seq<TreeEntryV>, ()>(t2),
    ensures
        spec_tree_find(t2, q) == spec_tree_find(srct, q),
{
    crate::reconcile::lemma_list_find_char(srcl, q);
    crate::reconcile::lemma_list_find_char(destl, q);
    lemma_run_deletes_find(destt, destl, dflags, 0, q);
    lemma_run_copies_find(t1, srct, srcl, cflags, srcl.len() as int, q);
    let sd = spec_list_find(srcl, q)->0;
    let i = choose|i: int| 0 <= i < srcl.len() && #[trigger] srcl[i].path == q && srcl[i].details == sd;
    let k = choose|k: int|
        0 <= k < srct.len() && #[trigger] srcl[i] == crate::tree::entry_of_tree(srct[k]);
    crate::tree::lemma_tree_find_at(srct, k);
    assert(spec_tree_find(srct, q) == Some(srct[k].content));
    if cflags[i] {
        assert(exists|x: int| 0 <= x < srcl.len() && cflags[x] && (#[trigger] srcl[x].path) == q);
        let x = choose|x: int| 0 <= x < srcl.len() && cflags[x] && (#[trigger] srcl[x].path) == q;
        lemma_unique_path(srcl, x, i);
        assert(spec_tree_find(t2, q) == Some(spec_copied_content(srct, srcl[i])));
        assert(spec_copied_content(srct, srcl[i]) == srct[k].content);
    } else {
        let dd_opt = spec_list_find(destl, q);
        assert(dd_opt is Some) by {
            if dd_opt is None {
                assert(spec_pair_decision(Some(sd), dd_opt, b) == Ok::<(bool, bool), ()>(
                    (false, true),
                ));
            }
        }
        let dd = dd_opt->0;
        let j = choose|j: int|
            0 <= j < destl.len() && #[trigger] destl[j].path == q && destl[j].details == dd;
        let kk = choose|kk: int|
            0 <= kk < destt.len() && #[trigger] destl[j] == crate::tree::entry_of_tree(destt[kk]);
        crate::tree::lemma_tree_find_at(destt, kk);
        assert(spec_tree_find(destt, q) == Some(destt[kk].content));
        assert(!(exists|y: int|
            0 <= y < destl.len() && dflags[y] && (#[trigger] destl[y].path) == q)) by {
            if exists|y: int| 0 <= y < destl.len() && dflags[y] && (#[trigger] destl[y].path) == q {
                let y = choose|y: int|
                    0 <= y < destl.len() && dflags[y] && (#[trigger] destl[y].path) == q;
                lemma_unique_path(destl, y, j);
            }
        }
        assert(!(exists|x: int|
            0 <= x < srcl.len() && cflags[x] && (#[trigger] srcl[x].path) == q)) by {
            if exists|x: int| 0 <= x < srcl.len() && cflags[x] && (#[trigger] srcl[x].path) == q {
                let x = choose|x: int|
                    0 <= x < srcl.len() && cflags[x] && (#[trigger] srcl[x].path) == q;
                lemma_unique_path(srcl, x, i);
            }
        }
        assert(spec_tree_find(t2, q) == spec_tree_find(destt, q));
        match (sd, dd) {
            (crate::entry::EntryDetailsV::Folder, crate::entry::EntryDetailsV::Folder) => {
                assert(crate::entry::details_of(srct[k].content) is Folder);
                assert(srct[k].content is Folder);
                assert(destt[kk].content is Folder);
            },
            (
                crate::entry::EntryDetailsV::Symlink { target: t1s, kind: k1s },
                crate::entry::EntryDetailsV::Symlink { target: t2s, kind: k2s },
            ) => {
                assert(t1s == t2s && k1s == k2s);
                assert(srct[k].content == crate::entry::EntryContentV::Symlink {
                    target: t1s,
                    kind: k1s,
                });
                assert(destt[kk].content == crate::entry::EntryContentV::Symlink {
                    target: t2s,
                    kind: k2s,
                });
            },
            (
                crate::entry::EntryDetailsV::File { modified_time: m1, .. },
                crate::entry::EntryDetailsV::File { modified_time: m2, .. },
            ) => {
                assert(m1 == m2);
            },
            _ => {
                assert(false);
            },
        }
        assert(spec_tree_find(destt, q) == spec_tree_find(srct, q));
    }
}

/// The mirror law, for a path the source scan does not carry: after a
/// successful run that deletes whatever is not wanted, nothing stands at
/// the path on the destination — what only the destination had is gone.
#[verifier::rlimit(100)]
pub proof fn lemma_mirror_absent(
    srct: Seq<TreeEntryV>,
    destt: Seq<TreeEntryV>,
    srcl: Seq<EntryV>,
    destl: Seq<EntryV>,
    dflags: Seq<bool>,
    cflags: Seq<bool>,
    b: SyncBehaviours,
    q: Seq<u8>,
    t1: Seq<TreeEntryV>,
    t2: Seq<TreeEntryV>,
)
    requires
        strictly_sorted_tree(srct),
        strictly_sorted_tree(destt),
        strictly_sorted_entries(srcl),
        strictly_sorted_entries(destl),
        dflags.len() == destl.len(),
        cflags.len() == srcl.len(),
        forall|j: int| 0 <= j < destl.len() ==> #[trigger] dflags[j] == spec_delete_flag(srcl, destl, b, j),
        b.dest_entry_needs_deleting == crate::behaviour::DestEntryNeedsDeletingBehaviour::Delete,
        // Any destination entry at this path would be in the scan.
        forall|kk: int|
            0 <= kk < destt.len() && (#[trigger] destt[kk].path) == q ==> exists|jj: int|
                0 <= jj < destl.len() && destl[jj] == crate::tree::entry_of_tree(destt[kk]),
        spec_list_find(srcl, q) is None,
        run_deletes(destt, destl, dflags, 0) == Ok::<Seq<TreeEntryV>, ()>(t1),
        run_copies(t1, srct, srcl, cflags, srcl.len() as int) == Ok::<Seq<TreeEntryV>, ()>(t2),
    ensures
        spec_tree_find(t2, q) is None,
{
    crate::reconcile::lemma_list_find_char(srcl, q);
    crate::reconcile::lemma_list_find_char(destl, q);
    lemma_run_deletes_find(destt, destl, dflags, 0, q);
    lemma_run_copies_find(t1, srct, srcl, cflags, srcl.len() as int, q);
    assert(!(exists|x: int| 0 <= x < srcl.len() && cflags[x] && (#[trigger] srcl[x].path) == q));
    match spec_list_find(destl, q) {
        Some(dd) => {
            let j = choose|j: int|
                0 <= j < destl.len() && #[trigger] destl[j].path == q && destl[j].details == dd;
            assert(dflags[j]);
            assert(exists|y: int|
                0 <= y < destl.len() && dflags[y] && (#[trigger] destl[y].path) == q);
            assert(spec_tree_find(t1, q) is None);
            assert(spec_tree_find(t2, q) is None);
        },
        None => {
            assert(spec_tree_find(t2, q) == spec_tree_find(destt, q));
            crate::tree::lemma_tree_find(destt, q);
            match spec_tree_find(destt, q) {
                Some(c) => {
                    let kk = choose|kk: int|
                        0 <= kk < destt.len() && #[trigger] destt[kk].path == q && destt[kk].content
                            == c;
                    let jj = choose|jj: int|
                        0 <= jj < destl.len() && destl[jj] == crate::tree::entry_of_tree(
                            destt[kk],
                        );
                    assert(destl[jj].path == q);
                    assert(false);
                },
                None => {},
            }
        },
    }
}

} // verus!
