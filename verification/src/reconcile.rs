//! The reconciliation of two ordered entry lists: walking the source and
//! destination scans with a merge cursor and deciding, for every entry, to
//! delete, to copy, or to leave in place, under the configured behaviours.
//!
//! The result is one flag per destination entry (delete it or not) and one
//! flag per source entry (copy it or not).  Deletes are dispatched in
//! reverse scan order, so children go before their parents; copies in scan
//! order, so parents go before their children.

use vstd::prelude::*;

use crate::behaviour::DestEntryNeedsDeletingBehaviour;
use crate::behaviour::DestFileUpdateBehaviour;
use crate::behaviour::DestRootNeedsDeletingBehaviour;
use crate::entry::Entry;
use crate::entry::EntryDetails;
use crate::path::PathOrder;

verus! {

use crate::entry::EntryDetailsV;
use crate::entry::EntryV;
use crate::entry::kind_of;
use crate::entry::strictly_sorted_entries;
use crate::path::lemma_lex_transitive;
use crate::path::lemma_lex_trichotomy;
use crate::path::lex_lt;

/// The behaviours that govern one sync run's destructive decisions.
#[derive(Clone, Copy, Debug, PartialEq, Eq, Structural)]
pub struct SyncBehaviours {
    /// When the destination file has a newer modified time than the source.
    pub dest_file_newer: DestFileUpdateBehaviour,
    /// When the destination file has an older modified time than the
    /// source.
    pub dest_file_older: DestFileUpdateBehaviour,
    /// When both files carry the same modified time.
    pub files_same_time: DestFileUpdateBehaviour,
    /// When an individual destination entry needs deleting.
    pub dest_entry_needs_deleting: DestEntryNeedsDeletingBehaviour,
    /// When the whole destination root needs deleting and replacing.
    pub dest_root_needs_deleting: DestRootNeedsDeletingBehaviour,
}

impl SyncBehaviours {
    /// The default behaviours: overwrite older destination files, prompt
    /// for newer ones, skip files with equal times, delete extraneous
    /// entries, and prompt before replacing the destination root.
    pub fn standard() -> (r: Self)
        ensures
            r == (SyncBehaviours {
                dest_file_newer: DestFileUpdateBehaviour::Prompt,
                dest_file_older: DestFileUpdateBehaviour::Overwrite,
                files_same_time: DestFileUpdateBehaviour::Skip,
                dest_entry_needs_deleting: DestEntryNeedsDeletingBehaviour::Delete,
                dest_root_needs_deleting: DestRootNeedsDeletingBehaviour::Prompt,
            }),
    {
        SyncBehaviours {
            dest_file_newer: DestFileUpdateBehaviour::Prompt,
            dest_file_older: DestFileUpdateBehaviour::Overwrite,
            files_same_time: DestFileUpdateBehaviour::Skip,
            dest_entry_needs_deleting: DestEntryNeedsDeletingBehaviour::Delete,
            dest_root_needs_deleting: DestRootNeedsDeletingBehaviour::Prompt,
        }
    }
}

/// A structured sync failure.
#[derive(Debug, PartialEq, Eq)]
pub enum SyncError {
    /// Out-of-order or malformed entry lists from a doer.
    ProtocolError(String),
    /// A behaviour resolved to an error, or a prompt could not be raised.
    PolicyError(String),
    /// A filesystem operation failed; carries a description of the entry.
    IoError(String),
}

/// The decision for one path: whether the destination entry is deleted and
/// whether the source entry is copied; a policy error when a behaviour
/// forbids the action.  A prompt behaviour counts as a policy error here:
/// the reconciler itself cannot raise prompts, so the caller resolves them
/// to a concrete behaviour beforehand.
pub open spec fn spec_pair_decision(
    s: Option<EntryDetailsV>,
    d: Option<EntryDetailsV>,
    b: SyncBehaviours,
) -> Result<(bool, bool), ()> {
    match (s, d) {
        (None, None) => Ok((false, false)),
        (Some(sd), None) => Ok((false, true)),
        (None, Some(dd)) => match b.dest_entry_needs_deleting {
            DestEntryNeedsDeletingBehaviour::Delete => Ok((true, false)),
            DestEntryNeedsDeletingBehaviour::Skip => Ok((false, false)),
            _ => Err(()),
        },
        (Some(sd), Some(dd)) => {
            if kind_of(sd) != kind_of(dd) {
                match b.dest_entry_needs_deleting {
                    DestEntryNeedsDeletingBehaviour::Delete => Ok((true, true)),
                    DestEntryNeedsDeletingBehaviour::Skip => Ok((false, false)),
                    _ => Err(()),
                }
            } else {
                match (sd, dd) {
                    (
                        EntryDetailsV::File { modified_time: sm, .. },
                        EntryDetailsV::File { modified_time: dm, .. },
                    ) => {
                        let gate = if sm > dm {
                            b.dest_file_older
                        } else if sm < dm {
                            b.dest_file_newer
                        } else {
                            b.files_same_time
                        };
                        match gate {
                            DestFileUpdateBehaviour::Overwrite => Ok((false, true)),
                            DestFileUpdateBehaviour::Skip => Ok((false, false)),
                            _ => Err(()),
                        }
                    },
                    (
                        EntryDetailsV::Symlink { target: st, kind: sk },
                        EntryDetailsV::Symlink { target: dt, kind: dk },
                    ) => {
                        if st == dt && sk == dk {
                            Ok((false, false))
                        } else {
                            match b.dest_entry_needs_deleting {
                                DestEntryNeedsDeletingBehaviour::Delete => Ok((true, true)),
                                DestEntryNeedsDeletingBehaviour::Skip => Ok((false, false)),
                                _ => Err(()),
                            }
                        }
                    },
                    _ => Ok((false, false)),
                }
            }
        },
    }
}

/// The details of the first entry at a path in a scan list.
pub open spec fn spec_list_find(l: Seq<EntryV>, p: Seq<u8>) -> Option<EntryDetailsV>
    decreases l.len(),
{
    if l.len() == 0 {
        None
    } else if l[0].path == p {
        Some(l[0].details)
    } else {
        spec_list_find(l.drop_first(), p)
    }
}

/// A path that stands nowhere in the list is not found.
pub proof fn lemma_list_find_absent(l: Seq<EntryV>, p: Seq<u8>)
    requires
        forall|k: int| 0 <= k < l.len() ==> (#[trigger] l[k].path) != p,
    ensures
        spec_list_find(l, p) is None,
    decreases l.len(),
{
    if l.len() > 0 {
        let lt = l.drop_first();
        assert forall|k: int| 0 <= k < lt.len() implies (#[trigger] lt[k].path) != p by {
            assert(l[k + 1] == lt[k]);
        }
        lemma_list_find_absent(lt, p);
    }
}

/// In a sorted list, an entry at the path determines the find.
pub proof fn lemma_list_find_at(l: Seq<EntryV>, i: int)
    requires
        strictly_sorted_entries(l),
        0 <= i < l.len(),
    ensures
        spec_list_find(l, l[i].path) == Some(l[i].details),
    decreases i,
{
    if i == 0 {
    } else {
        lemma_lex_trichotomy(l[0].path, l[i].path);
        assert(l[0].path != l[i].path);
        let lt = l.drop_first();
        assert(lt[i - 1] == l[i]);
        assert(strictly_sorted_entries(lt)) by {
            assert forall|a: int, b: int| 0 <= a < b < lt.len() implies lex_lt(
                #[trigger] lt[a].path,
                #[trigger] lt[b].path,
            ) by {
                assert(l[a + 1] == lt[a] && l[b + 1] == lt[b]);
            }
        }
        lemma_list_find_at(lt, i - 1);
    }
}


/// What [`spec_list_find`] returns is the first entry at the path; `None`
/// means no entry stands there.
pub proof fn lemma_list_find_char(l: Seq<EntryV>, p: Seq<u8>)
    ensures
        match spec_list_find(l, p) {
            Some(d) => exists|i: int|
                0 <= i < l.len() && #[trigger] l[i].path == p && l[i].details == d,
            None => forall|i: int| 0 <= i < l.len() ==> (#[trigger] l[i].path) != p,
        },
    decreases l.len(),
{
    if l.len() > 0 && l[0].path != p {
        lemma_list_find_char(l.drop_first(), p);
        match spec_list_find(l, p) {
            Some(d) => {
                let j = choose|j: int|
                    0 <= j < l.drop_first().len() && #[trigger] l.drop_first()[j].path == p
                        && l.drop_first()[j].details == d;
                assert(l[j + 1].path == p && l[j + 1].details == d);
            },
            None => {
                assert forall|i: int| 0 <= i < l.len() implies (#[trigger] l[i].path) != p by {
                    if i > 0 {
                        assert(l.drop_first()[i - 1].path != p);
                    }
                }
            },
        }
    }
}

/// Whether any per-entry decision of a merge resolves to a policy error.
pub open spec fn spec_merge_has_error(src: Seq<EntryV>, dest: Seq<EntryV>, b: SyncBehaviours) -> bool {
    ||| exists|j: int|
        0 <= j < dest.len() && spec_pair_decision(
            spec_list_find(src, (#[trigger] dest[j]).path),
            Some(dest[j].details),
            b,
        ) is Err
    ||| exists|i: int|
        0 <= i < src.len() && spec_pair_decision(
            Some((#[trigger] src[i]).details),
            spec_list_find(dest, src[i].path),
            b,
        ) is Err
}

/// The decided plan of one sync: one flag per destination entry, one per
/// source entry.
#[derive(Debug, PartialEq, Eq)]
pub struct SyncPlan {
    /// For each destination scan entry, whether it is deleted.
    pub delete_flags: Vec<bool>,
    /// For each source scan entry, whether it is copied (for a folder:
    /// created; for a file: written whole; for a symlink: created).
    pub copy_flags: Vec<bool>,
}

/// What a reconciliation concluded.
#[derive(Debug, PartialEq, Eq)]
pub enum ReconcileOutcome {
    /// The destination root exists with a different kind, and the
    /// root-deleting behaviour chose to leave it: the sync ends with
    /// nothing done, and without error.
    RootSkipped,
    /// The per-entry plan to carry out.
    Plan(SyncPlan),
}

/// Entry lists a conformant pair of doers would deliver: strictly sorted,
/// the source rooted, and the destination rooted when it is nonempty.
pub open spec fn spec_lists_conformant(src: Seq<EntryV>, dest: Seq<EntryV>) -> bool {
    &&& strictly_sorted_entries(src)
    &&& strictly_sorted_entries(dest)
    &&& src.len() > 0
    &&& src[0].path.len() == 0
    &&& dest.len() > 0 ==> dest[0].path.len() == 0
}

/// Whether the destination root exists with a kind other than the source
/// root's, calling for wholesale replacement.
pub open spec fn spec_root_mismatch(src: Seq<EntryV>, dest: Seq<EntryV>) -> bool {
    dest.len() > 0 && kind_of(src[0].details) != kind_of(dest[0].details)
}

/// Walks the two ordered scan lists and decides every entry's fate.
///
/// Out-of-order or unrooted lists are a protocol error, and only those: a
/// conformant pair of doers never trips the ordering check.  When the two
/// roots differ in kind, the root-deleting behaviour decides between
/// replacing the whole destination, ending the sync with nothing done, and
/// failing.  Otherwise every entry's decision follows
/// [`spec_pair_decision`], and the reconciliation fails exactly when some
/// entry's behaviour resolves to an error or an unresolvable prompt.
pub fn reconcile(src: &Vec<Entry>, dest: &Vec<Entry>, b: &SyncBehaviours) -> (r: Result<
    ReconcileOutcome,
    SyncError,
>)
    ensures
        (r matches Err(e) && e is ProtocolError) == !spec_lists_conformant(
            src@.map_values(|e: Entry| e@),
            dest@.map_values(|e: Entry| e@),
        ),
        ({
            let srcv = src@.map_values(|e: Entry| e@);
            let destv = dest@.map_values(|e: Entry| e@);
            spec_lists_conformant(srcv, destv) ==> {
                if spec_root_mismatch(srcv, destv) {
                    match b.dest_root_needs_deleting {
                        DestRootNeedsDeletingBehaviour::Skip => r == Ok::<
                            ReconcileOutcome,
                            SyncError,
                        >(ReconcileOutcome::RootSkipped),
                        DestRootNeedsDeletingBehaviour::Delete => (r matches Ok(
                            ReconcileOutcome::Plan(plan),
                        ) && plan.delete_flags@.len() == destv.len() && plan.copy_flags@.len()
                            == srcv.len() && (forall|j: int|
                            0 <= j < destv.len() ==> plan.delete_flags@[j] == true) && (forall|
                            i: int,
                        |
                            0 <= i < srcv.len() ==> plan.copy_flags@[i] == true)),
                        _ => (r matches Err(e) && e is PolicyError),
                    }
                } else {
                    &&& (r matches Err(e) && e is PolicyError) == spec_merge_has_error(
                        srcv,
                        destv,
                        *b,
                    )
                    &&& !spec_merge_has_error(srcv, destv, *b) ==> (r matches Ok(
                        ReconcileOutcome::Plan(plan),
                    ) && plan.delete_flags@.len() == destv.len() && plan.copy_flags@.len()
                        == srcv.len() && (forall|j: int|
                        0 <= j < destv.len() ==> (spec_pair_decision(
                            spec_list_find(srcv, (#[trigger] destv[j]).path),
                            Some(destv[j].details),
                            *b,
                        ) matches Ok(fl) && fl.0 == plan.delete_flags@[j])) && (forall|i: int|
                        0 <= i < srcv.len() ==> (spec_pair_decision(
                            Some((#[trigger] srcv[i]).details),
                            spec_list_find(destv, srcv[i].path),
                            *b,
                        ) matches Ok(fl) && fl.1 == plan.copy_flags@[i])))
                }
            }
        }),
{
    let ghost srcv = src@.map_values(|e: Entry| e@);
    let ghost destv = dest@.map_values(|e: Entry| e@);
    if !check_sorted(src) || !check_sorted(dest) {
        return Err(
            SyncError::ProtocolError("A doer delivered entries out of canonical order".to_owned()),
        );
    }
    if src.len() == 0 || !src[0].path.is_root() {
        return Err(
            SyncError::ProtocolError(
                "The source doer did not deliver its root entry first".to_owned(),
            ),
        );
    }
    if dest.len() > 0 && !dest[0].path.is_root() {
        return Err(
            SyncError::ProtocolError(
                "The dest doer did not deliver its root entry first".to_owned(),
            ),
        );
    }
    proof {
        assert(spec_lists_conformant(srcv, destv));
    }
    if dest.len() > 0 && !matches!(
        (src[0].details.kind(), dest[0].details.kind()),
        (crate::entry::EntryKind::File, crate::entry::EntryKind::File) | (
            crate::entry::EntryKind::Folder,
            crate::entry::EntryKind::Folder,
        ) | (crate::entry::EntryKind::Symlink, crate::entry::EntryKind::Symlink),
    ) {
        proof {
            assert(spec_root_mismatch(srcv, destv));
        }
        return match b.dest_root_needs_deleting {
            DestRootNeedsDeletingBehaviour::Skip => Ok(ReconcileOutcome::RootSkipped),
            DestRootNeedsDeletingBehaviour::Delete => {
                let mut delete_flags: Vec<bool> = Vec::new();
                let mut copy_flags: Vec<bool> = Vec::new();
                let mut j: usize = 0;
                while j < dest.len()
                    invariant
                        delete_flags@.len() == j,
                        0 <= j <= dest@.len(),
                        forall|k: int| 0 <= k < j ==> delete_flags@[k] == true,
                    decreases dest@.len() - j,
                {
                    delete_flags.push(true);
                    j += 1;
                }
                let mut i: usize = 0;
                while i < src.len()
                    invariant
                        copy_flags@.len() == i,
                        0 <= i <= src@.len(),
                        forall|k: int| 0 <= k < i ==> copy_flags@[k] == true,
                    decreases src@.len() - i,
                {
                    copy_flags.push(true);
                    i += 1;
                }
                Ok(ReconcileOutcome::Plan(SyncPlan { delete_flags, copy_flags }))
            },
            DestRootNeedsDeletingBehaviour::Error => Err(
                SyncError::PolicyError(
                    "The dest root needs deleting, but the behaviour is set to error".to_owned(),
                ),
            ),
            DestRootNeedsDeletingBehaviour::Prompt => Err(
                SyncError::PolicyError(
                    "The dest root needs deleting, but no prompt can be raised here".to_owned(),
                ),
            ),
        };
    }
    proof {
        assert(!spec_root_mismatch(srcv, destv));
    }
    merge_lists(src, dest, b)
}

/// The merge itself, on conformant, root-compatible lists.
fn merge_lists(src: &Vec<Entry>, dest: &Vec<Entry>, b: &SyncBehaviours) -> (r: Result<
    ReconcileOutcome,
    SyncError,
>)
    requires
        spec_lists_conformant(
            src@.map_values(|e: Entry| e@),
            dest@.map_values(|e: Entry| e@),
        ),
    ensures
        ({
            let srcv = src@.map_values(|e: Entry| e@);
            let destv = dest@.map_values(|e: Entry| e@);
            &&& (r matches Err(e) && e is PolicyError) == spec_merge_has_error(srcv, destv, *b)
            &&& !(r matches Err(e) && e is ProtocolError)
            &&& !(r matches Err(e) && e is IoError)
            &&& !(r == Ok::<ReconcileOutcome, SyncError>(ReconcileOutcome::RootSkipped))
            &&& !spec_merge_has_error(srcv, destv, *b) ==> (r matches Ok(
                ReconcileOutcome::Plan(plan),
            ) && plan.delete_flags@.len() == destv.len() && plan.copy_flags@.len() == srcv.len()
                && (forall|j: int|
                0 <= j < destv.len() ==> (spec_pair_decision(
                    spec_list_find(srcv, (#[trigger] destv[j]).path),
                    Some(destv[j].details),
                    *b,
                ) matches Ok(fl) && fl.0 == plan.delete_flags@[j])) && (forall|i: int|
                0 <= i < srcv.len() ==> (spec_pair_decision(
                    Some((#[trigger] srcv[i]).details),
                    spec_list_find(destv, srcv[i].path),
                    *b,
                ) matches Ok(fl) && fl.1 == plan.copy_flags@[i])))
        }),
{
    let ghost srcv = src@.map_values(|e: Entry| e@);
    let ghost destv = dest@.map_values(|e: Entry| e@);
    let mut delete_flags: Vec<bool> = Vec::new();
    let mut copy_flags: Vec<bool> = Vec::new();
    let mut i: usize = 0;
    let mut j: usize = 0;
    while i < src.len() || j < dest.len()
        invariant
            0 <= i <= srcv.len(),
            0 <= j <= destv.len(),
            srcv == src@.map_values(|e: Entry| e@),
            destv == dest@.map_values(|e: Entry| e@),
            srcv.len() == src@.len(),
            destv.len() == dest@.len(),
            forall|k: int| 0 <= k < srcv.len() ==> srcv[k] == src@[k]@,
            forall|k: int| 0 <= k < destv.len() ==> destv[k] == dest@[k]@,
            strictly_sorted_entries(srcv),
            strictly_sorted_entries(destv),
            delete_flags@.len() == j,
            copy_flags@.len() == i,
            j < destv.len() ==> forall|a: int| 0 <= a < i ==> lex_lt(
                (#[trigger] srcv[a]).path,
                destv[j as int].path,
            ),
            i < srcv.len() ==> forall|bb: int| 0 <= bb < j ==> lex_lt(
                (#[trigger] destv[bb]).path,
                srcv[i as int].path,
            ),
            forall|jj: int|
                0 <= jj < j ==> (spec_pair_decision(
                    spec_list_find(srcv, (#[trigger] destv[jj]).path),
                    Some(destv[jj].details),
                    *b,
                ) matches Ok(fl) && fl.0 == delete_flags@[jj]),
            forall|ii: int|
                0 <= ii < i ==> (spec_pair_decision(
                    Some((#[trigger] srcv[ii]).details),
                    spec_list_find(destv, srcv[ii].path),
                    *b,
                ) matches Ok(fl) && fl.1 == copy_flags@[ii]),
        decreases srcv.len() - i + destv.len() - j,
    {
        let order = if i < src.len() && j < dest.len() {
            src[i].path.compare(&dest[j].path)
        } else if i < src.len() {
            PathOrder::Less
        } else {
            PathOrder::Greater
        };
        match order {
            PathOrder::Less => {
                // Present only on the source side: schedule a copy.
                proof {
                    assert forall|bb: int| 0 <= bb < destv.len() implies (
                    #[trigger] destv[bb].path) != srcv[i as int].path by {
                        if bb < j {
                            lemma_lex_trichotomy(destv[bb].path, srcv[i as int].path);
                        } else {
                            if bb > j {
                                lemma_lex_transitive(
                                    srcv[i as int].path,
                                    destv[j as int].path,
                                    destv[bb].path,
                                );
                            }
                            lemma_lex_trichotomy(srcv[i as int].path, destv[bb].path);
                        }
                    }
                    lemma_list_find_absent(destv, srcv[i as int].path);
                }
                copy_flags.push(true);
                proof {
                    if i + 1 < srcv.len() {
                        assert(lex_lt(srcv[i as int].path, srcv[i + 1].path));
                        assert forall|bb: int| 0 <= bb < j implies lex_lt(
                            (#[trigger] destv[bb]).path,
                            srcv[i + 1].path,
                        ) by {
                            lemma_lex_transitive(
                                destv[bb].path,
                                srcv[i as int].path,
                                srcv[i + 1].path,
                            );
                        }
                    }
                }
                i += 1;
            },
            PathOrder::Greater => {
                // Present only on the destination side: gated delete.
                proof {
                    assert forall|a: int| 0 <= a < srcv.len() implies (#[trigger] srcv[a].path)
                        != destv[j as int].path by {
                        if a < i {
                            lemma_lex_trichotomy(srcv[a].path, destv[j as int].path);
                        } else {
                            if a > i {
                                lemma_lex_transitive(
                                    destv[j as int].path,
                                    srcv[i as int].path,
                                    srcv[a].path,
                                );
                            }
                            lemma_lex_trichotomy(destv[j as int].path, srcv[a].path);
                        }
                    }
                    lemma_list_find_absent(srcv, destv[j as int].path);
                }
                match b.dest_entry_needs_deleting {
                    DestEntryNeedsDeletingBehaviour::Delete => {
                        delete_flags.push(true);
                    },
                    DestEntryNeedsDeletingBehaviour::Skip => {
                        delete_flags.push(false);
                    },
                    DestEntryNeedsDeletingBehaviour::Error => {
                        proof {
                            assert(spec_pair_decision(
                                spec_list_find(srcv, destv[j as int].path),
                                Some(destv[j as int].details),
                                *b,
                            ) is Err);
                            assert(spec_merge_has_error(srcv, destv, *b));
                        }
                        return Err(
                            SyncError::PolicyError(
                                "A dest entry needs deleting, but the behaviour is set to error".to_owned(),
                            ),
                        );
                    },
                    DestEntryNeedsDeletingBehaviour::Prompt => {
                        proof {
                            assert(spec_pair_decision(
                                spec_list_find(srcv, destv[j as int].path),
                                Some(destv[j as int].details),
                                *b,
                            ) is Err);
                            assert(spec_merge_has_error(srcv, destv, *b));
                        }
                        return Err(
                            SyncError::PolicyError(
                                "A dest entry needs deleting, but no prompt can be raised here".to_owned(),
                            ),
                        );
                    },
                }
                proof {
                    if j + 1 < destv.len() {
                        assert(lex_lt(destv[j as int].path, destv[j + 1].path));
                        assert forall|a: int| 0 <= a < i implies lex_lt(
                            (#[trigger] srcv[a]).path,
                            destv[j + 1].path,
                        ) by {
                            lemma_lex_transitive(
                                srcv[a].path,
                                destv[j as int].path,
                                destv[j + 1].path,
                            );
                        }
                    }
                    if i < srcv.len() {
                        assert(lex_lt(destv[j as int].path, srcv[i as int].path));
                    }
                }
                j += 1;
            },
            PathOrder::Equal => {
                // Present on both sides: decide by kind, times and targets.
                proof {
                    lemma_list_find_at(srcv, i as int);
                    lemma_list_find_at(destv, j as int);
                    assert(spec_list_find(srcv, destv[j as int].path) == Some(
                        srcv[i as int].details,
                    ));
                    assert(spec_list_find(destv, srcv[i as int].path) == Some(
                        destv[j as int].details,
                    ));
                }
                let fl = match pair_decision(&src[i].details, &dest[j].details, b) {
                    Ok(fl) => fl,
                    Err(e) => {
                        proof {
                            assert(spec_pair_decision(
                                Some(srcv[i as int].details),
                                spec_list_find(destv, srcv[i as int].path),
                                *b,
                            ) is Err);
                            assert(spec_merge_has_error(srcv, destv, *b));
                        }
                        return Err(e);
                    },
                };
                delete_flags.push(fl.0);
                copy_flags.push(fl.1);
                proof {
                    let sp = srcv[i as int].path;
                    if i + 1 < srcv.len() {
                        assert forall|bb: int| 0 <= bb < j + 1 implies lex_lt(
                            (#[trigger] destv[bb]).path,
                            srcv[i + 1].path,
                        ) by {
                            assert(lex_lt(srcv[i as int].path, srcv[i + 1].path));
                            if bb < j {
                                lemma_lex_transitive(
                                    destv[bb].path,
                                    srcv[i as int].path,
                                    srcv[i + 1].path,
                                );
                            }
                        }
                    }
                    if j + 1 < destv.len() {
                        assert forall|a: int| 0 <= a < i + 1 implies lex_lt(
                            (#[trigger] srcv[a]).path,
                            destv[j + 1].path,
                        ) by {
                            assert(lex_lt(destv[j as int].path, destv[j + 1].path));
                            if a < i {
                                lemma_lex_transitive(
                                    srcv[a].path,
                                    destv[j as int].path,
                                    destv[j + 1].path,
                                );
                            }
                        }
                    }
                }
                i += 1;
                j += 1;
            },
        }
    }
    proof {
        assert(i == srcv.len() && j == destv.len());
        assert(!spec_merge_has_error(srcv, destv, *b)) by {
            if spec_merge_has_error(srcv, destv, *b) {
                if exists|jj: int|
                    0 <= jj < destv.len() && spec_pair_decision(
                        spec_list_find(srcv, (#[trigger] destv[jj]).path),
                        Some(destv[jj].details),
                        *b,
                    ) is Err {
                    let jj = choose|jj: int|
                        0 <= jj < destv.len() && spec_pair_decision(
                            spec_list_find(srcv, (#[trigger] destv[jj]).path),
                            Some(destv[jj].details),
                            *b,
                        ) is Err;
                    assert((spec_pair_decision(
                        spec_list_find(srcv, destv[jj].path),
                        Some(destv[jj].details),
                        *b,
                    ) matches Ok(fl) && fl.0 == delete_flags@[jj]));
                } else {
                    let ii = choose|ii: int|
                        0 <= ii < srcv.len() && spec_pair_decision(
                            Some((#[trigger] srcv[ii]).details),
                            spec_list_find(destv, srcv[ii].path),
                            *b,
                        ) is Err;
                    assert((spec_pair_decision(
                        Some(srcv[ii].details),
                        spec_list_find(destv, srcv[ii].path),
                        *b,
                    ) matches Ok(fl) && fl.1 == copy_flags@[ii]));
                }
            }
        }
    }
    Ok(ReconcileOutcome::Plan(SyncPlan { delete_flags, copy_flags }))
}

/// The exec form of [`spec_pair_decision`] for a path present on both
/// sides, mapping a forbidden action to a policy error.
fn pair_decision(s: &EntryDetails, d: &EntryDetails, b: &SyncBehaviours) -> (r: Result<
    (bool, bool),
    SyncError,
>)
    ensures
        match spec_pair_decision(Some(s@), Some(d@), *b) {
            Ok(fl) => r matches Ok(got) && got == fl,
            Err(()) => r matches Err(e) && e is PolicyError,
        },
{
    let same_kind = matches!(
        (s.kind(), d.kind()),
        (crate::entry::EntryKind::File, crate::entry::EntryKind::File) | (
            crate::entry::EntryKind::Folder,
            crate::entry::EntryKind::Folder,
        ) | (crate::entry::EntryKind::Symlink, crate::entry::EntryKind::Symlink),
    );
    if !same_kind {
        return gated_replace(b);
    }
    match (s, d) {
        (
            EntryDetails::File { modified_time: sm, .. },
            EntryDetails::File { modified_time: dm, .. },
        ) => {
            let gate = if *sm > *dm {
                b.dest_file_older
            } else if *sm < *dm {
                b.dest_file_newer
            } else {
                b.files_same_time
            };
            match gate {
                DestFileUpdateBehaviour::Overwrite => Ok((false, true)),
                DestFileUpdateBehaviour::Skip => Ok((false, false)),
                DestFileUpdateBehaviour::Error => Err(
                    SyncError::PolicyError(
                        "A dest file would be overwritten, but the behaviour is set to error".to_owned(),
                    ),
                ),
                DestFileUpdateBehaviour::Prompt => Err(
                    SyncError::PolicyError(
                        "A dest file would be overwritten, but no prompt can be raised here".to_owned(),
                    ),
                ),
            }
        },
        (
            EntryDetails::Symlink { target: st, kind: sk },
            EntryDetails::Symlink { target: dt, kind: dk },
        ) => {
            if crate::path::bytes_equal(st, dt) && sk == dk {
                Ok((false, false))
            } else {
                gated_replace(b)
            }
        },
        _ => Ok((false, false)),
    }
}

/// Applies the entry-deleting behaviour when a destination entry stands in the way.
fn gated_replace(b: &SyncBehaviours) -> (r: Result<(bool, bool), SyncError>)
    ensures
        match b.dest_entry_needs_deleting {
            DestEntryNeedsDeletingBehaviour::Delete => r == Ok::<_, SyncError>((true, true)),
            DestEntryNeedsDeletingBehaviour::Skip => r == Ok::<_, SyncError>((false, false)),
            _ => r matches Err(e) && e is PolicyError,
        },
{
    match b.dest_entry_needs_deleting {
        DestEntryNeedsDeletingBehaviour::Delete => Ok((true, true)),
        DestEntryNeedsDeletingBehaviour::Skip => Ok((false, false)),
        DestEntryNeedsDeletingBehaviour::Error => Err(
            SyncError::PolicyError(
                "A dest entry needs replacing, but the behaviour is set to error".to_owned(),
            ),
        ),
        DestEntryNeedsDeletingBehaviour::Prompt => Err(
            SyncError::PolicyError(
                "A dest entry needs replacing, but no prompt can be raised here".to_owned(),
            ),
        ),
    }
}

/// Whether an entry list stands in strictly ascending canonical order.
pub fn check_sorted(entries: &Vec<Entry>) -> (r: bool)
    ensures
        r == strictly_sorted_entries(entries@.map_values(|e: Entry| e@)),
{
    let ghost v = entries@.map_values(|e: Entry| e@);
    let mut k: usize = 1;
    if entries.len() <= 1 {
        proof {
            assert(strictly_sorted_entries(v));
        }
        return true;
    }
    while k < entries.len()
        invariant
            v == entries@.map_values(|e: Entry| e@),
            1 <= k <= v.len(),
            v.len() == entries@.len(),
            forall|x: int| 0 <= x < v.len() ==> v[x] == entries@[x]@,
            forall|x: int| 0 < x < k ==> lex_lt((#[trigger] v[x - 1]).path, v[x].path),
        decreases v.len() - k,
    {
        if !matches!(entries[k - 1].path.compare(&entries[k].path), PathOrder::Less) {
            proof {
                lemma_lex_trichotomy(v[k - 1].path, v[k as int].path);
                assert(!strictly_sorted_entries(v)) by {
                    if strictly_sorted_entries(v) {
                        assert(lex_lt(v[k - 1].path, v[k as int].path));
                    }
                }
            }
            return false;
        }
        k += 1;
    }
    proof {
        lemma_sorted_from_adjacent(v);
    }
    true
}

/// Adjacent order gives total order.
proof fn lemma_sorted_from_adjacent(s: Seq<EntryV>)
    requires
        forall|x: int| 0 < x < s.len() ==> lex_lt((#[trigger] s[x - 1]).path, s[x].path),
    ensures
        strictly_sorted_entries(s),
{
    assert forall|a: int, b: int| 0 <= a < b < s.len() implies lex_lt(
        #[trigger] s[a].path,
        #[trigger] s[b].path,
    ) by {
        lemma_chain(s, a, b);
    }
}

/// Order carries along a chain of adjacent steps.
proof fn lemma_chain(s: Seq<EntryV>, a: int, b: int)
    requires
        forall|x: int| 0 < x < s.len() ==> lex_lt((#[trigger] s[x - 1]).path, s[x].path),
        0 <= a < b < s.len(),
    ensures
        lex_lt(s[a].path, s[b].path),
    decreases b - a,
{
    if a + 1 == b {
        assert(lex_lt(s[b - 1].path, s[b].path));
    } else {
        lemma_chain(s, a, b - 1);
        assert(lex_lt(s[b - 1].path, s[b].path));
        lemma_lex_transitive(s[a].path, s[b - 1].path, s[b].path);
    }
}

} // verus!
