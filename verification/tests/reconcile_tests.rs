//! Tests of the reconciler's protocol checks and the progress registers.

use rjrssync::entry::Entry;
use rjrssync::entry::EntryDetails;
use rjrssync::path::RootRelativePath;
use rjrssync::progress::Progress;
use rjrssync::progress::ProgressValues;
use rjrssync::reconcile::reconcile;
use rjrssync::reconcile::SyncBehaviours;
use rjrssync::reconcile::SyncError;

fn entry(p: &str, details: EntryDetails) -> Entry {
    Entry { path: RootRelativePath::new(p).unwrap(), details }
}

/// Out-of-order entries from a doer are a protocol error.
#[test]
fn out_of_order_entries_are_a_protocol_error() {
    let src = vec![
        entry("", EntryDetails::Folder),
        entry("b", EntryDetails::Folder),
        entry("a", EntryDetails::Folder),
    ];
    let dest = vec![entry("", EntryDetails::Folder)];
    let err = reconcile(&src, &dest, &SyncBehaviours::standard()).unwrap_err();
    assert!(matches!(err, SyncError::ProtocolError(_)));
}

/// A list that does not begin with its root entry is a protocol error too.
#[test]
fn unrooted_source_is_a_protocol_error() {
    let src = vec![entry("a", EntryDetails::Folder)];
    let dest = vec![entry("", EntryDetails::Folder)];
    let err = reconcile(&src, &dest, &SyncBehaviours::standard()).unwrap_err();
    assert!(matches!(err, SyncError::ProtocolError(_)));
}

/// The registers stay in the order completed <= sent <= total while totals
/// build up, work is dispatched, and markers come back.
#[test]
fn progress_registers_stay_ordered() {
    let file = EntryDetails::File { modified_time: 0, size: 10 };
    let mut progress = Progress::new();
    progress.inc_total_for_copy(&file);
    progress.inc_total_for_delete(&EntryDetails::Folder);
    let check = |p: &Progress| {
        let (completed, sent, total) = {
            let r = p.registers();
            (r.0, r.1, r.2)
        };
        assert!(completed.work <= sent.work && sent.work <= total.work);
        assert!(completed.delete <= sent.delete && sent.delete <= total.delete);
        assert!(completed.copy <= sent.copy && sent.copy <= total.copy);
    };
    check(&progress);
    progress.delete_sent(&EntryDetails::Folder);
    check(&progress);
    let marker = progress.get_progress_marker(None);
    // The in-memory doer echoes the marker at once; apply it.
    progress.update_completed(&marker);
    check(&progress);
    progress.copy_sent(&file);
    check(&progress);
    let done = progress.all_work_sent();
    progress.update_completed(&done);
    let (completed, sent, total) = {
        let r = progress.registers();
        (r.0, r.1, r.2)
    };
    assert_eq!(completed, total);
    assert_eq!(sent, total);
    assert_eq!(total, ProgressValues { work: 2097152, delete: 1, copy: 1, copy_bytes: 10 });
}
