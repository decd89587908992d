//! Tests of the progress measurements: the floor for small entries, the
//! linear scaling for large files, and the chunk-sum law on concrete
//! chunkings.

use rjrssync::entry::EntryDetails;
use rjrssync::progress::ProgressValues;

#[test]
fn progress_values() {
    // Small files of different sizes still have the same work
    assert_eq!(
        ProgressValues::for_copy(&EntryDetails::File { modified_time: 0, size: 1 }).work,
        ProgressValues::for_copy(&EntryDetails::File { modified_time: 0, size: 100 }).work
    );

    // But big files scale linearly
    assert_eq!(
        ProgressValues::for_copy(&EntryDetails::File { modified_time: 0, size: 10_000_000_000 })
            .work,
        ProgressValues::for_copy(&EntryDetails::File { modified_time: 0, size: 1_000_000_000 })
            .work
            * 10
    );

    // Several partial copies add up to the same total as the whole file - small file
    let mut p = ProgressValues::for_copy_partial(0, 100, 1000);
    p.add_assign(ProgressValues::for_copy_partial(100, 100, 1000));
    p.add_assign(ProgressValues::for_copy_partial(200, 800, 1000));
    assert_eq!(
        p,
        ProgressValues::for_copy(&EntryDetails::File { modified_time: 0, size: 1000 })
    );

    // Several partial copies add up to the same total as the whole file - large file
    let mut p = ProgressValues::for_copy_partial(0, 100, 1_000_000_000);
    p.add_assign(ProgressValues::for_copy_partial(100, 100, 1_000_000_000));
    p.add_assign(ProgressValues::for_copy_partial(200, 800, 1_000_000_000));
    p.add_assign(ProgressValues::for_copy_partial(1000, 999_999_000, 1_000_000_000));
    assert_eq!(
        p,
        ProgressValues::for_copy(&EntryDetails::File { modified_time: 0, size: 1_000_000_000 })
    );
}

#[test]
fn progress_delete_work_is_constant() {
    let folder = ProgressValues::for_delete(&EntryDetails::Folder);
    let file = ProgressValues::for_delete(&EntryDetails::File { modified_time: 7, size: 123 });
    assert_eq!(folder, file);
    assert_eq!(folder.delete, 1);
    assert_eq!(folder.copy, 0);
    assert_eq!(folder.copy_bytes, 0);
}
