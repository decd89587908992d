//! Tests of whole sync runs over in-memory trees: creating, updating,
//! deleting, chunked large-file transfer, and the reported action counts.

use rjrssync::behaviour::DestEntryNeedsDeletingBehaviour;
use rjrssync::behaviour::DestRootNeedsDeletingBehaviour;
use rjrssync::entry::EntryContent;
use rjrssync::entry::SymlinkKind;
use rjrssync::reconcile::SyncError;
use rjrssync::entry::NumActions;
use rjrssync::filter::Filters;
use rjrssync::path::RootRelativePath;
use rjrssync::reconcile::SyncBehaviours;
use rjrssync::sync::sync_trees;
use rjrssync::tree::Tree;

fn path(s: &str) -> RootRelativePath {
    RootRelativePath::new(s).unwrap()
}

fn file_with_modified(tree: &mut Tree, p: &str, contents: &str, modified_time: u64) {
    tree.upsert(
        path(p),
        EntryContent::File { modified_time, bytes: contents.as_bytes().to_vec() },
    );
}

fn file(tree: &mut Tree, p: &str, contents: &str) {
    file_with_modified(tree, p, contents, 0);
}

fn folder(tree: &mut Tree, p: &str) {
    tree.upsert(path(p), EntryContent::Folder);
}

fn empty_folder() -> Tree {
    let mut t = Tree::new();
    folder(&mut t, "");
    t
}

fn copied_files(n: u32) -> NumActions {
    NumActions { copied_files: n, ..Default::default() }
}

fn copied_files_and_folders(files: u32, folders: u32) -> NumActions {
    NumActions { copied_files: files, created_folders: folders, ..Default::default() }
}

fn run_expect_success(src: &Tree, dest: &Tree, expected: NumActions) -> Tree {
    let outcome = sync_trees(src, dest, &Filters::none(), &SyncBehaviours::standard(), false)
        .expect("sync should succeed");
    assert!(!outcome.root_skipped);
    assert_eq!(outcome.actions, expected);
    outcome.dest
}

/// Simple folder -> folder sync
#[test]
fn test_simple_folder_sync() {
    let mut src_folder = empty_folder();
    file(&mut src_folder, "c1", "contents1");
    file(&mut src_folder, "c2", "contents2");
    folder(&mut src_folder, "c3");
    file(&mut src_folder, "c3/sc", "contents3");
    let result = run_expect_success(&src_folder, &empty_folder(), copied_files_and_folders(3, 1));
    assert_eq!(result, src_folder);
}

/// Some files and a folder (with contents) in the destination need deleting.
#[test]
fn test_remove_dest_stuff() {
    let mut src_folder = empty_folder();
    file(&mut src_folder, "c1", "contents1");
    file(&mut src_folder, "c2", "contents2");
    folder(&mut src_folder, "c3");
    file(&mut src_folder, "c3/sc", "contents3");
    let mut dest_folder = empty_folder();
    file(&mut dest_folder, "remove me", "contents1");
    file(&mut dest_folder, "remove me too", "contents2");
    folder(&mut dest_folder, "remove this whole folder");
    file(&mut dest_folder, "remove this whole folder/sc", "contents3");
    file(&mut dest_folder, "remove this whole folder/sc2", "contents3");
    folder(&mut dest_folder, "remove this whole folder/remove this whole folder");
    file(
        &mut dest_folder,
        "remove this whole folder/remove this whole folder/sc",
        "contents3",
    );
    let result = run_expect_success(
        &src_folder,
        &dest_folder,
        NumActions {
            copied_files: 3,
            created_folders: 1,
            copied_symlinks: 0,
            deleted_files: 5,
            deleted_folders: 2,
            deleted_symlinks: 0,
        },
    );
    assert_eq!(result, src_folder);
}

/// A file exists but has an old timestamp so needs updating.
#[test]
fn test_update_file() {
    let mut src_folder = empty_folder();
    file_with_modified(&mut src_folder, "file", "contents1", 1);
    let mut dest_folder = empty_folder();
    file_with_modified(&mut dest_folder, "file", "contents2", 0);
    let result = run_expect_success(&src_folder, &dest_folder, copied_files(1));
    assert_eq!(result, src_folder);
}

/// Most files have the same timestamp so don't need updating, but one does.
#[test]
fn test_skip_unchanged() {
    let mut src_folder = empty_folder();
    file_with_modified(&mut src_folder, "file1", "contentsNEW", 1);
    file_with_modified(&mut src_folder, "file2", "contents2", 0);
    file_with_modified(&mut src_folder, "file3", "contents3", 0);
    let mut dest_folder = empty_folder();
    file_with_modified(&mut dest_folder, "file1", "contentsOLD", 0);
    file_with_modified(&mut dest_folder, "file2", "contents2", 0);
    file_with_modified(&mut dest_folder, "file3", "contents3", 0);
    // Check that exactly one file was copied (the other two should have been skipped)
    let result = run_expect_success(&src_folder, &dest_folder, copied_files(1));
    assert_eq!(result, src_folder);
}

/// The destination root doesn't exist yet; syncing a single file brings it
/// into being without any folder creations.
#[test]
fn test_dest_ancestors_dont_exist() {
    let mut src = Tree::new();
    file(&mut src, "", "contents");
    let result = run_expect_success(&src, &Tree::new(), copied_files(1));
    assert_eq!(result, src);
}

/// Syncing a folder to a destination that doesn't exist yet creates the
/// root folder itself along with the contents.
#[test]
fn test_relative_paths() {
    let mut src_folder = empty_folder();
    file(&mut src_folder, "c1", "contents1");
    let result = run_expect_success(&src_folder, &Tree::new(), copied_files_and_folders(1, 1));
    assert_eq!(result, src_folder);
}

/// Syncing a large file that therefore needs splitting into chunks
#[test]
fn test_large_file() {
    let mut src_folder = empty_folder();
    file(&mut src_folder, "file", &"so much big!".repeat(1000 * 1000 * 10)); // Roughly 100MB
    let result = run_expect_success(&src_folder, &empty_folder(), copied_files(1));
    assert_eq!(result, src_folder);
}

/// Running the same sync a second time finds nothing to do.
#[test]
fn test_sync_is_idempotent() {
    let mut src_folder = empty_folder();
    file(&mut src_folder, "a", "contents-a");
    folder(&mut src_folder, "b");
    file_with_modified(&mut src_folder, "b/c", "contents-c", 5);
    let first = run_expect_success(&src_folder, &empty_folder(), copied_files_and_folders(2, 1));
    let second = run_expect_success(&src_folder, &first, NumActions::default());
    assert_eq!(second, src_folder);
}

/// An excluded entry is neither created on the destination nor deleted
/// from it.
#[test]
fn test_filters_exclude_both_sides() {
    let mut src_folder = empty_folder();
    file(&mut src_folder, "keep me", "synced");
    file(&mut src_folder, "skip src", "never copied");
    let mut dest_folder = empty_folder();
    file(&mut dest_folder, "skip dest", "never deleted");
    let filters = Filters::compile(&vec![
        "-skip.*".to_string(),
    ])
    .unwrap();
    let outcome = sync_trees(
        &src_folder,
        &dest_folder,
        &filters,
        &SyncBehaviours::standard(),
        false,
    )
    .expect("sync should succeed");
    assert_eq!(outcome.actions, copied_files(1));
    let result = outcome.dest;
    // The excluded source file was not created; the excluded dest file was
    // not deleted; the included file was synced.
    assert!(result.find(&path("skip src")).is_none());
    assert!(result.find(&path("skip dest")).is_some());
    assert!(result.find(&path("keep me")).is_some());
}

/// A dry run counts what would happen but changes nothing.
#[test]
fn test_dry_run_changes_nothing() {
    let mut src_folder = empty_folder();
    file(&mut src_folder, "c1", "contents1");
    let mut dest_folder = empty_folder();
    file(&mut dest_folder, "stale", "remove me");
    let outcome = sync_trees(
        &src_folder,
        &dest_folder,
        &Filters::none(),
        &SyncBehaviours::standard(),
        true,
    )
    .expect("dry run should succeed");
    assert_eq!(
        outcome.actions,
        NumActions { copied_files: 1, deleted_files: 1, ..Default::default() }
    );
    assert_eq!(outcome.dest, dest_folder);
}

/// A symlink is copied by its target bytes, and an equal symlink is left
/// alone.
#[test]
fn test_symlink_sync() {
    let mut src_folder = empty_folder();
    src_folder.upsert(
        path("link"),
        EntryContent::Symlink { target: b"target/a".to_vec(), kind: SymlinkKind::File },
    );
    let result = run_expect_success(
        &src_folder,
        &empty_folder(),
        NumActions { copied_symlinks: 1, ..Default::default() },
    );
    assert_eq!(result, src_folder);
    // A second run over the equal symlink does nothing.
    let second = run_expect_success(&src_folder, &result, NumActions::default());
    assert_eq!(second, src_folder);
}

/// When the destination root has a different kind and the behaviour says
/// to replace it, the whole destination is rebuilt from the source.
#[test]
fn test_root_replaced_wholesale() {
    let mut src = Tree::new();
    file(&mut src, "", "now a file");
    let mut dest = empty_folder();
    file(&mut dest, "old", "old contents");
    let behaviours = SyncBehaviours {
        dest_root_needs_deleting: DestRootNeedsDeletingBehaviour::Delete,
        ..SyncBehaviours::standard()
    };
    let outcome = sync_trees(&src, &dest, &Filters::none(), &behaviours, false)
        .expect("sync should succeed");
    assert_eq!(
        outcome.actions,
        NumActions { copied_files: 1, deleted_files: 1, deleted_folders: 1, ..Default::default() }
    );
    assert_eq!(outcome.dest, src);
}

/// A policy set to error stops the sync when a delete would be needed.
#[test]
fn test_delete_policy_error() {
    let src_folder = empty_folder();
    let mut dest_folder = empty_folder();
    file(&mut dest_folder, "extra", "to be deleted");
    let behaviours = SyncBehaviours {
        dest_entry_needs_deleting: DestEntryNeedsDeletingBehaviour::Error,
        ..SyncBehaviours::standard()
    };
    let err = sync_trees(&src_folder, &dest_folder, &Filters::none(), &behaviours, false)
        .expect_err("sync should fail");
    assert!(matches!(err, SyncError::PolicyError(_)));
}

/// A missing source is an I/O error.
#[test]
fn test_missing_source_is_an_error() {
    let err = sync_trees(
        &Tree::new(),
        &empty_folder(),
        &Filters::none(),
        &SyncBehaviours::standard(),
        false,
    )
    .expect_err("sync should fail");
    assert!(matches!(err, SyncError::IoError(_)));
}
