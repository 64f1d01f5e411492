use relay::found::order_metadata;
use relay::hints::{hint_plan, HintObservation};
use relay::indexing::{
    file_uri_to_path, match_renames, normalize_project_relative_path, normalize_relative,
    project_root_path, validate_hints, IndexedFileSnapshot,
};
use relay::reconcile::{baseline_plan, files_to_hash, reconcile_plan, FileMeta};

fn meta(path: &str, size: u64, mtime: u64) -> FileMeta {
    FileMeta { relative_path: path.to_string(), size_bytes: size, modified_unix_ns: mtime }
}

fn snap(path: &str, size: u64, mtime: u64, sha: &str) -> IndexedFileSnapshot {
    IndexedFileSnapshot { relative_path: path.to_string(), size_bytes: size, modified_unix_ns: mtime, content_sha256: sha.to_string() }
}

/// The refusal code of a path as a Windows host reads it.
fn code_of(input: &str) -> &'static str {
    normalize_project_relative_path(input, true).err().map(|e| e.code).unwrap_or("OK")
}

/// Runs a reconciliation the way the daemon does: decide which files to
/// read, read them (here: look them up), then plan.
fn reconcile(previous: &[IndexedFileSnapshot], current: &[(FileMeta, &str)], hints: &[&str], verify: bool) -> relay::indexing::IndexPlan {
    let hints: Vec<String> = hints.iter().map(|h| h.to_string()).collect();
    let normalized = validate_hints(&hints, true).ok().unwrap();
    let metadata: Vec<FileMeta> = current.iter().map(|(m, _)| meta(&m.relative_path, m.size_bytes, m.modified_unix_ns)).collect();
    let wanted = files_to_hash(previous, &metadata, &normalized, verify);
    let digests: Vec<Option<String>> = current
        .iter()
        .zip(wanted.iter())
        .map(|((_, sha), w)| if *w { Some(sha.to_string()) } else { None })
        .collect();
    reconcile_plan(previous, &metadata, &normalized, verify, &digests, 0, 0)
}

#[test]
fn project_relative_paths_are_normalized() {
    assert_eq!(normalize_project_relative_path("nested/b.txt", true).ok().unwrap(), "nested/b.txt");
    assert_eq!(normalize_project_relative_path("a/./b//c/", true).ok().unwrap(), "a/b/c");
    assert_eq!(normalize_project_relative_path("a\\b", true).ok().unwrap(), "a/b");
    assert_eq!(code_of("../outside.txt"), "PROJECT_PATH_ESCAPE");
    assert_eq!(code_of("a/../b"), "PROJECT_PATH_ESCAPE");
    assert_eq!(code_of("./a"), "PROJECT_PATH_ESCAPE");
    assert_eq!(code_of("C:\\x"), "PROJECT_PATH_INVALID");
    assert_eq!(code_of("//server/share/x"), "PROJECT_PATH_INVALID");
    assert_eq!(code_of("\\\\?\\C:\\x"), "PROJECT_PATH_INVALID");
    // A rooted path without a drive, and a drive-relative path, are not
    // absolute: their root or prefix is a non-normal piece.
    assert_eq!(code_of("/etc/passwd"), "PROJECT_PATH_ESCAPE");
    assert_eq!(code_of("\\x"), "PROJECT_PATH_ESCAPE");
    assert_eq!(code_of("C:x"), "PROJECT_PATH_ESCAPE");
    let empty = normalize_project_relative_path("", true).err().unwrap();
    assert_eq!(empty.code, "PROJECT_PATH_INVALID");
    assert_eq!(empty.message, "empty relative file path");
    assert_eq!(normalize_relative("/abs", true).err().unwrap().code, "PROJECT_PATH_ESCAPE");
}

#[test]
fn watcher_hints_are_sorted_unique_and_relative() {
    let hints = vec!["b.txt".to_string(), "a//x.txt".to_string(), "b.txt".to_string()];
    assert_eq!(validate_hints(&hints, true).ok().unwrap(), vec!["a/x.txt".to_string(), "b.txt".to_string()]);
    let error = validate_hints(&["../outside.txt".to_string()], true).err().unwrap();
    assert_eq!(error.code, "PROJECT_PATH_ESCAPE");
    let error = validate_hints(&["C:\\project\\a.txt".to_string()], true).err().unwrap();
    assert_eq!(error.code, "INDEX_HINT_INVALID");
    assert_eq!(error.message, "watcher hints must be project-relative paths");
}

#[test]
fn renames_pair_equal_digests_in_order() {
    let mut added = vec![("new-a".to_string(), "s1".to_string()), ("new-b".to_string(), "s1".to_string()), ("other".to_string(), "s9".to_string())];
    let mut deleted = vec![("old-a".to_string(), "s1".to_string()), ("gone".to_string(), "s2".to_string())];
    let renamed = match_renames(&mut added, &mut deleted);
    assert_eq!(renamed, vec![("old-a".to_string(), "new-a".to_string(), "s1".to_string())]);
    assert_eq!(added, vec![("new-b".to_string(), "s1".to_string()), ("other".to_string(), "s9".to_string())]);
    assert_eq!(deleted, vec![("gone".to_string(), "s2".to_string())]);
}

#[test]
fn file_uris_name_local_paths() {
    assert_eq!(file_uri_to_path("file:///home/p", false).ok().unwrap(), "/home/p");
    assert_eq!(file_uri_to_path("file:///C:/p/q", true).ok().unwrap(), "C:\\p\\q");
    assert_eq!(file_uri_to_path("/plain/path", false).ok().unwrap(), "/plain/path");
    assert_eq!(file_uri_to_path("file:///a%20b", false).err().unwrap().code, "PROJECT_PATH_INVALID");
    let unc = file_uri_to_path("file://server/share", false).err().unwrap();
    assert_eq!(unc.message, "UNC/authority file URIs are not supported by this slice");
    assert_eq!(project_root_path("   ", false).err().unwrap().message, "project root path is empty");
}

#[test]
fn baseline_records_every_file() {
    let metadata = vec![meta("a.txt", 5, 1), meta("nested/b.txt", 5, 1), meta("nested/c.src", 7, 1)];
    let plan = baseline_plan(&metadata, &["h1".to_string(), "h2".to_string(), "h3".to_string()], 2, 9);
    assert_eq!(plan.files.len(), 3);
    assert_eq!(plan.stats.files_hashed, 3);
    assert_eq!(plan.stats.total_bytes, 17);
    assert_eq!(plan.stats.symlinks_skipped, 2);
    assert_eq!(plan.touched_files.len(), 3);
    assert!(plan.changes.is_empty());
}

#[test]
fn one_file_change_hashes_only_the_touched_file() {
    let previous = vec![snap("a.txt", 5, 1, "h1"), snap("nested/b.txt", 5, 1, "h2"), snap("nested/c.src", 7, 1, "h3")];
    let current = vec![(meta("a.txt", 5, 1), "h1"), (meta("nested/b.txt", 24, 2), "h2x"), (meta("nested/c.src", 7, 1), "h3")];
    let plan = reconcile(&previous, &current, &["nested/b.txt"], false);
    assert_eq!(plan.stats.files_hashed, 1);
    assert_eq!(plan.stats.files_unchanged, 2);
    assert_eq!(plan.stats.hint_count, 1);
    assert_eq!(plan.stats.hint_hits, 1);
    assert_eq!(plan.changes.len(), 1);
    assert_eq!(plan.changes[0].change_kind, "modified");
    assert_eq!(plan.changes[0].relative_path, "nested/b.txt");
    assert_eq!(plan.changes[0].before_sha256.as_deref(), Some("h2"));
    assert_eq!(plan.changes[0].after_sha256.as_deref(), Some("h2x"));
    assert_eq!(plan.touched_files.len(), 1);
    assert_eq!(plan.stats.total_bytes, 36);
}

#[test]
fn unhinted_changes_are_recovered_and_unchanged_trees_read_nothing() {
    let previous = vec![snap("a.txt", 5, 1, "h1"), snap("b.txt", 5, 1, "h2")];
    let current = vec![(meta("a.txt", 29, 2), "h1x"), (meta("b.txt", 5, 1), "h2")];
    let plan = reconcile(&previous, &current, &[], false);
    assert_eq!(plan.stats.hint_count, 0);
    assert_eq!(plan.stats.files_hashed, 1);
    assert_eq!(plan.changes.len(), 1);
    assert_eq!(plan.changes[0].relative_path, "a.txt");

    let same = vec![(meta("a.txt", 5, 1), "h1"), (meta("b.txt", 5, 1), "h2")];
    let confirmed = reconcile(&previous, &same, &[], false);
    assert_eq!(confirmed.stats.files_hashed, 0);
    assert!(confirmed.changes.is_empty());
    let verified = reconcile(&previous, &same, &[], true);
    assert_eq!(verified.stats.files_hashed, 2);
    assert!(verified.changes.is_empty());
}

#[test]
fn rename_delete_and_add_are_explicit() {
    let previous = vec![snap("delete-me.txt", 14, 1, "hd"), snap("keep.txt", 4, 1, "hk"), snap("rename-me.txt", 12, 1, "hr")];
    let current = vec![(meta("added.txt", 11, 2), "ha"), (meta("keep.txt", 4, 1), "hk"), (meta("renamed.txt", 12, 2), "hr")];
    let plan = reconcile(&previous, &current, &[], false);
    let kinds: Vec<&str> = plan.changes.iter().map(|c| c.change_kind.as_str()).collect();
    assert_eq!(kinds, vec!["added", "deleted", "renamed"]);
    assert!(plan.changes.iter().any(|c| c.change_kind == "renamed"
        && c.previous_path.as_deref() == Some("rename-me.txt")
        && c.relative_path == "renamed.txt"
        && c.before_sha256 == c.after_sha256));
    assert_eq!(plan.stats.files_unchanged, 1);
    assert_eq!(plan.files.len(), 3);
}

#[test]
fn hinted_rename_source_counts_as_a_hit() {
    let previous = vec![snap("old.txt", 3, 1, "h")];
    let current = vec![(meta("new.txt", 3, 2), "h")];
    let plan = reconcile(&previous, &current, &["old.txt", "new.txt"], false);
    assert_eq!(plan.changes.len(), 1);
    assert_eq!(plan.stats.hint_hits, 2);
}

#[test]
fn hinted_update_is_provisional() {
    let previous = vec![snap("a.txt", 5, 1, "h1")];
    let plan = hint_plan(
        &previous,
        &["a.txt".to_string()],
        &[HintObservation::File { size_bytes: 24, modified_unix_ns: 2, content_sha256: "h1x".to_string() }],
        3,
        15,
        0,
    )
    .ok()
    .unwrap();
    assert_eq!(plan.stats.files_seen, 1);
    assert_eq!(plan.stats.files_hashed, 1);
    assert_eq!(plan.changes.len(), 1);
    assert_eq!(plan.changes[0].relative_path, "a.txt");
    assert_eq!(plan.file_count, 3);
    assert_eq!(plan.stats.total_bytes, 34);
}

#[test]
fn hinted_rename_requires_both_paths_and_directory_hint_fails() {
    let previous = vec![snap("old.txt", 12, 1, "same")];
    let hints = vec!["new.txt".to_string(), "old.txt".to_string()];
    let plan = hint_plan(
        &previous,
        &hints,
        &[
            HintObservation::File { size_bytes: 12, modified_unix_ns: 2, content_sha256: "same".to_string() },
            HintObservation::Missing,
        ],
        1,
        12,
        0,
    )
    .ok()
    .unwrap();
    assert_eq!(plan.changes.len(), 1);
    assert_eq!(plan.changes[0].change_kind, "renamed");
    assert_eq!(plan.file_count, 1);
    assert_eq!(plan.stats.total_bytes, 12);
    let error = hint_plan(&[], &["nested".to_string()], &[HintObservation::Directory], plan.file_count, plan.stats.total_bytes, 0)
        .err()
        .unwrap();
    assert_eq!(error.code, "INDEX_HINT_DIRECTORY");
}

#[test]
fn hint_updates_stop_at_the_first_refused_observation() {
    let hints = vec!["a".to_string(), "b".to_string(), "c".to_string()];
    let observations = vec![
        HintObservation::File { size_bytes: 3, modified_unix_ns: 1, content_sha256: "ha".to_string() },
        HintObservation::Directory,
    ];
    let error = hint_plan(&[], &hints, &observations, 0, 0, 0).err().unwrap();
    assert_eq!(error.code, "INDEX_HINT_DIRECTORY");
}

#[test]
fn hint_updates_refuse_empty_and_impossible_counts() {
    let empty = hint_plan(&[], &[], &[], 0, 0, 0).err().unwrap();
    assert_eq!(empty.code, "INDEX_HINT_INVALID");
    let underflow = hint_plan(&[snap("a", 1, 1, "h")], &["a".to_string()], &[HintObservation::Missing], 0, 1, 0).err().unwrap();
    assert_eq!(underflow.message, "file count underflow");
    let overflow = hint_plan(
        &[],
        &["a".to_string()],
        &[HintObservation::File { size_bytes: u64::MAX, modified_unix_ns: 0, content_sha256: "h".to_string() }],
        0,
        1,
        0,
    )
    .err()
    .unwrap();
    assert_eq!(overflow.message, "byte count overflow");
    let refused = hint_plan(&[], &["a".to_string()], &[HintObservation::Refused { code: "INDEX_HINT_INVALID", message: "hinted path crosses a symlink".to_string() }], 0, 0, 0)
        .err()
        .unwrap();
    assert_eq!(refused.message, "hinted path crosses a symlink");
    assert_eq!(hint_plan(&[], &["a".to_string()], &[HintObservation::NotRegular], 0, 0, 0).err().unwrap().message, "hinted path is not a regular file");
}

/// Applies a plan to a file table the way an incremental commit does:
/// delete the paths that the changes remove, then write in the touched files.
fn commit_table(
    previous: &[IndexedFileSnapshot],
    plan: &relay::indexing::IndexPlan,
) -> std::collections::BTreeMap<String, (u64, u64, String)> {
    let mut table: std::collections::BTreeMap<String, (u64, u64, String)> = previous
        .iter()
        .map(|s| (s.relative_path.clone(), (s.size_bytes, s.modified_unix_ns, s.content_sha256.clone())))
        .collect();
    for change in &plan.changes {
        if let Some(path) = relay::storage::removed_file(change) {
            table.remove(&path);
        }
    }
    for file in &plan.touched_files {
        table.insert(
            file.relative_path.clone(),
            (file.size_bytes, file.modified_unix_ns, file.content_sha256.clone()),
        );
    }
    table
}

#[test]
fn committed_reconciliation_matches_the_tree() {
    let previous = vec![
        snap("delete-me.txt", 14, 1, "hd"),
        snap("edit.txt", 5, 1, "he"),
        snap("keep.txt", 4, 1, "hk"),
        snap("rename-me.txt", 12, 1, "hr"),
    ];
    let current = vec![
        (meta("added.txt", 11, 2), "ha"),
        (meta("edit.txt", 6, 2), "he2"),
        (meta("keep.txt", 4, 1), "hk"),
        (meta("renamed.txt", 12, 2), "hr"),
    ];
    let plan = reconcile(&previous, &current, &[], false);
    let committed = commit_table(&previous, &plan);
    let expected: std::collections::BTreeMap<String, (u64, u64, String)> = vec![
        ("added.txt".to_string(), (11, 2, "ha".to_string())),
        ("edit.txt".to_string(), (6, 2, "he2".to_string())),
        ("keep.txt".to_string(), (4, 1, "hk".to_string())),
        ("renamed.txt".to_string(), (12, 2, "hr".to_string())),
    ]
    .into_iter()
    .collect();
    assert_eq!(committed, expected);
    let from_files: std::collections::BTreeMap<String, (u64, u64, String)> = plan
        .files
        .iter()
        .map(|s| (s.relative_path.clone(), (s.size_bytes, s.modified_unix_ns, s.content_sha256.clone())))
        .collect();
    assert_eq!(committed, from_files);
    assert_eq!(plan.touched_files.len(), 3);
}

#[test]
fn committed_hint_update_records_what_was_observed() {
    type Table = std::collections::BTreeMap<String, (u64, u64, String)>;
    let table: Table = vec![
        ("a.txt".to_string(), (5, 1, "ha".to_string())),
        ("b.txt".to_string(), (6, 1, "hb".to_string())),
        ("c.txt".to_string(), (7, 1, "hc".to_string())),
        ("z.txt".to_string(), (8, 1, "hz".to_string())),
    ]
    .into_iter()
    .collect();
    // The snapshots of the hinted paths, as the store hands them out.
    let previous = vec![snap("b.txt", 6, 1, "hb"), snap("c.txt", 7, 1, "hc"), snap("z.txt", 8, 1, "hz")];
    let hints = vec!["b.txt".to_string(), "c.txt".to_string(), "d.txt".to_string(), "e.txt".to_string(), "z.txt".to_string()];
    let observations = vec![
        HintObservation::File { size_bytes: 9, modified_unix_ns: 2, content_sha256: "hb2".to_string() },
        HintObservation::Missing,
        HintObservation::File { size_bytes: 7, modified_unix_ns: 3, content_sha256: "hc".to_string() },
        HintObservation::File { size_bytes: 4, modified_unix_ns: 3, content_sha256: "he".to_string() },
        HintObservation::Missing,
    ];
    let plan = hint_plan(&previous, &hints, &observations, 4, 26, 0).ok().unwrap();
    let mut committed = table.clone();
    for change in &plan.changes {
        if let Some(path) = relay::storage::removed_file(change) {
            committed.remove(&path);
        }
    }
    for file in &plan.touched_files {
        committed.insert(file.relative_path.clone(), (file.size_bytes, file.modified_unix_ns, file.content_sha256.clone()));
    }
    let expected: Table = vec![
        ("a.txt".to_string(), (5, 1, "ha".to_string())),
        ("b.txt".to_string(), (9, 2, "hb2".to_string())),
        ("d.txt".to_string(), (7, 3, "hc".to_string())),
        ("e.txt".to_string(), (4, 3, "he".to_string())),
    ]
    .into_iter()
    .collect();
    assert_eq!(committed, expected);
    let kinds: Vec<&str> = plan.changes.iter().map(|c| c.change_kind.as_str()).collect();
    assert_eq!(kinds, vec!["modified", "renamed", "added", "deleted"]);
    assert_eq!(plan.file_count, 4);
}

#[test]
fn normal_forms_are_stable_and_stay_below_the_root() {
    for input in ["a//b/./c", "a\\b\\c.txt", "dir/", "x/y/z", "C/d:e"] {
        let once = normalize_project_relative_path(input, true).ok().unwrap();
        let twice = normalize_project_relative_path(&once, true).ok().unwrap();
        assert_eq!(once, twice);
        assert!(!once.starts_with('/'));
        assert!(once.split('/').all(|piece| !piece.is_empty() && piece != "." && piece != ".."));
    }
    assert_eq!(normalize_project_relative_path("a//b/./c", true).ok().unwrap(), "a/b/c");
    assert_eq!(normalize_project_relative_path("a\\b\\c.txt", true).ok().unwrap(), "a/b/c.txt");
    assert_eq!(code_of("a/../b"), "PROJECT_PATH_ESCAPE");
    assert_eq!(code_of("C:/b"), "PROJECT_PATH_INVALID");
}

#[test]
fn other_hosts_read_only_slash_as_separator_and_a_leading_slash_as_root() {
    let unix = |input: &str| normalize_project_relative_path(input, false).err().map(|e| e.code).unwrap_or("OK");
    assert_eq!(unix("/a.txt"), "PROJECT_PATH_INVALID");
    assert_eq!(unix("/etc/passwd"), "PROJECT_PATH_INVALID");
    assert_eq!(normalize_project_relative_path("a\\b", false).ok().unwrap(), "a\\b");
    assert_eq!(normalize_project_relative_path("C:x", false).ok().unwrap(), "C:x");
    assert_eq!(normalize_project_relative_path("a//./b/", false).ok().unwrap(), "a/b");
    assert_eq!(unix("../x"), "PROJECT_PATH_ESCAPE");
    assert_eq!(unix("./x"), "PROJECT_PATH_ESCAPE");
    assert_eq!(normalize_relative("/abs", false).err().unwrap().code, "PROJECT_PATH_ESCAPE");
    let error = validate_hints(&["/r/a.txt".to_string()], false).err().unwrap();
    assert_eq!(error.code, "INDEX_HINT_INVALID");
    let error = validate_hints(&["../outside.txt".to_string()], false).err().unwrap();
    assert_eq!(error.code, "PROJECT_PATH_ESCAPE");
    let hints = vec!["b.txt".to_string(), "a//x.txt".to_string()];
    assert_eq!(validate_hints(&hints, false).ok().unwrap(), vec!["a/x.txt".to_string(), "b.txt".to_string()]);
}

#[test]
fn found_files_are_ordered_by_path_keeping_the_first_of_each() {
    let found = vec![meta("b.txt", 2, 1), meta("a/x.txt", 1, 1), meta("b.txt", 9, 9), meta("a.txt", 3, 1)];
    let ordered = order_metadata(&found);
    let paths: Vec<&str> = ordered.iter().map(|m| m.relative_path.as_str()).collect();
    assert_eq!(paths, vec!["a.txt", "a/x.txt", "b.txt"]);
    assert_eq!(ordered[2].size_bytes, 2);
    assert!(order_metadata(&[]).is_empty());
}

#[test]
fn a_second_reconciliation_of_an_unchanged_tree_finds_nothing() {
    let previous = vec![snap("a.txt", 5, 1, "h1"), snap("old.txt", 4, 1, "h0")];
    let current = vec![(meta("a.txt", 6, 2), "h1x"), (meta("new.txt", 4, 1), "h0"), (meta("z.txt", 1, 1), "hz")];
    let first = reconcile(&previous, &current, &["a.txt"], false);
    assert!(!first.changes.is_empty());
    let again = reconcile(&first.files, &current, &[], false);
    assert!(again.changes.is_empty());
    assert_eq!(again.stats.files_hashed, 0);
    let rows = |files: &[IndexedFileSnapshot]| -> Vec<(String, u64, u64, String)> {
        files.iter().map(|f| (f.relative_path.clone(), f.size_bytes, f.modified_unix_ns, f.content_sha256.clone())).collect()
    };
    assert_eq!(rows(&again.files), rows(&first.files));
    let verified = reconcile(&first.files, &current, &[], true);
    assert!(verified.changes.is_empty());
    assert_eq!(verified.stats.files_hashed, 3);
}
