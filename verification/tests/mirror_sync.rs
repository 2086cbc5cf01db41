use syncrab::mirror::{
    copy_with_name, orphan_names, should_copy, sync_tree, FsEntry, FsTree, SyncOutcome,
};

fn file(mtime: u64, size: u64) -> FsTree {
    FsTree::File { mtime, size }
}

fn dir(entries: Vec<(&str, FsTree)>) -> FsTree {
    FsTree::Dir {
        entries: entries
            .into_iter()
            .map(|(name, tree)| FsEntry { name: name.to_string(), tree })
            .collect(),
    }
}

fn entry_names(t: &FsTree) -> Vec<String> {
    match t {
        FsTree::Dir { entries } => entries.iter().map(|e| e.name.clone()).collect(),
        _ => panic!("expected a directory"),
    }
}

fn entry<'a>(t: &'a FsTree, name: &str) -> &'a FsTree {
    match t {
        FsTree::Dir { entries } => {
            &entries.iter().find(|e| e.name == name).expect("entry present").tree
        }
        _ => panic!("expected a directory"),
    }
}

fn file_meta(t: &FsTree) -> (u64, u64) {
    match t {
        FsTree::File { mtime, size } => (*mtime, *size),
        _ => panic!("expected a file"),
    }
}

#[test]
fn mirror_mode_removes_the_orphan_and_copies_the_file() {
    let source = dir(vec![("a.txt", file(10, 3))]);
    let target = dir(vec![("a.txt", file(5, 4)), ("b.txt", file(5, 1))]);
    let out: SyncOutcome = sync_tree(&source, Some(&target), true);
    let result = out.tree.expect("target exists after sync");
    assert_eq!(entry_names(&result), vec!["a.txt"]);
    assert_eq!(file_meta(entry(&result, "a.txt")), (10, 3));
    assert_eq!(out.copies, 1);
    assert_eq!(out.failures, 0);
}

#[test]
fn non_mirror_mode_keeps_the_orphan_untouched() {
    let source = dir(vec![("a.txt", file(10, 3))]);
    let target = dir(vec![("a.txt", file(5, 4)), ("b.txt", file(5, 1))]);
    let out = sync_tree(&source, Some(&target), false);
    let result = out.tree.expect("target exists after sync");
    let mut names = entry_names(&result);
    names.sort();
    assert_eq!(names, vec!["a.txt", "b.txt"]);
    assert_eq!(file_meta(entry(&result, "a.txt")), (10, 3));
    assert_eq!(file_meta(entry(&result, "b.txt")), (5, 1));
    assert_eq!(out.copies, 1);
}

#[test]
fn second_sync_performs_zero_copies() {
    let source = dir(vec![
        ("a.txt", file(10, 3)),
        ("sub", dir(vec![("c.txt", file(9, 7))])),
    ]);
    let target = dir(vec![("b.txt", file(5, 1))]);
    let first = sync_tree(&source, Some(&target), false);
    assert_eq!(first.copies, 2);
    let settled = first.tree.expect("target exists after sync");
    let second = sync_tree(&source, Some(&settled), false);
    assert_eq!(second.copies, 0);
}

#[test]
fn second_sync_performs_zero_copies_in_mirror_mode_too() {
    let source = dir(vec![("a.txt", file(10, 3))]);
    let target = dir(vec![("a.txt", file(5, 4)), ("b.txt", file(5, 1))]);
    let first = sync_tree(&source, Some(&target), true);
    let settled = first.tree.expect("target exists after sync");
    let second = sync_tree(&source, Some(&settled), true);
    assert_eq!(second.copies, 0);
}

#[test]
fn missing_target_is_created_from_scratch() {
    let source = dir(vec![("a.txt", file(1, 1))]);
    let out = sync_tree(&source, None, false);
    let result = out.tree.expect("created");
    assert_eq!(entry_names(&result), vec!["a.txt"]);
    assert_eq!(out.copies, 1);
}

#[test]
fn unsupported_source_kind_fails_and_siblings_continue() {
    let source = dir(vec![("link", FsTree::Other), ("a.txt", file(3, 3))]);
    let out = sync_tree(&source, None, false);
    assert_eq!(out.failures, 1);
    assert_eq!(out.copies, 1);
    let result = out.tree.expect("directory created");
    assert_eq!(entry_names(&result), vec!["a.txt"]);
}

#[test]
fn up_to_date_file_is_not_copied_again() {
    let source = file(10, 3);
    let target = file(10, 3);
    let out = sync_tree(&source, Some(&target), false);
    assert_eq!(out.copies, 0);
    let newer_target = file(11, 3);
    let out = sync_tree(&source, Some(&newer_target), false);
    assert_eq!(out.copies, 0);
}

#[test]
fn empty_source_dir_mirrors_the_target_empty() {
    let source = dir(vec![]);
    let target = dir(vec![("stale.txt", file(1, 1))]);
    let out = sync_tree(&source, Some(&target), true);
    let result = out.tree.expect("target exists after sync");
    assert!(entry_names(&result).is_empty());
    assert_eq!(out.copies, 0);
    assert_eq!(out.failures, 0);
}

#[test]
fn should_copy_heuristic_on_metadata() {
    assert!(should_copy(false, 1, 1, 0, 0));
    assert!(should_copy(true, 10, 3, 5, 3));
    assert!(should_copy(true, 5, 3, 5, 4));
    assert!(!should_copy(true, 5, 3, 5, 3));
    assert!(!should_copy(true, 5, 3, 10, 3));
}

#[test]
fn orphans_are_the_target_names_missing_from_the_source() {
    let source = vec!["a.txt".to_string(), "sub".to_string()];
    let target = vec![
        "b.txt".to_string(),
        "a.txt".to_string(),
        "old".to_string(),
    ];
    let orphans = orphan_names(&source, &target);
    assert_eq!(orphans, vec!["b.txt", "old"]);
}

#[test]
fn copy_with_name_joins_the_source_file_name_onto_the_target() {
    assert_eq!(
        copy_with_name("/data/photos", "/backup").unwrap(),
        "/backup/photos"
    );
    assert_eq!(copy_with_name("notes.txt", "/backup").unwrap(), "/backup/notes.txt");
}

#[test]
fn copy_with_name_ignores_trailing_separators_and_dot_components() {
    assert_eq!(
        copy_with_name("/data/photos/", "/backup").unwrap(),
        "/backup/photos"
    );
    assert_eq!(
        copy_with_name("/data/photos//", "/backup").unwrap(),
        "/backup/photos"
    );
    assert_eq!(
        copy_with_name("/data/photos/.", "/backup").unwrap(),
        "/backup/photos"
    );
}

#[test]
fn copy_with_name_refuses_a_source_without_a_file_name() {
    let err = copy_with_name("/", "/backup").unwrap_err();
    assert_eq!(err, "Source path [/] has no file name");
    assert!(copy_with_name("", "/backup").is_err());
    assert!(copy_with_name(".", "/backup").is_err());
    assert!(copy_with_name("/data/..", "/backup").is_err());
    assert!(copy_with_name("..", "/backup").is_err());
}
