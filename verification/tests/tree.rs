use include_dir::{Cow, CowBytes, Dir, DirEntry, ExtractAction, File, Metadata};
use include_dir::dir::join_path;

fn sample_tree() -> Dir<'static> {
    Dir::new(
        "",
        vec![DirEntry::Dir(Dir::new(
            "a",
            vec![DirEntry::File(File::new("a/b.txt", b"hello"))],
        ))],
    )
}

#[test]
fn test_partial_eq() {
    assert_eq!(Cow::Owned("foo".into()), Cow::Borrowed("foo"));
}

#[test]
fn cow_bytes_eq_across_modes() {
    assert_eq!(
        CowBytes::Owned(vec![1u8, 2, 3]),
        CowBytes::Borrowed(&[1u8, 2, 3])
    );
    assert!(CowBytes::Owned(vec![1u8, 2]) != CowBytes::Borrowed(&[1u8, 2, 3]));
}

#[test]
fn cow_clone_preserves_value() {
    let owned = Cow::Owned(String::from("abc"));
    assert_eq!(owned.clone(), Cow::Borrowed("abc"));
    let borrowed = Cow::Borrowed("xyz");
    assert_eq!(borrowed.clone(), borrowed);
}

#[test]
fn lookup_round_trip() {
    let tree = sample_tree();
    let entry = tree.get_entry("a/b.txt").expect("entry should be found");
    assert_eq!(entry.path(), "a/b.txt");
    let again = tree.get_entry(entry.path()).expect("round trip");
    assert_eq!(again.path(), "a/b.txt");
    assert!(again.as_file().is_some());
}

#[test]
fn scenario_get_file_and_contains() {
    let tree = sample_tree();
    let file = tree.get_file("a/b.txt").expect("file should be found");
    assert_eq!(file.contents(), b"hello");
    assert!(tree.contains("a"));
    assert!(!tree.contains("a/c.txt"));
}

#[test]
fn get_dir_filters_variant() {
    let tree = sample_tree();
    assert!(tree.get_dir("a").is_some());
    assert!(tree.get_dir("a/b.txt").is_none());
    assert!(tree.get_file("a").is_none());
}

#[test]
fn files_and_dirs_are_ordered_direct_children() {
    let d = Dir::new(
        "",
        vec![
            DirEntry::File(File::new("x.txt", b"x")),
            DirEntry::Dir(Dir::new("sub", vec![])),
            DirEntry::File(File::new("y.txt", b"y")),
        ],
    );
    let files = d.files();
    assert_eq!(files.len(), 2);
    assert_eq!(files[0].path(), "x.txt");
    assert_eq!(files[1].path(), "y.txt");
    let dirs = d.dirs();
    assert_eq!(dirs.len(), 1);
    assert_eq!(dirs[0].path(), "sub");
}

#[test]
fn children_empty_only_for_files_and_empty_dirs() {
    let file_entry = DirEntry::File(File::new("f", b"1"));
    assert!(file_entry.children().is_empty());
    let dir_entry = DirEntry::Dir(Dir::new(
        "d",
        vec![DirEntry::File(File::new("d/f", b"1"))],
    ));
    assert_eq!(dir_entry.children().len(), 1);
    let empty_dir_entry = DirEntry::Dir(Dir::new("e", vec![]));
    assert!(empty_dir_entry.children().is_empty());
}

#[test]
fn scenario_find_glob() {
    let tree = sample_tree();
    let mut globs = tree.find("a/*.txt").expect("pattern is well-formed");
    let mut found = Vec::new();
    while let Some(entry) = globs.next() {
        found.push(entry.path().to_string());
    }
    assert_eq!(found, vec!["a/b.txt".to_string()]);
}

#[test]
fn find_visits_every_entry_once() {
    let tree = sample_tree();
    let mut globs = tree.find("**").expect("pattern is well-formed");
    let mut found = Vec::new();
    while let Some(entry) = globs.next() {
        found.push(entry.path().to_string());
    }
    found.sort();
    assert_eq!(found, vec!["a".to_string(), "a/b.txt".to_string()]);
}

#[test]
fn find_pops_later_siblings_first() {
    let d = Dir::new(
        "",
        vec![
            DirEntry::File(File::new("x.txt", b"x")),
            DirEntry::File(File::new("y.txt", b"y")),
        ],
    );
    let mut globs = d.find("*.txt").expect("pattern is well-formed");
    let mut found = Vec::new();
    while let Some(entry) = globs.next() {
        found.push(entry.path().to_string());
    }
    assert_eq!(found, vec!["y.txt".to_string(), "x.txt".to_string()]);
}

#[test]
fn scenario_bad_pattern_fails_before_traversal() {
    let tree = sample_tree();
    let result = tree.find("[invalid");
    assert!(result.is_err());
}

#[test]
fn scenario_extract_plan() {
    let tree = sample_tree();
    let plan = tree.extract_plan("/tmp/out");
    assert_eq!(plan.len(), 2);
    match &plan[0] {
        ExtractAction::CreateDir { path } => assert_eq!(path, "/tmp/out/a"),
        other => panic!("expected a directory first, got {:?}", other),
    }
    match &plan[1] {
        ExtractAction::WriteFile { path, contents } => {
            assert_eq!(path, "/tmp/out/a/b.txt");
            assert_eq!(contents, b"hello");
        },
        other => panic!("expected the file second, got {:?}", other),
    }
}

#[test]
fn extract_plan_keeps_sibling_order() {
    let d = Dir::new(
        "",
        vec![
            DirEntry::File(File::new("x.txt", b"x")),
            DirEntry::Dir(Dir::new(
                "sub",
                vec![DirEntry::File(File::new("sub/z.txt", b"z"))],
            )),
            DirEntry::File(File::new("y.txt", b"y")),
        ],
    );
    let plan = d.extract_plan("base");
    let paths: Vec<&str> = plan
        .iter()
        .map(|a| match a {
            ExtractAction::CreateDir { path } => path.as_str(),
            ExtractAction::WriteFile { path, .. } => path.as_str(),
        })
        .collect();
    assert_eq!(
        paths,
        vec!["base/x.txt", "base/sub", "base/sub/z.txt", "base/y.txt"]
    );
}

#[test]
fn join_path_inserts_separator() {
    assert_eq!(join_path("/tmp/out", "a"), "/tmp/out/a");
    assert_eq!(join_path("", "name"), "/name");
}

#[test]
fn scenario_contents_utf8() {
    let bad = File::new("bad", &[0xFF, 0xFE]);
    assert!(bad.contents_utf8().is_none());
    let good = File::new("good", b"ok");
    assert_eq!(good.contents_utf8(), Some("ok"));
}

#[test]
fn metadata_round_trip() {
    let file = File::new("f", b"1");
    assert!(file.metadata().is_none());
    let stamped = file.with_metadata(Metadata::new(Some(1), None, 99));
    let md = stamped.metadata().expect("metadata was attached");
    assert_eq!(md.accessed, Some(1));
    assert_eq!(md.created, None);
    assert_eq!(md.modified, 99);
    assert_eq!(stamped.contents(), b"1");
    assert_eq!(stamped.path(), "f");
}

#[test]
fn owned_constructors_match_borrowed() {
    let owned = Dir::new_owned(
        String::from("d"),
        vec![DirEntry::File(File::new_owned(
            String::from("d/f"),
            vec![7u8, 8],
        ))],
    );
    assert_eq!(owned.path(), "d");
    let f = owned.get_file("d/f").expect("owned file should be found");
    assert_eq!(f.contents(), &[7u8, 8]);
}

#[test]
fn entries_exposes_direct_children() {
    let tree = sample_tree();
    let entries = tree.entries();
    assert_eq!(entries.len(), 1);
    assert_eq!(entries[0].path(), "a");
    assert!(entries[0].as_dir().is_some());
    assert!(entries[0].as_file().is_none());
}
