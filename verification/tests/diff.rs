use home_mangler::content::file_contents_same;
use home_mangler::content::ContentHash;
use home_mangler::diff_trees::compare;
use home_mangler::diff_trees::diff;
use home_mangler::diff_trees::diff_trees;
use home_mangler::diff_trees::display_diff;
use home_mangler::diff_trees::display_plain;
use home_mangler::diff_trees::is_covered;
use home_mangler::diff_trees::walk_trees;
use home_mangler::diff_trees::Diff;
use home_mangler::diff_trees::DiffEntry;
use home_mangler::diff_trees::DiffKind;
use home_mangler::path::RelativePath;
use home_mangler::path_map::PathMap;
use home_mangler::error::DiffError;
use home_mangler::state::classify;
use home_mangler::state::Found;
use home_mangler::state::Identity;
use home_mangler::state::PathInfo;
use home_mangler::state::PathState;
use home_mangler::symlink::read_symlink;
use home_mangler::symlink::Link;
use home_mangler::symlink::SymlinkChain;
use home_mangler::tree::merge;
use home_mangler::tree::record;
use home_mangler::tree::walk_roots;
use home_mangler::tree::Tree;
use home_mangler::tree::Walked;

fn path(text: &str) -> RelativePath {
    RelativePath::parse(text).unwrap()
}

fn file(root: &str, bytes: &[u8]) -> PathInfo {
    PathInfo::new(
        root.to_string(),
        None,
        PathState::File {
            hash: ContentHash::of_bytes(bytes),
        },
    )
}

fn file_at(root: &str, dev: u64, ino: u64, bytes: &[u8]) -> PathInfo {
    PathInfo::new(
        root.to_string(),
        Some(Identity { dev, ino }),
        PathState::File {
            hash: ContentHash::of_bytes(bytes),
        },
    )
}

fn dir(root: &str) -> PathInfo {
    PathInfo::new(root.to_string(), None, PathState::Directory)
}

fn link(root: &str, hops: &[&str], to: &str, bytes: Option<&[u8]>) -> PathInfo {
    PathInfo::new(
        root.to_string(),
        None,
        PathState::Symlink {
            chain: SymlinkChain::new(
                hops.iter().map(|hop| hop.to_string()).collect(),
                to.to_string(),
            )
            .unwrap(),
            hash: bytes.map(ContentHash::of_bytes),
        },
    )
}

fn tree(entries: Vec<(&str, PathInfo)>) -> Tree {
    let mut tree: Tree = PathMap::new();
    for (text, info) in entries {
        tree = tree.insert(path(text), info);
    }
    tree
}

fn kinds(diff: &Diff) -> Vec<(String, DiffKind)> {
    let mut out = Vec::new();
    let mut i = 0;
    while let Some((path, entry)) = diff.entry(i) {
        out.push((path.text(), entry.kind()));
        i += 1;
    }
    out
}

#[test]
fn identical_single_file_roots_report_nothing() {
    let removed = tree(vec![("a.txt", file("/old", b"same bytes"))]);
    let added = tree(vec![("a.txt", file("/new", b"same bytes"))]);
    let diff = walk_trees(&removed, &added);
    assert_eq!(kinds(&diff), vec![("a.txt".to_string(), DiffKind::Same)]);
    assert_eq!(display_plain(&diff), "");
}

#[test]
fn extra_file_on_the_added_side_is_added() {
    let removed = tree(vec![("a.txt", file("/old", b"x"))]);
    let added = tree(vec![
        ("a.txt", file("/new", b"x")),
        ("b.txt", file("/new", b"y")),
    ]);
    let diff = walk_trees(&removed, &added);
    assert_eq!(
        kinds(&diff),
        vec![
            ("a.txt".to_string(), DiffKind::Same),
            ("b.txt".to_string(), DiffKind::Added),
        ]
    );
    assert_eq!(display_plain(&diff), "+ b.txt");
}

#[test]
fn extra_file_on_the_removed_side_is_removed() {
    let removed = tree(vec![
        ("a.txt", file("/old", b"x")),
        ("b.txt", file("/old", b"y")),
    ]);
    let added = tree(vec![("a.txt", file("/new", b"x"))]);
    let diff = walk_trees(&removed, &added);
    assert_eq!(
        kinds(&diff),
        vec![
            ("a.txt".to_string(), DiffKind::Same),
            ("b.txt".to_string(), DiffKind::Removed),
        ]
    );
    assert_eq!(display_plain(&diff), "- b.txt");
}

#[test]
fn same_length_different_bytes_is_changed() {
    assert_eq!(
        compare(&file("/old", b"abc"), &file("/new", b"abd")),
        DiffKind::Changed
    );
}

#[test]
fn same_bytes_with_different_identities_is_same() {
    assert_eq!(
        compare(&file_at("/old", 1, 10, b"abc"), &file_at("/new", 1, 11, b"abc")),
        DiffKind::Same
    );
    assert_eq!(
        compare(&file_at("/old", 1, 10, b"abc"), &file("/new", b"abc")),
        DiffKind::Same
    );
}

#[test]
fn different_lengths_are_changed() {
    assert_eq!(
        compare(&file("/old", b"abc"), &file("/new", b"abcd")),
        DiffKind::Changed
    );
}

#[test]
fn one_object_is_same_without_a_look_at_the_content() {
    assert_eq!(
        compare(&file_at("/old", 7, 42, b"abc"), &file_at("/new", 7, 42, b"xyz")),
        DiffKind::Same
    );
}

#[test]
fn same_inode_on_another_device_is_another_object() {
    assert_eq!(
        compare(&file_at("/old", 7, 42, b"abc"), &file_at("/new", 8, 42, b"xyz")),
        DiffKind::Changed
    );
}

#[test]
fn a_directory_on_either_side_is_a_change() {
    assert_eq!(compare(&dir("/old"), &file("/new", b"")), DiffKind::Changed);
    assert_eq!(compare(&file("/old", b""), &dir("/new")), DiffKind::Changed);
    assert_eq!(compare(&dir("/old"), &dir("/new")), DiffKind::Changed);
}

#[test]
fn links_to_the_same_content_are_same_whatever_their_chains() {
    let old = link("/old", &["/s/one"], "/s/target-1", Some(b"content"));
    let new = link("/new", &["/s/two", "/s/three"], "/s/target-2", Some(b"content"));
    assert_eq!(compare(&old, &new), DiffKind::Same);
}

#[test]
fn links_to_different_content_are_changed() {
    let old = link("/old", &[], "/s/target", Some(b"content"));
    let new = link("/new", &[], "/s/target", Some(b"CONTENT"));
    assert_eq!(compare(&old, &new), DiffKind::Changed);
}

#[test]
fn a_link_and_a_file_with_the_same_content_are_same() {
    let old = link("/old", &[], "/s/target", Some(b"content"));
    assert_eq!(compare(&old, &file("/new", b"content")), DiffKind::Same);
}

#[test]
fn links_to_no_file_are_compared_by_their_chains() {
    let old = link("/old", &["/s/hop"], "/s/dir", None);
    let same = link("/new", &["/s/hop"], "/s/dir", None);
    let other = link("/new", &["/s/hop"], "/s/elsewhere", None);
    let longer = link("/new", &["/s/hop", "/s/hop2"], "/s/dir", None);
    assert_eq!(compare(&old, &same), DiffKind::Same);
    assert_eq!(compare(&old, &other), DiffKind::Changed);
    assert_eq!(compare(&old, &longer), DiffKind::Changed);
}

#[test]
fn a_link_to_no_file_and_a_link_to_a_file_are_changed() {
    let old = link("/old", &[], "/s/dir", None);
    let new = link("/new", &[], "/s/dir", Some(b""));
    assert_eq!(compare(&old, &new), DiffKind::Changed);
    assert_eq!(compare(&old, &file("/new", b"")), DiffKind::Changed);
}

#[test]
fn changed_file_in_a_directory_is_the_only_line() {
    let removed = tree(vec![
        ("a.txt", file("/old", b"x")),
        ("dir", dir("/old")),
        ("dir/b.txt", file("/old", b"y")),
    ]);
    let added = tree(vec![
        ("a.txt", file("/new", b"x")),
        ("dir", dir("/new")),
        ("dir/b.txt", file("/new", b"z")),
    ]);
    let diff = walk_trees(&removed, &added);
    assert_eq!(
        kinds(&diff),
        vec![
            ("a.txt".to_string(), DiffKind::Same),
            ("dir".to_string(), DiffKind::Changed),
            ("dir/b.txt".to_string(), DiffKind::Changed),
        ]
    );
    assert_eq!(display_plain(&diff), "~ dir/b.txt");
}

#[test]
fn same_content_under_another_name_is_no_rename() {
    let removed = tree(vec![("old.txt", file("/old", b"1"))]);
    let added = tree(vec![("new.txt", file("/new", b"1"))]);
    let diff = walk_trees(&removed, &added);
    assert_eq!(
        kinds(&diff),
        vec![
            ("new.txt".to_string(), DiffKind::Added),
            ("old.txt".to_string(), DiffKind::Removed),
        ]
    );
    let report = display_plain(&diff);
    assert_eq!(report, "+ new.txt\n- old.txt");
    assert!(report.contains("- old.txt"));
    assert!(report.contains("+ new.txt"));
}

#[test]
fn removed_directory_is_one_line_however_much_lay_below() {
    let removed = tree(vec![
        ("keep.txt", file("/old", b"k")),
        ("sub", dir("/old")),
        ("sub/a", file("/old", b"1")),
        ("sub/b", file("/old", b"2")),
        ("sub/deep", dir("/old")),
        ("sub/deep/c", file("/old", b"3")),
    ]);
    let added = tree(vec![("keep.txt", file("/new", b"k"))]);
    let diff = walk_trees(&removed, &added);
    assert_eq!(
        kinds(&diff),
        vec![
            ("keep.txt".to_string(), DiffKind::Same),
            ("sub".to_string(), DiffKind::Removed),
        ]
    );
    assert_eq!(display_plain(&diff), "- sub");
}

#[test]
fn added_directory_is_one_line_however_much_lies_below() {
    let removed = tree(vec![("keep.txt", file("/old", b"k"))]);
    let added = tree(vec![
        ("keep.txt", file("/new", b"k")),
        ("sub", dir("/new")),
        ("sub/a", file("/new", b"1")),
        ("sub/deep", dir("/new")),
        ("sub/deep/c", file("/new", b"3")),
    ]);
    let diff = walk_trees(&removed, &added);
    assert_eq!(
        kinds(&diff),
        vec![
            ("keep.txt".to_string(), DiffKind::Same),
            ("sub".to_string(), DiffKind::Added),
        ]
    );
    assert_eq!(display_plain(&diff), "+ sub");
}

#[test]
fn covering_is_by_components_not_by_characters() {
    let removed = tree(vec![("sub", dir("/old")), ("sub/a", file("/old", b"1"))]);
    let added = tree(vec![("subway", file("/new", b"2"))]);
    assert!(is_covered(&removed, &added, &path("sub/a")));
    assert!(!is_covered(&removed, &added, &path("subway")));
    assert!(!is_covered(&removed, &added, &path("sub")));
    let diff = walk_trees(&removed, &added);
    assert_eq!(display_plain(&diff), "- sub\n+ subway");
}

#[test]
fn what_lies_below_a_removed_path_is_left_out_whatever_the_path_is() {
    let removed = tree(vec![("x", file("/old", b"1")), ("x/y", file("/old", b"2"))]);
    let added = tree(vec![]);
    let diff = walk_trees(&removed, &added);
    assert_eq!(kinds(&diff), vec![("x".to_string(), DiffKind::Removed)]);
    assert_eq!(display_plain(&diff), "- x");
}

#[test]
fn a_removed_link_to_a_directory_is_one_line() {
    let removed = tree(vec![
        ("keep", file("/old", b"k")),
        ("l", link("/old", &[], "/elsewhere/dir", None)),
        ("l/a", file("/old", b"1")),
        ("l/sub", dir("/old")),
        ("l/sub/b", file("/old", b"2")),
    ]);
    let added = tree(vec![("keep", file("/new", b"k"))]);
    let diff = walk_trees(&removed, &added);
    assert_eq!(
        kinds(&diff),
        vec![
            ("keep".to_string(), DiffKind::Same),
            ("l".to_string(), DiffKind::Removed),
        ]
    );
    assert_eq!(display_plain(&diff), "- l");
}

#[test]
fn an_added_link_to_a_directory_is_one_line() {
    let removed = tree(vec![]);
    let added = tree(vec![
        ("l", link("/new", &[], "/elsewhere/dir", None)),
        ("l/a", file("/new", b"1")),
    ]);
    let diff = walk_trees(&removed, &added);
    assert_eq!(kinds(&diff), vec![("l".to_string(), DiffKind::Added)]);
    assert_eq!(display_plain(&diff), "+ l");
}

#[test]
fn no_recorded_path_lies_below_one_that_came_or_went() {
    let removed = tree(vec![
        ("a", dir("/old")),
        ("a/b", dir("/old")),
        ("a/b/c", file("/old", b"1")),
        ("a/k", file("/old", b"2")),
        ("z", file("/old", b"3")),
    ]);
    let added = tree(vec![
        ("a", dir("/new")),
        ("a/k", file("/new", b"2")),
        ("a/n", dir("/new")),
        ("a/n/m", file("/new", b"4")),
        ("z", file("/new", b"3")),
    ]);
    let diff = walk_trees(&removed, &added);
    let recorded = kinds(&diff);
    for (above, kind) in &recorded {
        if *kind == DiffKind::Removed || *kind == DiffKind::Added {
            for (below, _) in &recorded {
                assert!(!path(above).is_ancestor_of(&path(below)));
            }
        }
    }
    assert_eq!(display_plain(&diff), "- a/b\n+ a/n");
}

#[test]
fn an_empty_diff_has_an_empty_report() {
    let nothing: Diff = PathMap::new();
    assert_eq!(display_plain(&nothing), "");
    assert_eq!(display_diff(&nothing), "");
}

#[test]
fn the_first_root_that_provides_a_path_wins() {
    let mut removed: Tree = PathMap::new();
    removed = removed.insert(path("a"), file("/first", b"1"));
    removed = removed.insert(path("a"), file("/second", b"2"));
    removed = removed.insert(path("b"), file("/second", b"3"));
    assert_eq!(removed.len(), 2);
    assert_eq!(removed.get(&path("a")).unwrap().root, "/first");
    assert_eq!(removed.get(&path("b")).unwrap().root, "/second");
    let added = tree(vec![("a", file("/new", b"1")), ("b", file("/new", b"3"))]);
    assert_eq!(display_plain(&walk_trees(&removed, &added)), "");
}

#[test]
fn entries_come_in_the_order_of_their_paths() {
    let added = tree(vec![
        ("b", file("/new", b"")),
        ("a.b", file("/new", b"")),
        ("a", dir("/new")),
        ("a/b", file("/new", b"")),
        ("B", file("/new", b"")),
    ]);
    let removed = tree(vec![("a", dir("/old"))]);
    let diff = walk_trees(&removed, &added);
    assert_eq!(
        kinds(&diff),
        vec![
            ("B".to_string(), DiffKind::Added),
            ("a".to_string(), DiffKind::Changed),
            ("a/b".to_string(), DiffKind::Added),
            ("a.b".to_string(), DiffKind::Added),
            ("b".to_string(), DiffKind::Added),
        ]
    );
    assert_eq!(display_plain(&diff), "+ B\n+ a/b\n+ a.b\n+ b");
}

#[test]
fn entries_carry_what_was_and_what_is() {
    let removed = tree(vec![("a", file("/old", b"1")), ("gone", file("/old", b"2"))]);
    let added = tree(vec![("a", file("/new", b"9")), ("come", file("/new", b"3"))]);
    let diff = walk_trees(&removed, &added);
    match diff.get(&path("a")).unwrap() {
        DiffEntry::Changed(old, new) => {
            assert_eq!(old.root, "/old");
            assert_eq!(new.root, "/new");
        }
        other => panic!("unexpected entry {:?}", other),
    }
    match diff.get(&path("gone")).unwrap() {
        DiffEntry::Removed(old) => assert_eq!(old.root, "/old"),
        other => panic!("unexpected entry {:?}", other),
    }
    match diff.get(&path("come")).unwrap() {
        DiffEntry::Added(new) => assert_eq!(new.root, "/new"),
        other => panic!("unexpected entry {:?}", other),
    }
    assert!(diff.get(&path("nothing")).is_none());
}

#[test]
fn the_report_suppresses_what_lies_below_a_covering_line() {
    let mut diff: Diff = PathMap::new();
    diff = diff.insert(path("d"), DiffEntry::Added(dir("/new")));
    diff = diff.insert(path("d/x"), DiffEntry::Added(file("/new", b"1")));
    diff = diff.insert(path("d/y/z"), DiffEntry::Removed(file("/old", b"1")));
    diff = diff.insert(path("e"), DiffEntry::Added(file("/new", b"1")));
    diff = diff.insert(path("e/x"), DiffEntry::Changed(file("/old", b"1"), file("/new", b"2")));
    diff = diff.insert(path("f"), DiffEntry::Changed(dir("/old"), dir("/new")));
    diff = diff.insert(path("f/x"), DiffEntry::Same);
    diff = diff.insert(path("g"), DiffEntry::Changed(dir("/old"), file("/new", b"2")));
    assert_eq!(display_plain(&diff), "+ d\n+ e\n~ g");
}

#[test]
fn colours_are_set_where_the_output_takes_them() {
    let removed = tree(vec![("a", file("/old", b"1")), ("gone", file("/old", b"2"))]);
    let added = tree(vec![("a", file("/new", b"9")), ("come", file("/new", b"3"))]);
    let diff = walk_trees(&removed, &added);
    owo_colors::set_override(true);
    assert_eq!(
        display_diff(&diff),
        "\u{1b}[33m~ a\u{1b}[39m\n\u{1b}[32m+ come\u{1b}[39m\n\u{1b}[31m- gone\u{1b}[39m"
    );
    assert_eq!(
        diff_trees(&removed, &added),
        "\u{1b}[33m~ a\u{1b}[39m\n\u{1b}[32m+ come\u{1b}[39m\n\u{1b}[31m- gone\u{1b}[39m"
    );
}

#[test]
fn colours_are_left_out_where_the_output_takes_none() {
    let removed = tree(vec![("a", file("/old", b"1")), ("gone", file("/old", b"2"))]);
    let added = tree(vec![("a", file("/new", b"9")), ("come", file("/new", b"3"))]);
    let diff = walk_trees(&removed, &added);
    owo_colors::set_override(false);
    assert_eq!(display_diff(&diff), "~ a\n+ come\n- gone");
    assert_eq!(display_diff(&diff), display_plain(&diff));
    assert_eq!(diff_trees(&removed, &added), "~ a\n+ come\n- gone");
}

#[test]
fn file_contents_are_compared_byte_by_byte() {
    assert!(file_contents_same(b"", b""));
    assert!(file_contents_same(b"abc", b"abc"));
    assert!(!file_contents_same(b"abc", b"abd"));
    assert!(!file_contents_same(b"abc", b"ab"));
    assert!(!file_contents_same(b"ab", b"abc"));
}

#[test]
fn content_hashes_compare_by_size_and_digest() {
    let hash = ContentHash::of_bytes(b"abc");
    assert_eq!(hash.len, 3);
    assert_eq!(hash.digest, b"abc".to_vec());
    assert!(hash.same(&ContentHash::new(3, b"abc".to_vec())));
    assert!(!hash.same(&ContentHash::new(4, b"abc".to_vec())));
    assert!(!hash.same(&ContentHash::new(3, b"abd".to_vec())));
}

#[test]
fn paths_are_classified_by_what_was_found() {
    let chain = SymlinkChain::new(vec![], "/t".to_string()).unwrap();
    assert!(matches!(
        classify("/r/d", Found::Directory),
        Ok(PathState::Directory)
    ));
    assert!(matches!(
        classify("/r/f", Found::File { content: Ok(ContentHash::of_bytes(b"x")) }),
        Ok(PathState::File { hash }) if hash.digest == b"x".to_vec()
    ));
    assert!(matches!(
        classify("/r/l", Found::Symlink { chain: Ok(chain.clone()), content: None }),
        Ok(PathState::Symlink { hash: None, chain }) if chain.to() == "/t"
    ));
    assert!(matches!(
        classify(
            "/r/l",
            Found::Symlink {
                chain: Ok(chain),
                content: Some(Ok(ContentHash::of_bytes(b"x"))),
            }
        ),
        Ok(PathState::Symlink { hash: Some(_), .. })
    ));
}

#[test]
fn what_cannot_be_read_fails_with_its_path() {
    let chain = SymlinkChain::new(vec!["/r/hop".to_string()], "/t".to_string()).unwrap();
    assert!(matches!(
        classify("/r/f", Found::File { content: Err("permission denied".to_string()) }),
        Err(DiffError::IoError { path, cause }) if path == "/r/f" && cause == "permission denied"
    ));
    assert!(matches!(
        classify(
            "/r/l",
            Found::Symlink { chain: Ok(chain), content: Some(Err("gone".to_string())) }
        ),
        Err(DiffError::IoError { path, cause }) if path == "/t" && cause == "gone"
    ));
    assert!(matches!(
        classify(
            "/r/l",
            Found::Symlink {
                chain: Err(DiffError::SymlinkLoop { paths: vec!["/r/l".to_string()] }),
                content: None,
            }
        ),
        Err(DiffError::SymlinkLoop { paths }) if paths == vec!["/r/l".to_string()]
    ));
}

#[test]
fn a_walk_records_what_each_root_provides() {
    let mut tree: Tree = PathMap::new();
    tree = record(
        tree,
        "/first",
        path("a"),
        "/first/a",
        Some(Identity { dev: 1, ino: 2 }),
        Found::File { content: Ok(ContentHash::of_bytes(b"1")) },
    )
    .unwrap();
    tree = record(tree, "/second", path("a"), "/second/a", None, Found::Directory).unwrap();
    tree = record(tree, "/second", path("b"), "/second/b", None, Found::Directory).unwrap();
    assert_eq!(tree.len(), 2);
    let a = tree.get(&path("a")).unwrap();
    assert_eq!(a.root, "/first");
    assert_eq!(a.identity, Some(Identity { dev: 1, ino: 2 }));
    assert!(matches!(a.state, PathState::File { .. }));
    assert_eq!(tree.get(&path("b")).unwrap().root, "/second");
    let failed = record(
        tree,
        "/third",
        path("c"),
        "/third/c",
        None,
        Found::File { content: Err("denied".to_string()) },
    );
    assert!(matches!(
        failed,
        Err(DiffError::IoError { path, cause }) if path == "/third/c" && cause == "denied"
    ));
}

#[test]
fn trees_are_merged_with_the_first_going_before() {
    let first = tree(vec![("a", file("/first", b"1")), ("c", file("/first", b"3"))]);
    let later = tree(vec![("a", file("/later", b"9")), ("b", file("/later", b"2"))]);
    let merged = merge(first, &later);
    assert_eq!(merged.len(), 3);
    assert_eq!(merged.get(&path("a")).unwrap().root, "/first");
    assert_eq!(merged.get(&path("b")).unwrap().root, "/later");
    assert_eq!(merged.get(&path("c")).unwrap().root, "/first");
    assert!(merged.contains(&path("b")));
    assert!(!merged.contains(&path("d")));
    assert!(merged.entry(3).is_none());
    assert_eq!(merged.search(&path("b")), Ok(1));
    assert_eq!(merged.search(&path("bb")), Err(2));
}

#[test]
fn entries_are_counted_by_their_kind() {
    let removed = tree(vec![
        ("a", file("/old", b"1")),
        ("b", file("/old", b"2")),
        ("gone", file("/old", b"3")),
        ("same", file("/old", b"4")),
    ]);
    let added = tree(vec![
        ("a", file("/new", b"9")),
        ("b", file("/new", b"8")),
        ("come", file("/new", b"5")),
        ("same", file("/new", b"4")),
    ]);
    let diff = walk_trees(&removed, &added);
    assert_eq!(home_mangler::diff_trees::count(&diff, DiffKind::Changed), 2);
    assert_eq!(home_mangler::diff_trees::count(&diff, DiffKind::Added), 1);
    assert_eq!(home_mangler::diff_trees::count(&diff, DiffKind::Removed), 1);
    assert_eq!(home_mangler::diff_trees::count(&diff, DiffKind::Same), 1);
    let changed: Vec<String> = home_mangler::diff_trees::changed_paths(&diff)
        .iter()
        .map(|path| path.text())
        .collect();
    assert_eq!(changed, vec!["a", "b", "come", "gone"]);
    let nothing: Diff = PathMap::new();
    assert_eq!(home_mangler::diff_trees::count(&nothing, DiffKind::Same), 0);
    assert!(home_mangler::diff_trees::changed_paths(&nothing).is_empty());
}

#[test]
fn a_tree_differs_from_itself_in_nothing_that_is_reported() {
    let entries = || {
        tree(vec![
            ("d", dir("/r")),
            ("d/f", file("/r", b"1")),
            ("d/l", link("/r", &["/r/h"], "/r/d/f", Some(b"1"))),
            ("d/m", link("/r", &[], "/r/d", None)),
            ("g", file_at("/r", 1, 2, b"2")),
        ])
    };
    let diff = walk_trees(&entries(), &entries());
    assert_eq!(diff.len(), 5);
    assert_eq!(display_plain(&diff), "");
}

#[test]
fn the_verdict_does_not_depend_on_the_side() {
    let pairs = vec![
        (file("/a", b"1"), file("/b", b"2")),
        (file("/a", b"1"), dir("/b")),
        (link("/a", &[], "/t", Some(b"1")), file("/b", b"1")),
        (link("/a", &[], "/t", None), link("/b", &[], "/u", None)),
        (file_at("/a", 1, 1, b"1"), file_at("/b", 1, 1, b"2")),
    ];
    for (old, new) in pairs {
        assert_eq!(compare(&old, &new), compare(&new, &old));
    }
}

fn walked(root: &str, text: &str, found: Found) -> Walked {
    Walked {
        root: root.to_string(),
        path: path(text),
        location: format!("{}/{}", root, text),
        identity: None,
        found,
    }
}

fn file_found(bytes: &[u8]) -> Found {
    Found::File {
        content: Ok(ContentHash::of_bytes(bytes)),
    }
}

#[test]
fn a_diff_is_made_of_what_the_walks_met() {
    owo_colors::set_override(false);
    let removed = vec![
        walked("/old", "a.txt", file_found(b"x")),
        walked("/old", "dir", Found::Directory),
        walked("/old", "dir/b.txt", file_found(b"y")),
        walked("/older", "a.txt", file_found(b"other")),
    ];
    let added = vec![
        walked("/new", "a.txt", file_found(b"x")),
        walked("/new", "dir", Found::Directory),
        walked("/new", "dir/b.txt", file_found(b"z")),
    ];
    assert_eq!(diff(removed, added).unwrap(), "~ dir/b.txt");
    assert_eq!(diff(vec![], vec![]).unwrap(), "");
}

#[test]
fn a_link_into_a_loop_fails_the_diff_and_names_the_loop() {
    let table = vec![
        Link { from: "/old/a".to_string(), target: "b".to_string() },
        Link { from: "/old/b".to_string(), target: "a".to_string() },
    ];
    let removed = vec![
        walked("/old", "0", file_found(b"x")),
        walked(
            "/old",
            "a",
            Found::Symlink { chain: read_symlink("/old/a".to_string(), &table), content: None },
        ),
        walked("/old", "z", Found::File { content: Err("never read".to_string()) }),
    ];
    match diff(removed, vec![]) {
        Err(DiffError::SymlinkLoop { paths }) => {
            assert_eq!(paths, vec!["/old/a".to_string(), "/old/b".to_string()]);
        }
        other => panic!("unexpected outcome {:?}", other),
    }
    let added = vec![walked(
        "/new",
        "b",
        Found::Symlink { chain: read_symlink("/old/b".to_string(), &table), content: None },
    )];
    match diff(vec![walked("/old", "0", file_found(b"x"))], added) {
        Err(DiffError::SymlinkLoop { paths }) => {
            assert_eq!(paths, vec!["/old/b".to_string(), "/old/a".to_string()]);
        }
        other => panic!("unexpected outcome {:?}", other),
    }
}

#[test]
fn the_first_failure_of_the_removed_side_fails_the_diff() {
    let removed = vec![
        walked("/old", "a", Found::File { content: Err("first".to_string()) }),
        walked("/old", "b", Found::File { content: Err("second".to_string()) }),
    ];
    let added = vec![walked("/new", "a", Found::File { content: Err("third".to_string()) })];
    match diff(removed, added) {
        Err(DiffError::IoError { path, cause }) => {
            assert_eq!(path, "/old/a");
            assert_eq!(cause, "first");
        }
        other => panic!("unexpected outcome {:?}", other),
    }
}

#[test]
fn a_dangling_link_is_a_link_without_content() {
    let table = vec![Link { from: "/old/l".to_string(), target: "missing".to_string() }];
    let removed = vec![walked(
        "/old",
        "l",
        Found::Symlink { chain: read_symlink("/old/l".to_string(), &table), content: None },
    )];
    let tree = walk_roots(removed).unwrap();
    match &tree.get(&path("l")).unwrap().state {
        PathState::Symlink { chain, hash: None } => assert_eq!(chain.to(), "/old/missing"),
        other => panic!("unexpected state {:?}", other),
    }
}
