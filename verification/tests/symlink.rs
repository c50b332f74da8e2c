use home_mangler::error::DiffError;
use home_mangler::symlink::probe;
use home_mangler::symlink::read_symlink;
use home_mangler::symlink::Link;
use home_mangler::symlink::LinkProbe;
use home_mangler::symlink::SymlinkChain;
use home_mangler::symlink::SymlinkWalk;
use home_mangler::symlink::WalkStep;

fn links(entries: &[(&str, &str)]) -> Vec<Link> {
    entries
        .iter()
        .map(|(from, target)| Link {
            from: from.to_string(),
            target: target.to_string(),
        })
        .collect()
}

#[test]
fn a_loop_of_two_links_fails_and_names_both() {
    let table = links(&[("/r/a", "b"), ("/r/b", "a")]);
    match read_symlink("/r/a".to_string(), &table) {
        Err(DiffError::SymlinkLoop { paths }) => {
            assert_eq!(paths, vec!["/r/a".to_string(), "/r/b".to_string()]);
        }
        other => panic!("unexpected outcome {:?}", other),
    }
}

#[test]
fn a_link_to_itself_is_a_loop() {
    let table = links(&[("/r/a", "/r/a")]);
    match read_symlink("/r/a".to_string(), &table) {
        Err(DiffError::SymlinkLoop { paths }) => assert_eq!(paths, vec!["/r/a".to_string()]),
        other => panic!("unexpected outcome {:?}", other),
    }
}

#[test]
fn a_loop_behind_a_link_names_every_link_passed() {
    let table = links(&[("/r/x", "a"), ("/r/a", "b"), ("/r/b", "a")]);
    match read_symlink("/r/x".to_string(), &table) {
        Err(DiffError::SymlinkLoop { paths }) => {
            assert_eq!(
                paths,
                vec!["/r/x".to_string(), "/r/a".to_string(), "/r/b".to_string()]
            );
        }
        other => panic!("unexpected outcome {:?}", other),
    }
}

#[test]
fn a_chain_holds_the_hops_and_the_end() {
    let table = links(&[("/r/a", "b"), ("/r/b", "sub/c"), ("/r/sub/c", "/etc/target")]);
    let chain = read_symlink("/r/a".to_string(), &table).unwrap();
    assert_eq!(
        chain.intermediate().clone(),
        vec!["/r/b".to_string(), "/r/sub/c".to_string()]
    );
    assert_eq!(chain.to(), "/etc/target");
    assert_eq!(
        chain.destinations(),
        vec![
            "/r/b".to_string(),
            "/r/sub/c".to_string(),
            "/etc/target".to_string()
        ]
    );
    assert_eq!(chain.to_text(), "/r/b -> /r/sub/c -> /etc/target");
}

#[test]
fn a_target_is_read_from_the_directory_of_its_link() {
    let table = links(&[("/r/d/link", "../other/./file")]);
    let chain = read_symlink("/r/d/link".to_string(), &table).unwrap();
    assert!(chain.intermediate().is_empty());
    assert_eq!(chain.to(), "/r/other/file");
}

#[test]
fn what_is_no_link_is_its_own_end() {
    let chain = read_symlink("/r/file".to_string(), &links(&[])).unwrap();
    assert!(chain.intermediate().is_empty());
    assert_eq!(chain.to(), "/r/file");
    assert_eq!(chain.destinations(), vec!["/r/file".to_string()]);
    assert_eq!(chain.to_text(), "/r/file");
}

#[test]
fn a_dangling_link_has_a_chain() {
    let table = links(&[("/r/a", "missing")]);
    let chain = read_symlink("/r/a".to_string(), &table).unwrap();
    assert!(chain.intermediate().is_empty());
    assert_eq!(chain.to(), "/r/missing");
}

#[test]
fn the_first_entry_of_a_table_counts() {
    let table = links(&[("/r/a", "one"), ("/r/a", "two")]);
    assert!(matches!(
        probe(&table, "/r/a"),
        LinkProbe::Link { target } if target == "one"
    ));
    assert!(matches!(probe(&table, "/r/b"), LinkProbe::NotLink));
    assert_eq!(read_symlink("/r/a".to_string(), &table).unwrap().to(), "/r/one");
}

#[test]
fn a_walk_goes_by_the_answers_it_is_given() {
    let walk = SymlinkWalk::new("/r/a".to_string());
    assert_eq!(walk.path(), "/r/a");
    let walk = match walk.advance(LinkProbe::Link {
        target: "b".to_string(),
    }) {
        WalkStep::Next(walk) => walk,
        other => panic!("unexpected step {:?}", other),
    };
    assert_eq!(walk.path(), "/r/b");
    match walk.advance(LinkProbe::NotLink) {
        WalkStep::Done(chain) => {
            assert!(chain.intermediate().is_empty());
            assert_eq!(chain.to(), "/r/b");
        }
        other => panic!("unexpected step {:?}", other),
    }
}

#[test]
fn a_link_that_cannot_be_read_is_an_error_at_its_path() {
    let walk = SymlinkWalk::new("/r/a".to_string());
    match walk.advance(LinkProbe::Failed {
        cause: "permission denied".to_string(),
    }) {
        WalkStep::Failed(DiffError::IoError { path, cause }) => {
            assert_eq!(path, "/r/a");
            assert_eq!(cause, "permission denied");
        }
        other => panic!("unexpected step {:?}", other),
    }
}

#[test]
fn a_link_without_a_directory_keeps_its_target() {
    let walk = SymlinkWalk::new("/".to_string());
    match walk.advance(LinkProbe::Link {
        target: "x/../y".to_string(),
    }) {
        WalkStep::Next(walk) => assert_eq!(walk.path(), "x/../y"),
        other => panic!("unexpected step {:?}", other),
    }
}

#[test]
fn chains_are_the_same_where_their_paths_are() {
    let chain = SymlinkChain::new(vec!["/a".to_string()], "/b".to_string()).unwrap();
    assert!(chain.same(&chain.clone()));
    assert!(!chain.same(&SymlinkChain::new(vec![], "/b".to_string()).unwrap()));
    assert!(!chain.same(&SymlinkChain::new(vec!["/a".to_string()], "/c".to_string()).unwrap()));
}

#[test]
fn no_path_occurs_twice_in_a_chain() {
    assert!(SymlinkChain::new(vec![], "/a".to_string()).is_some());
    assert!(SymlinkChain::new(vec!["/a".to_string(), "/b".to_string()], "/c".to_string()).is_some());
    assert!(SymlinkChain::new(vec!["/a".to_string()], "/a".to_string()).is_none());
    assert!(SymlinkChain::new(vec!["/a".to_string(), "/a".to_string()], "/c".to_string()).is_none());
    assert!(
        SymlinkChain::new(
            vec!["/a".to_string(), "/b".to_string(), "/a".to_string()],
            "/c".to_string()
        )
        .is_none()
    );
}

#[test]
fn a_long_way_into_a_long_cycle_is_a_loop() {
    let table = links(&[
        ("/r/in1", "in2"),
        ("/r/in2", "c1"),
        ("/r/c1", "c2"),
        ("/r/c2", "c3"),
        ("/r/c3", "c1"),
    ]);
    match read_symlink("/r/in1".to_string(), &table) {
        Err(DiffError::SymlinkLoop { paths }) => assert_eq!(
            paths,
            vec!["/r/in1", "/r/in2", "/r/c1", "/r/c2", "/r/c3"]
        ),
        other => panic!("unexpected outcome {:?}", other),
    }
}

#[test]
fn errors_say_what_went_wrong() {
    assert_eq!(
        DiffError::IoError {
            path: "/r/a".to_string(),
            cause: "gone".to_string()
        }
        .message(),
        "Failed to read /r/a: gone"
    );
    assert_eq!(
        DiffError::SymlinkLoop {
            paths: vec!["/r/a".to_string(), "/r/b".to_string()]
        }
        .message(),
        "Detected symlink loop:\n• /r/a\n• /r/b"
    );
    assert_eq!(
        DiffError::PathEncodingError {
            path: "/r/\u{fffd}".to_string()
        }
        .message(),
        "Path is not valid UTF-8: /r/\u{fffd}"
    );
}
