use home_mangler::order::Order;
use home_mangler::path::component_ok;
use home_mangler::text::split_text;
use home_mangler::text::text_compare;
use home_mangler::path::RelativePath;

fn path(text: &str) -> RelativePath {
    RelativePath::parse(text).unwrap()
}

#[test]
fn a_path_is_its_components() {
    let p = path("dir/sub/b.txt");
    assert_eq!(p.depth(), 3);
    assert_eq!(p.file_name(), "b.txt");
    assert_eq!(p.text(), "dir/sub/b.txt");
    assert_eq!(path("a").text(), "a");
    assert_eq!(path("a").depth(), 1);
}

#[test]
fn a_path_has_no_empty_component() {
    assert!(RelativePath::parse("").is_none());
    assert!(RelativePath::parse("/a").is_none());
    assert!(RelativePath::parse("a/").is_none());
    assert!(RelativePath::parse("a//b").is_none());
    assert!(RelativePath::parse("/").is_none());
    assert!(RelativePath::parse("a/b").is_some());
}

#[test]
fn a_path_is_made_of_valid_components() {
    assert!(RelativePath::from_components(vec![]).is_none());
    assert!(RelativePath::from_components(vec!["a".to_string(), "".to_string()]).is_none());
    assert!(RelativePath::from_components(vec!["a/b".to_string()]).is_none());
    let p = RelativePath::from_components(vec!["a".to_string(), "b c".to_string()]).unwrap();
    assert_eq!(p.text(), "a/b c");
    assert!(component_ok("name"));
    assert!(!component_ok(""));
    assert!(!component_ok("a/b"));
}

#[test]
fn a_text_is_cut_at_each_separator() {
    assert_eq!(split_text("a/b/c", '/'), vec!["a", "b", "c"]);
    assert_eq!(split_text("", '/'), vec![""]);
    assert_eq!(split_text("/", '/'), vec!["", ""]);
    assert_eq!(split_text("a//b/", '/'), vec!["a", "", "b", ""]);
    assert_eq!(split_text("é/ü", '/'), vec!["é", "ü"]);
}

#[test]
fn parents_and_children() {
    let p = path("a/b/c");
    assert_eq!(p.parent().unwrap().text(), "a/b");
    assert_eq!(p.parent().unwrap().parent().unwrap().text(), "a");
    assert!(path("a").parent().is_none());
    assert_eq!(path("a").child("b").unwrap().text(), "a/b");
    assert!(path("a").child("").is_none());
    assert!(path("a").child("b/c").is_none());
}

#[test]
fn ancestors_are_proper_prefixes_by_components() {
    assert!(path("a").is_ancestor_of(&path("a/b")));
    assert!(path("a").is_ancestor_of(&path("a/b/c")));
    assert!(path("a/b").is_ancestor_of(&path("a/b/c")));
    assert!(!path("a").is_ancestor_of(&path("a")));
    assert!(!path("a").is_ancestor_of(&path("ab")));
    assert!(!path("a/b").is_ancestor_of(&path("a")));
    assert!(!path("a/b").is_ancestor_of(&path("a/c/b")));
}

#[test]
fn paths_are_ordered_component_by_component() {
    assert_eq!(path("a").compare(&path("a")), Order::Equal);
    assert_eq!(path("a").compare(&path("b")), Order::Less);
    assert_eq!(path("b").compare(&path("a")), Order::Greater);
    assert_eq!(path("a").compare(&path("a/b")), Order::Less);
    assert_eq!(path("a/b").compare(&path("a")), Order::Greater);
    assert_eq!(path("a/b").compare(&path("a.b")), Order::Less);
    assert_eq!(path("a/z").compare(&path("ab")), Order::Less);
    assert_eq!(path("B").compare(&path("a")), Order::Less);
}

#[test]
fn texts_are_ordered_character_by_character() {
    assert_eq!(text_compare("", ""), Order::Equal);
    assert_eq!(text_compare("", "a"), Order::Less);
    assert_eq!(text_compare("a", ""), Order::Greater);
    assert_eq!(text_compare("abc", "abd"), Order::Less);
    assert_eq!(text_compare("abc", "ab"), Order::Greater);
    assert_eq!(text_compare("z", "é"), Order::Less);
    assert_eq!(text_compare("é", "é"), Order::Equal);
}

#[test]
fn a_copy_of_a_path_is_the_same_path() {
    let p = path("x/y");
    assert_eq!(p.clone().compare(&p), Order::Equal);
    assert_eq!(p.clone().text(), "x/y");
}
