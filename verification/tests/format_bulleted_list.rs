use home_mangler::format_bulleted_list;

#[test]
fn test_format_bulleted_list() {
    assert_eq!(
        format_bulleted_list(&["puppy".to_string(), "dog".to_string(), "city".to_string()])
            .to_string(),
        "• puppy\n\
            • dog\n\
            • city"
    );
}

#[test]
fn bulleted_list_of_nothing_is_empty() {
    assert_eq!(format_bulleted_list(&[]), "");
}

#[test]
fn bulleted_list_of_one_item_has_no_line_break() {
    assert_eq!(format_bulleted_list(&["only".to_string()]), "• only");
}

#[test]
fn bulleted_list_keeps_empty_items() {
    assert_eq!(
        format_bulleted_list(&["".to_string(), "x".to_string()]),
        "• \n• x"
    );
}
