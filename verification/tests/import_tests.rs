use velacritty_config::{imports, normalize_import, Error, TreeValue};

#[test]
fn normalize_import_home_shorthand() {
    let a = normalize_import("/cfg/root.toml", "~/.x.toml", Some("/home/u"));
    assert_eq!(a, "/home/u/.x.toml");
    // Independent of the base file's location.
    let b = normalize_import("/somewhere/else/base.toml", "~/.x.toml", Some("/home/u"));
    assert_eq!(b, "/home/u/.x.toml");
}

#[test]
fn normalize_import_relative_to_base_directory() {
    let p = normalize_import("/cfg/root.toml", "sub/x.toml", None);
    assert_eq!(p, "/cfg/sub/x.toml");
}

#[test]
fn normalize_import_absolute_path_is_kept() {
    let p = normalize_import("/cfg/root.toml", "/etc/other.toml", Some("/home/u"));
    assert_eq!(p, "/etc/other.toml");
}

#[test]
fn normalize_import_without_home_stays_relative_to_base() {
    let p = normalize_import("/cfg/root.toml", "~/.x.toml", None);
    assert_eq!(p, "/cfg/~/.x.toml");
}

fn doc_with_imports(items: Vec<TreeValue>) -> TreeValue {
    TreeValue::Table(vec![(String::from("import"), TreeValue::Array(items))])
}

#[test]
fn nonempty_imports_under_zero_budget_fail_with_depth_error() {
    let doc = doc_with_imports(vec![TreeValue::Text(String::from("a.toml"))]);
    let err = imports(&doc, "/cfg/root.toml", 0, None).unwrap_err();
    assert!(matches!(err, Error::RecursionLimit));
}

#[test]
fn empty_imports_under_zero_budget_are_fine() {
    let doc = doc_with_imports(vec![]);
    let list = imports(&doc, "/cfg/root.toml", 0, None).unwrap();
    assert!(list.is_empty());
}

#[test]
fn import_key_of_wrong_type_is_a_directive_error() {
    let doc = TreeValue::Table(vec![(String::from("import"), TreeValue::Integer(5))]);
    let err = imports(&doc, "/cfg/root.toml", 5, None).unwrap_err();
    assert!(matches!(err, Error::ImportDirective(_)));
}

#[test]
fn non_string_import_element_fails_alone() {
    let doc = doc_with_imports(vec![
        TreeValue::Text(String::from("ok.toml")),
        TreeValue::Integer(5),
        TreeValue::Text(String::from("also.toml")),
    ]);
    let list = imports(&doc, "/cfg/root.toml", 5, None).unwrap();
    assert_eq!(list.len(), 3);
    assert_eq!(list[0].as_ref().unwrap(), "/cfg/ok.toml");
    assert!(list[1].is_err());
    assert_eq!(list[2].as_ref().unwrap(), "/cfg/also.toml");
}

#[test]
fn imports_found_under_general_table() {
    let doc = TreeValue::Table(vec![(
        String::from("general"),
        TreeValue::Table(vec![(
            String::from("import"),
            TreeValue::Array(vec![TreeValue::Text(String::from("x.toml"))]),
        )]),
    )]);
    let list = imports(&doc, "/cfg/root.toml", 5, None).unwrap();
    assert_eq!(list.len(), 1);
    assert_eq!(list[0].as_ref().unwrap(), "/cfg/x.toml");
}

#[test]
fn missing_import_key_means_no_imports() {
    let doc = TreeValue::Table(vec![(String::from("x"), TreeValue::Integer(1))]);
    let list = imports(&doc, "/cfg/root.toml", 5, None).unwrap();
    assert!(list.is_empty());
}

#[test]
fn installed_config_candidates_follow_the_search_order() {
    let c = velacritty_config::installed_config_candidates(
        "toml",
        Some("/xdg"),
        Some("/home/u"),
    );
    assert_eq!(
        c,
        vec![
            String::from("/xdg/velacritty/velacritty.toml"),
            String::from("/xdg/velacritty.toml"),
            String::from("/home/u/.config/velacritty/velacritty.toml"),
            String::from("/home/u/.velacritty.toml"),
            String::from("/etc/velacritty/velacritty.toml"),
        ]
    );
}
