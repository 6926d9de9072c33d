use velacritty_config::{deserialize_config, prune_yaml_nulls, Error, TreeValue};

fn tree_to_toml(t: &TreeValue) -> toml::Value {
    match t {
        TreeValue::Null => unreachable!("pruned trees hold no nulls"),
        TreeValue::Bool(b) => toml::Value::Boolean(*b),
        TreeValue::Integer(i) => toml::Value::Integer(*i),
        TreeValue::Float(bits) => toml::Value::Float(f64::from_bits(*bits)),
        TreeValue::Text(s) => toml::Value::String(s.clone()),
        TreeValue::Datetime(s) => toml::Value::Datetime(s.parse().unwrap()),
        TreeValue::Array(items) => toml::Value::Array(items.iter().map(tree_to_toml).collect()),
        TreeValue::Table(entries) => toml::Value::Table(
            entries.iter().map(|(k, v)| (k.clone(), tree_to_toml(v))).collect(),
        ),
    }
}

fn yaml_to_toml(contents: &str) -> String {
    let (parsed, _diags) = deserialize_config("legacy.yaml", contents, false);
    toml::to_string(&tree_to_toml(&parsed.unwrap())).unwrap()
}

#[test]
fn yaml_with_nulls() {
    let contents = r#"
        window:
            blinking: Always
            cursor:
            not_blinking: Always
            some_array:
              - { window: }
              - { window: "Hello" }

        "#;
    let toml = yaml_to_toml(contents);
    assert_eq!(
        toml.trim(),
        r#"[window]
blinking = "Always"
not_blinking = "Always"

[[window.some_array]]
window = "Hello""#
    );
}

#[test]
fn empty_yaml_to_toml() {
    let contents = r#"

        "#;
    let toml = yaml_to_toml(contents);
    assert!(toml.is_empty());
}

#[test]
fn null_pruning_removes_leaves_and_emptied_containers() {
    let contents = "window:\n    blinking: Always\n    cursor:\nextra:\n";
    let toml = yaml_to_toml(contents);
    assert_eq!(toml.trim(), "[window]\nblinking = \"Always\"");
}

#[test]
fn prune_reports_removed_keys_only_when_asked() {
    let tree = TreeValue::Table(vec![
        (
            String::from("window"),
            TreeValue::Table(vec![
                (String::from("blinking"), TreeValue::Text(String::from("Always"))),
                (String::from("cursor"), TreeValue::Null),
            ]),
        ),
        (String::from("extra"), TreeValue::Null),
    ]);
    let (_pruned, removed) = prune_yaml_nulls(&tree, true);
    assert_eq!(removed, vec![String::from("cursor"), String::from("extra")]);
    let (_pruned, silent) = prune_yaml_nulls(&tree, false);
    assert!(silent.is_empty());
}

#[test]
fn byte_order_mark_is_stripped() {
    let (parsed, _diags) = deserialize_config("velacritty.toml", "\u{FEFF}a = 1", false);
    let text = toml::to_string(&tree_to_toml(&parsed.unwrap())).unwrap();
    assert_eq!(text.trim(), "a = 1");
}

#[test]
fn invalid_toml_is_a_parse_error() {
    let (parsed, _diags) = deserialize_config("velacritty.toml", "a = ", false);
    assert!(matches!(parsed.unwrap_err(), Error::Toml(_)));
}

#[test]
fn invalid_yaml_is_a_legacy_parse_error() {
    let (parsed, _diags) = deserialize_config("legacy.yml", "a: [unclosed", false);
    assert!(matches!(parsed.unwrap_err(), Error::Yaml(_)));
}

#[test]
fn scalar_yaml_document_cannot_become_a_table() {
    let (parsed, _diags) = deserialize_config("legacy.yaml", "5", false);
    assert!(matches!(parsed.unwrap_err(), Error::TomlSe(_)));
}

#[test]
fn legacy_detection_goes_by_extension_alone() {
    // The same text is legacy markup under .yaml and canonical under .toml.
    let (as_yaml, _d) = deserialize_config("c.yaml", "a: 1", false);
    assert!(as_yaml.is_ok());
    let (as_toml, _d) = deserialize_config("c.toml", "a: 1", false);
    assert!(as_toml.is_err());
}
