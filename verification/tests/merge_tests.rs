use velacritty_config::{merge, TreeValue};

fn tree_to_toml(t: &TreeValue) -> toml::Value {
    match t {
        TreeValue::Null => unreachable!("merged trees hold no nulls here"),
        TreeValue::Bool(b) => toml::Value::Boolean(*b),
        TreeValue::Integer(i) => toml::Value::Integer(*i),
        TreeValue::Float(bits) => toml::Value::Float(f64::from_bits(*bits)),
        TreeValue::Text(s) => toml::Value::String(s.clone()),
        TreeValue::Datetime(s) => toml::Value::Datetime(s.parse().unwrap()),
        TreeValue::Array(items) => toml::Value::Array(items.iter().map(tree_to_toml).collect()),
        TreeValue::Table(entries) => toml::Value::Table(
            entries.iter().map(|(k, v)| (k.clone(), tree_to_toml(v))).collect(),
        ),
    }
}

fn parse(text: &str) -> TreeValue {
    let (parsed, _diags) = velacritty_config::deserialize_config("t.toml", text, false);
    parsed.unwrap()
}

fn same(a: &TreeValue, b: &TreeValue) -> bool {
    tree_to_toml(a) == tree_to_toml(b)
}

#[test]
fn merge_keeps_base_keys_absent_from_overlay() {
    let base = parse("x = 1\ny = 2\n[nested]\na = 10\nb = 20");
    let overlay = parse("y = 3\nz = 4\n[nested]\nb = 30");
    let merged = merge(&base, &overlay);
    let expected = parse("x = 1\ny = 3\nz = 4\n[nested]\na = 10\nb = 30");
    assert!(same(&merged, &expected));
}

#[test]
fn merge_never_combines_arrays() {
    let base = parse("a = [1, 2]");
    let overlay = parse("a = [3]");
    let merged = merge(&base, &overlay);
    let expected = parse("a = [3]");
    assert!(same(&merged, &expected));
}

#[test]
fn merge_scalar_overlay_replaces_subtree() {
    let base = parse("[sub]\na = 1");
    let overlay = parse("sub = 5");
    let merged = merge(&base, &overlay);
    let expected = parse("sub = 5");
    assert!(same(&merged, &expected));
}

#[test]
fn merge_is_associative_in_precedence() {
    let a = parse("x = 1\n[s]\nk = 1\nm = 9");
    let b = parse("y = 2\n[s]\nk = 2");
    let c = parse("z = 3\n[s]\nn = 7");
    let left = merge(&merge(&a, &b), &c);
    let right = merge(&a, &merge(&b, &c));
    assert!(same(&left, &right));
    let expected = parse("x = 1\ny = 2\nz = 3\n[s]\nk = 2\nm = 9\nn = 7");
    assert!(same(&left, &expected));
}
