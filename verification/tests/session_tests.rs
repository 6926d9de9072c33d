use velacritty_config::{
    read_config, Diagnostic, Error, LoadSession, ReadOutcome, Step, TreeValue,
    IMPORT_RECURSION_LIMIT,
};

fn tree_to_toml(t: &TreeValue) -> toml::Value {
    match t {
        TreeValue::Null => unreachable!("merged trees hold no nulls here"),
        TreeValue::Bool(b) => toml::Value::Boolean(*b),
        TreeValue::Integer(i) => toml::Value::Integer(*i),
        TreeValue::Float(bits) => toml::Value::Float(f64::from_bits(*bits)),
        TreeValue::Text(s) => toml::Value::String(s.clone()),
        TreeValue::Datetime(s) => toml::Value::Datetime(s.parse().unwrap()),
        TreeValue::Array(items) => toml::Value::Array(items.iter().map(tree_to_toml).collect()),
        TreeValue::Table(entries) => toml::Value::Table(
            entries.iter().map(|(k, v)| (k.clone(), tree_to_toml(v))).collect(),
        ),
    }
}

fn run_session(
    root: &str,
    files: &[(&str, &str)],
    budget: u32,
) -> (Result<TreeValue, Error>, Vec<String>, Vec<Diagnostic>) {
    let mut session = LoadSession::begin(String::from(root), budget, None);
    let mut action = Step::Read(String::from(root));
    loop {
        match action {
            Step::Read(path) => {
                let outcome = match files.iter().find(|(name, _)| *name == path) {
                    Some((_, contents)) => ReadOutcome::Content(String::from(*contents)),
                    None => ReadOutcome::Failure {
                        not_found: true,
                        message: String::from("No such file or directory"),
                    },
                };
                assert!(session.is_awaiting());
                action = session.provide(outcome);
            },
            Step::Progress => {
                action = session.step();
            },
            Step::Finished => break,
        }
    }
    assert!(session.is_done());
    session.into_result()
}

fn parse(text: &str) -> TreeValue {
    let (parsed, _diags) = velacritty_config::deserialize_config("t.toml", text, false);
    parsed.unwrap()
}

#[test]
fn missing_import_is_skipped_silently() {
    let root = "import = [\"missing.toml\"]\n[scrolling]\nhistory = 42";
    let (result, paths, _diags) = run_session(
        "/cfg/root.toml",
        &[("/cfg/root.toml", root)],
        IMPORT_RECURSION_LIMIT,
    );
    let tree = result.unwrap();
    // The import contributes nothing: the merged tree is the root's own.
    assert_eq!(tree_to_toml(&tree), tree_to_toml(&parse(root)));
    assert_eq!(paths, vec![String::from("/cfg/root.toml")]);
    let config = read_config(Ok(tree), paths).unwrap();
    assert_eq!(config.scrolling.history(), 42);
}

#[test]
fn missing_root_fails_with_not_found() {
    let (result, paths, _diags) = run_session("/cfg/root.toml", &[], IMPORT_RECURSION_LIMIT);
    match result.unwrap_err() {
        Error::Io { not_found, .. } => assert!(not_found),
        other => panic!("expected an I/O error, got {}", other.message()),
    }
    assert!(paths.is_empty());
}

#[test]
fn file_wins_over_its_imports_and_later_imports_over_earlier() {
    let files = [
        (
            "/cfg/root.toml",
            "import = [\"a.toml\", \"b.toml\"]\nown = 1\n[s]\nfrom_root = true\nk = \"root\"",
        ),
        ("/cfg/a.toml", "first = 1\n[s]\nk = \"a\"\nonly_a = 1"),
        ("/cfg/b.toml", "second = 2\n[s]\nk = \"b\"\nonly_b = 2"),
    ];
    let (result, paths, _diags) = run_session(
        "/cfg/root.toml",
        &files,
        IMPORT_RECURSION_LIMIT,
    );
    let tree = result.unwrap();
    let expected = parse(
        "own = 1\nfirst = 1\nsecond = 2\nimport = [\"a.toml\", \"b.toml\"]\n[s]\nfrom_root = true\nk = \"root\"\nonly_a = 1\nonly_b = 2",
    );
    assert_eq!(tree_to_toml(&tree), tree_to_toml(&expected));
    assert_eq!(
        paths,
        vec![
            String::from("/cfg/root.toml"),
            String::from("/cfg/a.toml"),
            String::from("/cfg/b.toml"),
        ]
    );
}

#[test]
fn nested_imports_resolve_relative_to_their_own_file() {
    let files = [
        ("/cfg/root.toml", "import = [\"sub/child.toml\"]\nroot = 1"),
        ("/cfg/sub/child.toml", "import = [\"leaf.toml\"]\nchild = 2"),
        ("/cfg/sub/leaf.toml", "leaf = 3"),
    ];
    let (result, paths, _diags) = run_session(
        "/cfg/root.toml",
        &files,
        IMPORT_RECURSION_LIMIT,
    );
    let tree = result.unwrap();
    let expected = parse("root = 1\nchild = 2\nleaf = 3\nimport = [\"sub/child.toml\"]");
    assert_eq!(tree_to_toml(&tree), tree_to_toml(&expected));
    assert_eq!(
        paths,
        vec![
            String::from("/cfg/root.toml"),
            String::from("/cfg/sub/child.toml"),
            String::from("/cfg/sub/leaf.toml"),
        ]
    );
}

#[test]
fn zero_budget_import_contributes_nothing() {
    let files = [
        ("/cfg/root.toml", "import = [\"a.toml\"]\nroot = 1"),
        ("/cfg/a.toml", "extra = 2"),
    ];
    let (result, paths, diags) = run_session("/cfg/root.toml", &files, 0);
    let tree = result.unwrap();
    assert_eq!(tree_to_toml(&tree), tree_to_toml(&parse(&files[0].1)));
    assert_eq!(paths, vec![String::from("/cfg/root.toml")]);
    assert!(diags
        .iter()
        .any(|d| d.message.contains("exceeded maximum configuration import depth")));
}

#[test]
fn cyclic_imports_end_at_the_recursion_budget() {
    let files = [
        ("/cfg/a.toml", "import = [\"b.toml\"]\na = 1"),
        ("/cfg/b.toml", "import = [\"a.toml\"]\nb = 2"),
    ];
    let (result, paths, _diags) = run_session("/cfg/a.toml", &files, IMPORT_RECURSION_LIMIT);
    assert!(result.is_ok());
    // The chain is visited until the budget runs out, never forever.
    assert_eq!(paths.len() as u32, IMPORT_RECURSION_LIMIT + 1);
}

#[test]
fn unparsable_import_is_skipped_with_a_diagnostic() {
    let files = [
        ("/cfg/root.toml", "import = [\"bad.toml\"]\nroot = 1"),
        ("/cfg/bad.toml", "this is not toml at all ["),
    ];
    let (result, _paths, diags) = run_session("/cfg/root.toml", &files, IMPORT_RECURSION_LIMIT);
    let tree = result.unwrap();
    assert_eq!(tree_to_toml(&tree), tree_to_toml(&parse(&files[0].1)));
    assert!(diags.iter().any(|d| d.message.contains("bad.toml")));
}

#[test]
fn unparsable_root_fails_the_load() {
    let files = [("/cfg/root.toml", "this is not toml at all [")];
    let (result, _paths, _diags) = run_session("/cfg/root.toml", &files, IMPORT_RECURSION_LIMIT);
    assert!(matches!(result.unwrap_err(), Error::Toml(_)));
}
