use velacritty_config::{
    after_loading, deserialize_config, load, reload, Config, Error, Overrides, TreeValue,
};

fn parse(text: &str) -> TreeValue {
    let (parsed, _diags) = deserialize_config("t.toml", text, false);
    parsed.unwrap()
}

fn no_overrides() -> Overrides {
    Overrides { multiplier: None, auto_scroll: None }
}

#[test]
fn load_uses_defaults_when_no_file_found() {
    let config = load(
        None,
        None,
        Vec::new(),
        Some(String::from("/home/u/.config/velacritty/velacritty.toml")),
        &no_overrides(),
    );
    assert_eq!(config.scrolling.history(), 10_000);
    assert_eq!(config.scrolling.multiplier, 3);
    assert!(config.scrolling.auto_scroll);
    assert_eq!(
        config.config_paths,
        vec![String::from("/home/u/.config/velacritty/velacritty.toml")]
    );
}

#[test]
fn load_records_explicit_path_when_the_file_cannot_be_read() {
    let config = load(
        Some(String::from("/cfg/velacritty.toml")),
        Some(Err(Error::Io { not_found: true, message: String::from("missing") })),
        Vec::new(),
        None,
        &no_overrides(),
    );
    assert_eq!(config.scrolling.history(), 10_000);
    assert_eq!(config.config_paths, vec![String::from("/cfg/velacritty.toml")]);
}

#[test]
fn load_falls_back_to_defaults_on_invalid_config() {
    let config = load(
        Some(String::from("/cfg/velacritty.toml")),
        Some(Ok(parse("[scrolling]\nhistory = 100001"))),
        vec![String::from("/cfg/velacritty.toml")],
        None,
        &no_overrides(),
    );
    assert_eq!(config.scrolling.history(), 10_000);
}

#[test]
fn load_applies_caller_overrides() {
    let tree = parse("[scrolling]\nmultiplier = 5");
    let options = Overrides { multiplier: Some(9), auto_scroll: Some(false) };
    let config = load(
        Some(String::from("/cfg/velacritty.toml")),
        Some(Ok(tree)),
        vec![String::from("/cfg/velacritty.toml")],
        None,
        &options,
    );
    assert_eq!(config.scrolling.multiplier, 9);
    assert!(!config.scrolling.auto_scroll);
}

#[test]
fn reload_propagates_failures() {
    let (result, _diags) = reload(
        "/cfg/velacritty.toml",
        Ok(parse("[scrolling]\nhistory = 100001")),
        vec![String::from("/cfg/velacritty.toml")],
        &no_overrides(),
    );
    assert!(matches!(result.unwrap_err(), Error::Validation(_)));
    let (result, _diags) = reload(
        "/cfg/velacritty.toml",
        Err(Error::Io { not_found: true, message: String::from("missing") }),
        Vec::new(),
        &no_overrides(),
    );
    assert!(matches!(result.unwrap_err(), Error::Io { not_found: true, .. }));
}

#[test]
fn reload_returns_the_validated_config() {
    let (result, _diags) = reload(
        "/cfg/velacritty.toml",
        Ok(parse("[scrolling]\nhistory = 77\nauto_scroll = false")),
        vec![String::from("/cfg/velacritty.toml")],
        &no_overrides(),
    );
    let config = result.unwrap();
    assert_eq!(config.scrolling.history(), 77);
    assert!(!config.scrolling.auto_scroll);
    assert_eq!(config.config_paths, vec![String::from("/cfg/velacritty.toml")]);
}

#[test]
fn after_loading_overrides_only_what_the_caller_set() {
    let mut config = Config::default();
    after_loading(&mut config, &Overrides { multiplier: Some(7), auto_scroll: None });
    assert_eq!(config.scrolling.multiplier, 7);
    assert!(config.scrolling.auto_scroll);
    assert_eq!(config.scrolling.history(), 10_000);
}
