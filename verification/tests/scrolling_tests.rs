use velacritty_config::{deserialize_config, read_config, Config, Error, Scrolling};

fn scrolling_from_toml(text: &str) -> Result<Scrolling, Error> {
    let (parsed, _diags) = deserialize_config("scrolling.toml", text, false);
    let tree = parsed?;
    // Wrap the section the way a full document carries it.
    let doc = velacritty_config::TreeValue::Table(vec![(String::from("scrolling"), tree)]);
    read_config(Ok(doc), Vec::new()).map(|c| c.scrolling)
}

#[test]
fn auto_scroll_default_true() {
    let scrolling = Scrolling::default();
    assert!(scrolling.auto_scroll);
}

#[test]
fn auto_scroll_deserialize_explicit_false() {
    let toml = r#"
            history = 5000
            multiplier = 5
            auto_scroll = false
        "#;
    let scrolling = scrolling_from_toml(toml).unwrap();
    assert_eq!(scrolling.history(), 5000);
    assert_eq!(scrolling.multiplier, 5);
    assert!(!scrolling.auto_scroll);
}

#[test]
fn auto_scroll_deserialize_explicit_true() {
    let toml = r#"
            history = 5000
            multiplier = 5
            auto_scroll = true
        "#;
    let scrolling = scrolling_from_toml(toml).unwrap();
    assert!(scrolling.auto_scroll);
}

#[test]
fn auto_scroll_deserialize_default_when_missing() {
    let toml = r#"
            history = 5000
            multiplier = 5
        "#;
    let scrolling = scrolling_from_toml(toml).unwrap();
    assert!(scrolling.auto_scroll);
}

#[test]
fn config_default_has_auto_scroll_true() {
    let config = Config::default();
    assert!(
        config.scrolling.auto_scroll,
        "Default config must have auto_scroll=true for backward compatibility"
    );
}

#[test]
fn auto_scroll_false_config_creates_successfully() {
    let mut config = Config::default();
    config.scrolling.set_auto_scroll(false);
    assert!(
        !config.scrolling.auto_scroll,
        "Should be able to create config with auto_scroll=false"
    );
}

#[test]
fn empty_config() {
    let (parsed, _diags) = deserialize_config("velacritty.toml", "", false);
    read_config(parsed, Vec::new()).unwrap();
}

#[test]
fn empty_config_yields_all_defaults() {
    let (parsed, _diags) = deserialize_config("velacritty.toml", "", false);
    let config = read_config(parsed, Vec::new()).unwrap();
    assert_eq!(config.scrolling.history(), 10_000);
    assert_eq!(config.scrolling.multiplier, 3);
    assert!(config.scrolling.auto_scroll);
    assert!(config.config_paths.is_empty());
}

#[test]
fn history_at_ceiling_is_accepted() {
    let scrolling = scrolling_from_toml("history = 100000").unwrap();
    assert_eq!(scrolling.history(), 100_000);
}

#[test]
fn history_over_ceiling_fails_validation() {
    let err = scrolling_from_toml("history = 100001").unwrap_err();
    match &err {
        Error::Validation(_) => {},
        other => panic!("expected a validation error, got {}", other.message()),
    }
    assert!(err.message().contains("exceeded maximum scrolling history (100001/100000)"));
}

#[test]
fn history_omitted_yields_default() {
    let scrolling = scrolling_from_toml("multiplier = 7").unwrap();
    assert_eq!(scrolling.history(), 10_000);
    assert_eq!(scrolling.multiplier, 7);
}

#[test]
fn scrolling_wrong_type_fails_validation() {
    let (parsed, _diags) = deserialize_config("velacritty.toml", "scrolling = 5", false);
    let err = read_config(parsed, Vec::new()).unwrap_err();
    assert!(matches!(err, Error::Validation(_)));
}

#[test]
fn default_true_is_true() {
    assert!(velacritty_config::default_true());
}
