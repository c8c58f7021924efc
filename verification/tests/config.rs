use steampipe::config::{config_text_with_last_batch, Config};

#[test]
fn test_load_save_config() {
    assert!(Config::default().last_batch.is_none());
    let saved = config_text_with_last_batch("", Some("/some/path")).expect("a fresh file");
    let doc: toml::Value = toml::from_str(&saved).expect("TOML");
    assert_eq!(doc["state"]["last_batch"].as_str(), Some("/some/path"));
    let custom = "[default]\nignore = [\"target\"] # user comment here\n\n[state]\nlast_batch = \"/some/path\"\n";
    let new_content = config_text_with_last_batch(custom, Some("/another/path")).expect("state is a table");
    assert!(new_content.contains("[default]"));
    assert!(new_content.contains("ignore = [\"target\"] # user comment here"));
    assert!(new_content.contains("last_batch = \"/another/path\""));
}

#[test]
fn forgetting_the_batch_drops_an_empty_state() {
    let custom = "[default]\nsilent = true\n\n[state]\nlast_batch = \"/p\"\n";
    let out = config_text_with_last_batch(custom, None).expect("always written");
    assert!(!out.contains("state"));
    assert!(out.contains("silent = true"));
    let kept = config_text_with_last_batch("[state]\nlast_batch = \"/p\"\nother = 1\n", None).expect("always written");
    assert!(kept.contains("[state]"));
    assert!(kept.contains("other = 1"));
    assert!(!kept.contains("last_batch"));
    assert_eq!(config_text_with_last_batch("not = [toml", None).as_deref(), Some(""));
    assert_eq!(config_text_with_last_batch("state = 3\n", Some("/p")), None);
    assert_eq!(config_text_with_last_batch("state = 3\n", None).as_deref(), Some("state = 3\n"));
}
