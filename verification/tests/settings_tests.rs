//! Tests for credential / settings resolution.
//!
//! The `resolve_*` functions are pure (env is passed in), so these never touch
//! real environment variables or the real config file.

use forge::settings::{self, config_dir, config_path, Settings};

fn settings_with_key(key: &str) -> Settings {
    Settings {
        openai_api_key: Some(key.to_string()),
        ..Default::default()
    }
}

#[test]
fn api_key_precedence_is_flag_then_env_then_config() {
    let cfg = settings_with_key("from-config");

    // Flag wins over everything.
    assert_eq!(
        settings::resolve_api_key(Some("from-flag"), Some("from-env"), &cfg).as_deref(),
        Some("from-flag")
    );
    // Env wins over config.
    assert_eq!(
        settings::resolve_api_key(None, Some("from-env"), &cfg).as_deref(),
        Some("from-env")
    );
    // Config is the last resort.
    assert_eq!(
        settings::resolve_api_key(None, None, &cfg).as_deref(),
        Some("from-config")
    );
    // Nothing anywhere gives None.
    assert_eq!(
        settings::resolve_api_key(None, None, &Settings::default()),
        None
    );
}

#[test]
fn empty_values_are_ignored_in_resolution() {
    let cfg = settings_with_key("real-key");
    // An empty flag / env must not shadow the real config value.
    assert_eq!(
        settings::resolve_api_key(Some(""), Some(""), &cfg).as_deref(),
        Some("real-key")
    );
}

#[test]
fn model_falls_back_to_default() {
    let empty = Settings::default();
    assert_eq!(
        settings::resolve_model(None, None, &empty),
        settings::DEFAULT_MODEL
    );
    assert_eq!(
        settings::resolve_model(Some("gpt-4o"), None, &empty),
        "gpt-4o"
    );
    let cfg = Settings {
        openai_model: Some("o-cfg".to_string()),
        ..Default::default()
    };
    assert_eq!(settings::resolve_model(None, Some("o-env"), &cfg), "o-env");
    assert_eq!(settings::resolve_model(None, None, &cfg), "o-cfg");
}

#[test]
fn backend_and_output_fall_back_to_defaults() {
    let empty = Settings::default();
    assert_eq!(
        settings::resolve_backend(None, &empty),
        settings::DEFAULT_BACKEND
    );
    assert_eq!(
        settings::resolve_output(None, &empty),
        settings::DEFAULT_OUTPUT
    );
    assert_eq!(settings::resolve_backend(Some("zephyr"), &empty), "zephyr");
}

#[test]
fn redaction_hides_the_secret() {
    // Deliberately not an OpenAI-shaped token, so secret scanners stay quiet.
    let long = "EXAMPLEKEY_abcdef1234567890_TAIL";
    let shown = settings::redact(long);
    assert!(
        !shown.contains("abcdef1234567890"),
        "must not reveal the middle"
    );
    assert!(shown.starts_with("EXAMPL"));
    // Short secrets are fully masked.
    assert_eq!(settings::redact("short"), "********");
}

#[test]
fn redaction_shows_prefix_suffix_and_length() {
    assert_eq!(
        settings::redact("EXAMPLEKEY_abcdef1234567890_TAIL"),
        "EXAMPL\u{2026}TAIL (32 chars)"
    );
    // Exactly ten characters is still fully masked; eleven is not.
    assert_eq!(settings::redact("0123456789"), "********");
    assert_eq!(settings::redact("0123456789a"), "012345\u{2026}789a (11 chars)");
    // Characters, not bytes, are counted.
    assert_eq!(settings::redact("\u{e9}\u{e9}\u{e9}\u{e9}\u{e9}\u{e9}\u{e9}\u{e9}\u{e9}\u{e9}"), "********");
}

#[test]
fn empty_stored_values_fall_through_to_defaults() {
    let cfg = Settings {
        openai_api_key: Some(String::new()),
        openai_model: Some(String::new()),
        default_backend: Some(String::new()),
        default_output: Some(String::new()),
    };
    assert_eq!(settings::resolve_api_key(None, None, &cfg), None);
    assert_eq!(settings::resolve_model(None, Some(""), &cfg), settings::DEFAULT_MODEL);
    assert_eq!(settings::resolve_backend(Some(""), &cfg), "c");
    assert_eq!(settings::resolve_output(None, &cfg), "./output");
}

#[test]
fn set_field_updates_only_the_named_field() {
    let mut s = Settings::default();
    assert_eq!(settings::set_field(&mut s, "model", "m1".to_string()), Ok(()));
    assert_eq!(settings::set_field(&mut s, "default_backend", "c".to_string()), Ok(()));
    assert_eq!(settings::set_field(&mut s, "output", "out".to_string()), Ok(()));
    assert_eq!(s.openai_model.as_deref(), Some("m1"));
    assert_eq!(s.default_backend.as_deref(), Some("c"));
    assert_eq!(s.default_output.as_deref(), Some("out"));
    assert_eq!(s.openai_api_key, None);
}

#[test]
fn set_field_refuses_the_key_and_unknown_fields() {
    let mut s = Settings::default();
    let err = settings::set_field(&mut s, "api_key", "secret".to_string()).unwrap_err();
    assert!(err.contains("set-key"));
    assert_eq!(
        settings::set_field(&mut s, "colour", "blue".to_string()).unwrap_err(),
        "unknown field 'colour' (choose: model, backend, output)"
    );
    assert_eq!(s, Settings::default());
}

#[test]
fn config_location_follows_xdg_then_home() {
    assert_eq!(config_dir(Some("/x/cfg"), Some("/home/u")), "/x/cfg/forge");
    assert_eq!(config_dir(Some("/x/cfg/"), None), "/x/cfg/forge");
    assert_eq!(config_dir(Some(""), Some("/home/u")), "/home/u/.config/forge");
    assert_eq!(config_dir(None, Some("/home/u")), "/home/u/.config/forge");
    assert_eq!(config_dir(None, None), "./.config/forge");
    assert_eq!(config_dir(None, Some("")), ".config/forge");
    assert_eq!(config_path(None, Some("/home/u")), "/home/u/.config/forge/config.toml");
    // The same paths that `PathBuf::join` builds.
    let built = std::path::PathBuf::from("/home/u").join(".config").join("forge").join("config.toml");
    assert_eq!(config_path(None, Some("/home/u")), built.to_string_lossy());
}
