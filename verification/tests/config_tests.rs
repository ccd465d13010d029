use rs_translator::{Config, NameMap, OutputFormat, TranslationError};

#[test]
fn default_output_format_is_plain_text() {
    assert_eq!(OutputFormat::default(), OutputFormat::PlainText);
}

#[test]
fn default_config_holds_the_translation_prompt() {
    let config = Config::default();
    assert!(config.default_backend.is_none());
    assert_eq!(config.backends.len(), 0);
    assert_eq!(config.prompts.len(), 1);
    assert_eq!(config.prompts.entry(0).0, "translation");
    let prompt = config.get_prompt("translation").unwrap();
    assert!(prompt.starts_with("You are a professional translator. \n"));
    assert!(prompt.ends_with("Text to translate: {text}\nSource language: {source}\nTarget language: {target}"));
    assert_eq!(config.get_prompt("summary"), None);
}

#[test]
fn name_map_reads_back_what_was_written() {
    let mut m: NameMap<u32> = NameMap::new();
    assert_eq!(m.insert("a".to_string(), 1), None);
    assert_eq!(m.insert("b".to_string(), 2), None);
    assert_eq!(m.get("a"), Some(&1));
    assert_eq!(m.get("b"), Some(&2));
    assert_eq!(m.get("c"), None);
    assert_eq!(m.insert("a".to_string(), 3), Some(1));
    assert_eq!(m.get("a"), Some(&3));
    assert_eq!(m.len(), 2);
    let (k0, v0) = m.entry(0);
    assert_eq!((k0.as_str(), *v0), ("a", 3));
    let (k1, v1) = m.entry(1);
    assert_eq!((k1.as_str(), *v1), ("b", 2));
}

#[test]
fn error_messages() {
    assert_eq!(TranslationError::NoAvailableBackend.describe(), "No available translation backend");
    assert_eq!(
        TranslationError::TranslationFailed("timeout".to_string()).describe(),
        "Translation failed: timeout"
    );
    assert_eq!(
        TranslationError::ConfigError("missing".to_string()).describe(),
        "Configuration error: missing"
    );
    let io = std::io::Error::new(std::io::ErrorKind::Other, "disk full");
    assert_eq!(TranslationError::from(io).describe(), "IO error: disk full");
    let json = serde_json::from_str::<serde_json::Value>("{").unwrap_err();
    let text = json.to_string();
    let e: TranslationError = json.into();
    assert_eq!(e.describe(), format!("Serialization error: {}", text));
}
