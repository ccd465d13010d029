use rs_translator::{
    find_named, report_failures, settle, usable_backend_names, Attempt, TranslationBackend,
    TranslationError, TranslationManager,
};

struct MockBackend {
    name: &'static str,
    available: bool,
    response: Option<String>,
}

impl TranslationBackend for MockBackend {
    fn translate(&self, _text: &str, _from: &str, _to: &str) -> Result<String, TranslationError> {
        self.response
            .clone()
            .ok_or_else(|| TranslationError::TranslationFailed("Mock translation failed".to_string()))
    }

    fn name(&self) -> &'static str {
        self.name
    }

    fn is_available(&self) -> bool {
        self.available
    }
}

#[test]
fn test_translation_manager() {
    let mut manager = TranslationManager::new();

    let mock1 = MockBackend {
        name: "mock1",
        available: true,
        response: Some("Hello".to_string()),
    };

    let mock2 = MockBackend {
        name: "mock2",
        available: true,
        response: Some("Bonjour".to_string()),
    };

    manager.add_backend(Box::new(mock1));
    manager.add_backend(Box::new(mock2));

    assert_eq!(manager.list_available_backends(), vec!["mock1", "mock2"]);

    let result = manager.translate("test", "en", "fr").unwrap();
    assert_eq!(result, "Hello");

    let result = manager.translate_with("mock2", "test", "en", "fr").unwrap();
    assert_eq!(result, "Bonjour");
}

fn mock(name: &'static str, available: bool, response: Option<&str>) -> Box<MockBackend> {
    Box::new(MockBackend { name, available, response: response.map(|s| s.to_string()) })
}

#[test]
fn translate_skips_unusable_and_failing_backends() {
    let mut manager = TranslationManager::new();
    manager.add_backend(mock("off", false, Some("never")));
    manager.add_backend(mock("broken", true, None));
    manager.add_backend(mock("good", true, Some("Hallo")));
    manager.add_backend(mock("later", true, Some("Salut")));
    assert_eq!(manager.translate("hi", "en", "de").unwrap(), "Hallo");
    assert_eq!(manager.list_available_backends(), vec!["broken", "good", "later"]);
}

#[test]
fn translate_without_usable_backends_fails() {
    let manager = TranslationManager::default();
    assert!(matches!(manager.translate("hi", "en", "de"), Err(TranslationError::NoAvailableBackend)));
    let mut manager = TranslationManager::new();
    manager.add_backend(mock("off", false, Some("never")));
    manager.add_backend(mock("broken", true, None));
    assert!(matches!(manager.translate("hi", "en", "de"), Err(TranslationError::NoAvailableBackend)));
    assert!(manager.list_available_backends() == vec!["broken"]);
}

#[test]
fn translate_with_picks_the_named_usable_backend() {
    let mut manager = TranslationManager::new();
    manager.add_backend(mock("x", false, Some("first")));
    manager.add_backend(mock("x", true, Some("second")));
    manager.add_backend(mock("y", true, None));
    assert_eq!(manager.translate_with("x", "t", "a", "b").unwrap(), "second");
    match manager.translate_with("y", "t", "a", "b") {
        Err(TranslationError::TranslationFailed(msg)) => assert_eq!(msg, "Mock translation failed"),
        other => panic!("unexpected result: {:?}", other),
    }
    assert!(matches!(
        manager.translate_with("z", "t", "a", "b"),
        Err(TranslationError::NoAvailableBackend)
    ));
}

#[test]
fn translate_passes_over_a_failing_and_an_unusable_backend() {
    let mut manager = TranslationManager::new();
    manager.add_backend(mock("a", true, None));
    manager.add_backend(mock("b", false, Some("X")));
    manager.add_backend(mock("c", true, Some("Hola")));
    assert_eq!(manager.translate("t", "en", "es").unwrap(), "Hola");
}

#[test]
fn translate_with_does_not_fall_back_after_the_named_backend_fails() {
    let mut manager = TranslationManager::new();
    manager.add_backend(mock("a", false, Some("X")));
    manager.add_backend(mock("a", true, None));
    manager.add_backend(mock("a", true, Some("Y")));
    match manager.translate_with("a", "t", "en", "fr") {
        Err(TranslationError::TranslationFailed(msg)) => assert_eq!(msg, "Mock translation failed"),
        other => panic!("unexpected result: {:?}", other),
    }
}

#[test]
fn attempts_stop_at_the_first_translation() {
    let mut manager = TranslationManager::new();
    manager.add_backend(mock("off", false, None));
    manager.add_backend(mock("broken", true, None));
    manager.add_backend(mock("good", true, Some("Hallo")));
    manager.add_backend(mock("later", true, None));
    let attempts = manager.attempts("hi", "en", "de");
    assert_eq!(attempts.len(), 3);
    assert!(matches!(attempts[0], Attempt::Unavailable));
    assert!(matches!(attempts[1], Attempt::Failed { backend: "broken", .. }));
    assert!(matches!(&attempts[2], Attempt::Translated(s) if s == "Hallo"));
    assert_eq!(settle(&attempts).unwrap(), "Hallo");
    assert_eq!(
        report_failures(&attempts),
        vec!["Backend broken failed: Translation failed: Mock translation failed"]
    );
}

#[test]
fn reports_every_failed_backend_when_none_translates() {
    let mut manager = TranslationManager::new();
    manager.add_backend(mock("a", true, None));
    manager.add_backend(mock("b", false, None));
    manager.add_backend(mock("c", true, None));
    let attempts = manager.attempts("hi", "en", "de");
    assert_eq!(attempts.len(), 3);
    assert!(matches!(settle(&attempts), Err(TranslationError::NoAvailableBackend)));
    assert_eq!(
        report_failures(&attempts),
        vec![
            "Backend a failed: Translation failed: Mock translation failed",
            "Backend c failed: Translation failed: Mock translation failed",
        ]
    );
}

#[test]
fn settle_takes_the_first_translation() {
    let attempts = vec![
        Attempt::Unavailable,
        Attempt::Failed {
            backend: "x",
            error: TranslationError::ConfigError("bad key".to_string()),
        },
        Attempt::Translated("first".to_string()),
        Attempt::Translated("second".to_string()),
    ];
    assert_eq!(settle(&attempts).unwrap(), "first");
    assert_eq!(report_failures(&attempts), vec!["Backend x failed: Configuration error: bad key"]);
    assert!(matches!(settle(&Vec::new()), Err(TranslationError::NoAvailableBackend)));
    assert!(report_failures(&Vec::new()).is_empty());
}

#[test]
fn usable_names_keep_the_order_and_skip_unusable_backends() {
    let statuses = vec![("a", true), ("b", false), ("c", true)];
    assert_eq!(usable_backend_names(&statuses), vec!["a", "c"]);
    assert!(usable_backend_names(&vec![("a", false), ("b", false)]).is_empty());
    assert!(usable_backend_names(&Vec::new()).is_empty());
}

#[test]
fn find_named_takes_the_first_usable_backend_of_that_name() {
    let statuses = vec![("x", false), ("y", true), ("x", true), ("x", true)];
    assert_eq!(find_named(&statuses, "x"), Some(2));
    assert_eq!(find_named(&statuses, "y"), Some(1));
    assert_eq!(find_named(&statuses, "z"), None);
    assert_eq!(find_named(&vec![("x", false)], "x"), None);
}

#[test]
fn statuses_list_every_backend_in_order() {
    let mut manager = TranslationManager::new();
    manager.add_backend(mock("a", true, None));
    manager.add_backend(mock("b", false, None));
    assert_eq!(manager.statuses(), vec![("a", true), ("b", false)]);
}
