use rs_translator::{render_page, TranslationError};

const STYLE_END: &str = "</style>\n";

#[test]
fn page_shows_the_translation() {
    let page = render_page("你好", &Some(Ok("Hello".to_string())));
    assert!(page.starts_with("<style type=\"text/css\">\n.engine {"));
    let body = &page[page.find(STYLE_END).unwrap() + STYLE_END.len()..];
    assert_eq!(
        body,
        "<div class=\"originalText\">你好</div>\n<br><br>\n<div class=\"frame\">\n<definition>Hello</definition>\n</div>\n<br>\n"
    );
}

#[test]
fn page_reports_a_failed_translation() {
    let page = render_page("hi", &Some(Err(TranslationError::NoAvailableBackend)));
    assert!(page.ends_with(
        "<div class=\"originalText\">hi</div>\n<br><br>\n<div class=\"frame\">\n<definition>Translation failed</definition>\n</div>\n<br>\n"
    ));
}

#[test]
fn page_reports_a_missing_default_backend() {
    let page = render_page("hi", &None);
    assert!(page.ends_with(
        "<div class=\"frame\">\n<definition>No default translation backend configured. Please set one in config.json.</definition>\n</div>\n<br>\n"
    ));
}
