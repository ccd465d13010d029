//! The HTML page that shows a text and its translation.
use vstd::prelude::*;

use crate::error::TranslationError;

verus! {

/// The style sheet at the top of the page.
pub const PAGE_STYLE: &'static str = r#"<style type="text/css">
.engine {
    font-family: "MiSansVF";
    font-size: 18px;
    color: #578bc5;
}
.originalText {
    font-size: 120%;
    font-family: "MiSansVF";
    font-weight: 600;
    display: inline-block;
    margin: 0rem 0rem 0rem 0rem;
    color: #2a5598;
    margin-bottom: 0.6rem;
}
.frame {
    margin: 1rem 0.5rem 0.5rem 0;
    padding: 0.7rem 0.5rem 0.5rem 0;
    border-top: 3px dashed #eaeef6;
}
definition {
    font-family: "MiSansVF";
    color: #2a5598;
    height: 120px;
    padding: 0.05em;
    font-weight: 500;
    font-size: 16px;
}
</style>"#;

/// What became of the translation: `None` when no default backend is configured.
pub open spec fn frame_text(outcome: Option<Result<Seq<char>, TranslationError>>) -> Seq<char> {
    match outcome {
        Some(Ok(t)) => "<div class=\"frame\">\n<definition>"@ + t + "</definition>\n</div>\n"@,
        Some(Err(_)) => "<div class=\"frame\">\n<definition>Translation failed</definition>\n</div>\n"@,
        None => "<div class=\"frame\">\n<definition>No default translation backend configured. Please set one in config.json.</definition>\n</div>\n"@,
    }
}

/// The top of the page: the style sheet and the source text.
pub open spec fn head_text(text: Seq<char>) -> Seq<char> {
    PAGE_STYLE@ + "\n"@ + "<div class=\"originalText\">"@ + text + "</div>\n"@ + "<br><br>\n"@
}

/// The bottom of the page: the translation frame and a closing line break.
pub open spec fn tail_text(outcome: Option<Result<Seq<char>, TranslationError>>) -> Seq<char> {
    frame_text(outcome) + "<br>\n"@
}

/// The outcome with its text taken by view.
pub open spec fn page_outcome(outcome: &Option<Result<String, TranslationError>>) -> Option<
    Result<Seq<char>, TranslationError>,
> {
    match outcome {
        Some(Ok(t)) => Some(Ok(t@)),
        Some(Err(e)) => Some(Err(*e)),
        None => None,
    }
}

/// Renders the top of the page that shows `text`, each line ended by a line feed.
pub fn page_head(text: &str) -> (r: String)
    ensures
        r@ == head_text(text@),
{
    let mut page = String::from_str(PAGE_STYLE);
    page.append("\n");
    page.append("<div class=\"originalText\">");
    page.append(text);
    page.append("</div>\n");
    page.append("<br><br>\n");
    page
}

/// Renders the bottom of the page: what became of the translation.
pub fn page_tail(outcome: &Option<Result<String, TranslationError>>) -> (r: String)
    ensures
        r@ == tail_text(page_outcome(outcome)),
{
    let mut page = String::new();
    match outcome {
        Some(Ok(t)) => {
            page.append("<div class=\"frame\">\n<definition>");
            page.append(t.as_str());
            page.append("</definition>\n</div>\n");
        },
        Some(Err(_)) => {
            page.append("<div class=\"frame\">\n<definition>Translation failed</definition>\n</div>\n");
        },
        None => {
            page.append("<div class=\"frame\">\n<definition>No default translation backend configured. Please set one in config.json.</definition>\n</div>\n");
        },
    }
    page.append("<br>\n");
    page
}

/// Renders the whole page that shows `text` and what became of its translation.
pub fn render_page(text: &str, outcome: &Option<Result<String, TranslationError>>) -> (r: String)
    ensures
        r@ == head_text(text@) + tail_text(page_outcome(outcome)),
{
    let mut page = page_head(text);
    let tail = page_tail(outcome);
    page.append(tail.as_str());
    page
}

} // verus!
