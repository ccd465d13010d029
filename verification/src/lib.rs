//! A small translation front end: language detection, request signing for
//! translation services, LaTeX-preserving Markdown rendering and backend selection.
use vstd::prelude::*;

pub mod backend;
pub mod config;
pub mod error;
pub mod language;
pub mod manager;
pub mod markdown;
pub mod name_map;
pub mod page;
pub mod text;

pub use backend::{
    Backend, BackendConfig, HttpRequest, OpenAICompatibleBackend, TencentBackend,
    TranslationBackend,
};
pub use config::{Config, OutputFormat};
pub use error::TranslationError;
pub use language::{count_languages, is_chinese, target_language};
pub use manager::{
    find_named, report_failures, settle, usable_backend_names, Attempt, TranslationManager,
};
pub use markdown::{markdown_to_html, protect_latex_formulas, restore_latex_formulas};
pub use name_map::NameMap;
pub use page::{page_head, page_tail, render_page};

verus! {
}
