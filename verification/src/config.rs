//! Settings: the configured backends, the default backend and the prompt templates.
use vstd::prelude::*;

use crate::backend::BackendConfig;
use crate::name_map::NameMap;

verus! {

/// How a translation is presented.
#[derive(Debug, Clone, Copy, PartialEq, Eq, Structural)]
pub enum OutputFormat {
    PlainText,
    Markdown,
}

impl Default for OutputFormat {
    fn default() -> (r: Self)
        ensures
            r == OutputFormat::PlainText,
    {
        OutputFormat::PlainText
    }
}

/// The key of the prompt used for translation requests.
pub const TRANSLATION_PROMPT_KEY: &'static str = "translation";

/// The prompt template installed by default: `{text}`, `{source}` and `{target}`
/// stand for the text and the two language codes.
pub const DEFAULT_TRANSLATION_PROMPT: &'static str = "You are a professional translator. \nTranslate the following text accurately while preserving the original meaning and style. \nOnly return the translated text without any explanations or additional content.\n\nText to translate: {text}\nSource language: {source}\nTarget language: {target}";

/// The translator's settings.
pub struct Config {
    /// The backend used when none is named explicitly.
    pub default_backend: Option<String>,
    /// The configured backends, by name.
    pub backends: NameMap<BackendConfig>,
    /// Prompt templates, by name.
    pub prompts: NameMap<String>,
}

impl Default for Config {
    /// No default backend, no backends, and the translation prompt template.
    fn default() -> (r: Self)
        ensures
            r.default_backend is None,
            r.backends@ == Map::<Seq<char>, BackendConfig>::empty(),
            r.prompts@ == Map::<Seq<char>, String>::empty().insert(
                TRANSLATION_PROMPT_KEY@,
                r.prompts@[TRANSLATION_PROMPT_KEY@],
            ),
            r.prompts@[TRANSLATION_PROMPT_KEY@]@ == DEFAULT_TRANSLATION_PROMPT@,
            r.backends.pairs().len() == 0,
            r.prompts.pairs().len() == 1,
            r.prompts.pairs()[0].0 == TRANSLATION_PROMPT_KEY@,
            r.prompts.pairs()[0].1@ == DEFAULT_TRANSLATION_PROMPT@,
    {
        let mut prompts: NameMap<String> = NameMap::new();
        prompts.insert(
            String::from_str(TRANSLATION_PROMPT_KEY),
            String::from_str(DEFAULT_TRANSLATION_PROMPT),
        );
        Config { default_backend: None, backends: NameMap::new(), prompts }
    }
}

impl Config {
    /// The prompt template stored under `key`.
    pub fn get_prompt(&self, key: &str) -> (r: Option<&str>)
        ensures
            match r {
                Some(s) => self.prompts@.contains_key(key@) && s@ == self.prompts@[key@]@,
                None => !self.prompts@.contains_key(key@),
            },
    {
        match self.prompts.get(key) {
            Some(s) => Some(s.as_str()),
            None => None,
        }
    }
}

} // verus!
