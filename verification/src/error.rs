//! Errors reported by the translation library.
use vstd::prelude::*;

verus! {

/// The standard library's I/O error, carried opaquely.
#[verifier::external_type_specification]
#[verifier::external_body]
pub struct ExIoError(std::io::Error);

/// serde_json's error, carried opaquely.
#[verifier::external_type_specification]
#[verifier::external_body]
pub struct ExJsonError(serde_json::Error);

/// What can go wrong while translating.
#[derive(Debug)]
pub enum TranslationError {
    NoAvailableBackend,
    TranslationFailed(String),
    ConfigError(String),
    IoError(std::io::Error),
    SerdeError(serde_json::Error),
}

/// Whether `text` is the message of `e`: a fixed text for `NoAvailableBackend`, a
/// prefix and the carried message for the others (for I/O and JSON errors, the message
/// their `to_string` gives).
pub open spec fn describes(e: TranslationError, text: Seq<char>) -> bool {
    match e {
        TranslationError::NoAvailableBackend => text == "No available translation backend"@,
        TranslationError::TranslationFailed(msg) => text == "Translation failed: "@ + msg@,
        TranslationError::ConfigError(msg) => text == "Configuration error: "@ + msg@,
        TranslationError::IoError(e) => exists|t: String|
            #![auto]
            vstd::string::to_string_from_display_ensures::<std::io::Error>(&e, t) && text
                == "IO error: "@ + t@,
        TranslationError::SerdeError(e) => exists|t: String|
            #![auto]
            vstd::string::to_string_from_display_ensures::<serde_json::Error>(&e, t) && text
                == "Serialization error: "@ + t@,
    }
}

impl TranslationError {
    /// The human-readable message of the error.
    pub fn describe(&self) -> (r: String)
        ensures
            describes(*self, r@),
    {
        match self {
            TranslationError::NoAvailableBackend => String::from_str("No available translation backend"),
            TranslationError::TranslationFailed(msg) => {
                let mut r = String::from_str("Translation failed: ");
                r.append(msg.as_str());
                r
            },
            TranslationError::ConfigError(msg) => {
                let mut r = String::from_str("Configuration error: ");
                r.append(msg.as_str());
                r
            },
            TranslationError::IoError(e) => {
                let t = e.to_string();
                let mut r = String::from_str("IO error: ");
                r.append(t.as_str());
                r
            },
            TranslationError::SerdeError(e) => {
                let t = e.to_string();
                let mut r = String::from_str("Serialization error: ");
                r.append(t.as_str());
                r
            },
        }
    }
}

impl From<std::io::Error> for TranslationError {
    fn from(error: std::io::Error) -> (r: TranslationError) {
        TranslationError::IoError(error)
    }
}

impl vstd::std_specs::convert::FromSpecImpl<std::io::Error> for TranslationError {
    open spec fn obeys_from_spec() -> bool {
        true
    }

    open spec fn from_spec(v: std::io::Error) -> TranslationError {
        TranslationError::IoError(v)
    }
}

impl From<serde_json::Error> for TranslationError {
    fn from(error: serde_json::Error) -> (r: TranslationError) {
        TranslationError::SerdeError(error)
    }
}

impl vstd::std_specs::convert::FromSpecImpl<serde_json::Error> for TranslationError {
    open spec fn obeys_from_spec() -> bool {
        true
    }

    open spec fn from_spec(v: serde_json::Error) -> TranslationError {
        TranslationError::SerdeError(v)
    }
}

} // verus!
