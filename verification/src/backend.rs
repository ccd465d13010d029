//! Translation backends: the interface the manager drives, the configuration
//! that names a backend, and the request building and response reading of the
//! Tencent Cloud and OpenAI-compatible services.
use vstd::prelude::*;
use vstd::utf8::encode_utf8;

use crate::config::{Config, TRANSLATION_PROMPT_KEY};
use crate::error::TranslationError;
use crate::text::{
    decimal, decimal_string, hex_encode, hex_lower, json_quote, json_quoted, replace_all, replaced,
    trim_text, trimmed,
};

verus! {

/// A translation result with the text taken by its view.
pub open spec fn outcome_view(r: Result<String, TranslationError>) -> Result<
    Seq<char>,
    TranslationError,
> {
    match r {
        Ok(s) => Ok(s@),
        Err(e) => Err(e),
    }
}

/// A service that translates text.
///
/// The library has no implementation of its own: implementations (the program's network
/// backends, test doubles) are written outside it, so nothing is assumed of what their
/// methods return: contracts speak of an answer only as one that the call can give
/// (`translates_to`, `reports_available`, `reports_name`), and the manager's decisions are
/// stated over the values the backends returned (see `manager::Attempt`).
pub trait TranslationBackend: Send + Sync {
    /// Translates the given text from the source language to the target language.
    fn translate(&self, text: &str, from: &str, to: &str) -> Result<String, TranslationError>;

    /// The name of this backend.
    fn name(&self) -> &'static str;

    /// Whether this backend can be used (e.g. has valid credentials).
    fn is_available(&self) -> bool;
}

/// `r` is an answer that `b.translate(text, from, to)` can give.
pub open spec fn translates_to<B: TranslationBackend + ?Sized>(
    b: &Box<B>,
    text: &str,
    from: &str,
    to: &str,
    r: Result<String, TranslationError>,
) -> bool {
    call_ensures(B::translate, (&**b, text, from, to), r)
}

/// `r` is an answer that `b.is_available()` can give.
pub open spec fn reports_available<B: TranslationBackend + ?Sized>(b: &Box<B>, r: bool) -> bool {
    call_ensures(B::is_available, (&**b,), r)
}

/// `r` is an answer that `b.name()` can give.
pub open spec fn reports_name<B: TranslationBackend + ?Sized>(b: &Box<B>, r: &'static str) -> bool {
    call_ensures(B::name, (&**b,), r)
}

/// The settings that describe one backend.
#[derive(Debug, Clone)]
pub enum BackendConfig {
    Tencent { secret_id: String, secret_key: String },
    OpenAICompatible { name: String, api_key: String, model: String, api_base: String },
}

/// A backend built from its settings.
pub enum Backend {
    Tencent(TencentBackend),
    OpenAICompatible(OpenAICompatibleBackend),
}

impl BackendConfig {
    /// The backend these settings describe.
    pub fn as_backend(&self) -> (r: Backend)
        ensures
            match (self, r) {
                (BackendConfig::Tencent { secret_id, secret_key }, Backend::Tencent(b)) => {
                    &&& b.secret_id_view() == secret_id@
                    &&& b.secret_key_view() == secret_key@
                },
                (
                    BackendConfig::OpenAICompatible { name, api_key, model, api_base },
                    Backend::OpenAICompatible(b),
                ) => {
                    &&& b.name_view() == name@
                    &&& b.api_key_view() == api_key@
                    &&& b.model_view() == model@
                    &&& b.api_base_view() == api_base@
                },
                _ => false,
            },
    {
        match self {
            BackendConfig::Tencent { secret_id, secret_key } => {
                Backend::Tencent(TencentBackend::new(secret_id.clone(), secret_key.clone()))
            },
            BackendConfig::OpenAICompatible { name, api_key, model, api_base } => {
                Backend::OpenAICompatible(
                    OpenAICompatibleBackend::new(
                        name.clone(),
                        api_key.clone(),
                        model.clone(),
                        api_base.clone(),
                    ),
                )
            },
        }
    }
}

/// An HTTP POST request: where it goes, its headers in order, and its body.
pub struct HttpRequest {
    pub url: String,
    pub headers: Vec<(String, String)>,
    pub body: String,
}

/// The content of an [`HttpRequest`].
pub struct RequestView {
    pub url: Seq<char>,
    pub headers: Seq<(Seq<char>, Seq<char>)>,
    pub body: Seq<char>,
}

impl View for HttpRequest {
    type V = RequestView;

    open spec fn view(&self) -> RequestView {
        RequestView {
            url: self.url@,
            headers: self.headers@.map_values(|h: (String, String)| (h.0@, h.1@)),
            body: self.body@,
        }
    }
}

/// Whether `r` is a `TranslationFailed` error with the message `msg`.
pub open spec fn failed_with(r: Result<String, TranslationError>, msg: Seq<char>) -> bool {
    r matches Err(TranslationError::TranslationFailed(m)) && m@ == msg
}

/// The SHA-256 digest of `data`.
pub uninterp spec fn sha256(data: Seq<u8>) -> Seq<u8>;

/// HMAC-SHA256 of `msg` under `key`.
pub uninterp spec fn hmac_sha256(key: Seq<u8>, msg: Seq<u8>) -> Seq<u8>;

/// The UTC calendar date of a Unix timestamp (in seconds), as chrono writes a
/// `NaiveDate`, or `None` where chrono cannot represent the instant.
pub uninterp spec fn utc_date(timestamp: u64) -> Option<Seq<char>>;

/// Reading a reply with serde_json: `None` when the bytes are not a JSON document;
/// otherwise the string at `value[first][second]` (indexing as serde_json's `Index`
/// does, `None` when that is not a string) and the `Debug` rendering of the value.
pub uninterp spec fn json_reply_by_keys(body: Seq<u8>, first: Seq<char>, second: Seq<char>) -> Option<
    (Option<Seq<char>>, Seq<char>),
>;

/// Reading a reply with serde_json: `None` when the bytes are not a JSON document;
/// otherwise the string at `value[list][index][first][second]` (indexing as
/// serde_json's `Index` does: an integer index reaches into arrays only; `None` when
/// that is not a string) and the `Debug` rendering of the value.
pub uninterp spec fn json_reply_in_list(
    body: Seq<u8>,
    list: Seq<char>,
    index: usize,
    first: Seq<char>,
    second: Seq<char>,
) -> Option<(Option<Seq<char>>, Seq<char>)>;

/// A reading of a reply with its strings taken by view.
pub open spec fn reading_view(r: Option<(Option<String>, String)>) -> Option<
    (Option<Seq<char>>, Seq<char>),
> {
    match r {
        None => None,
        Some((Some(s), d)) => Some((Some(s@), d@)),
        Some((None, d)) => Some((None, d@)),
    }
}

/// SHA-256 with ring (`ring::digest::digest` with `SHA256`); the contract claims that
/// the digest is a function of the data alone and is 32 bytes long (`SHA256`'s
/// `output_len`).
#[verifier::external_body]
fn sha256_digest(data: &[u8]) -> (r: Vec<u8>)
    ensures
        r@ == sha256(data@),
        r@.len() == 32,
{
    ring::digest::digest(&ring::digest::SHA256, data).as_ref().to_vec()
}

/// The calendar date of a Unix timestamp with chrono (`DateTime::from_timestamp`, then
/// `date_naive` written with `to_string`, which is the `%Y-%m-%d` form); the contract
/// claims that the result is a function of the timestamp alone.
#[verifier::external_body]
fn utc_date_of(timestamp: u64) -> (r: Option<String>)
    ensures
        match r {
            Some(d) => utc_date(timestamp) == Some(d@),
            None => utc_date(timestamp) is None,
        },
{
    match chrono::DateTime::from_timestamp(timestamp as i64, 0) {
        Some(d) => Some(d.date_naive().to_string()),
        None => None,
    }
}

/// Seconds since the Unix epoch from the system clock (`SystemTime::now` and
/// `duration_since(UNIX_EPOCH)`), or the clock error's message. Nothing is claimed of
/// the value, which depends on the time.
#[verifier::external_body]
fn seconds_since_epoch() -> (r: Result<u64, String>) {
    match std::time::SystemTime::now().duration_since(std::time::UNIX_EPOCH) {
        Ok(d) => Ok(d.as_secs()),
        Err(e) => Err(e.to_string()),
    }
}

/// `reading` is a value that reading the system clock (`seconds_since_epoch`) can give:
/// the seconds since the Unix epoch at the moment of the reading, or the clock's error.
pub closed spec fn clock_gives(reading: Result<u64, String>) -> bool {
    call_ensures(seconds_since_epoch, (), reading)
}

/// Parses a reply with `serde_json::from_slice` into a `Value`; on success gives the
/// string at `value[first][second]` (`Index<&str>`, then `Value::as_str`) and the
/// value's `Debug` rendering. The contract names the result as a function of the bytes
/// and the keys.
#[verifier::external_body]
fn read_json_by_keys(body: &[u8], first: &str, second: &str) -> (r: Option<(Option<String>, String)>)
    ensures
        reading_view(r) == json_reply_by_keys(body@, first@, second@),
{
    let v: serde_json::Value = match serde_json::from_slice(body) {
        Ok(v) => v,
        Err(_) => return None,
    };
    let found = match v[first][second].as_str() {
        Some(x) => Some(x.to_string()),
        None => None,
    };
    Some((found, format!("{:?}", v)))
}

/// Parses a reply with `serde_json::from_slice` into a `Value`; on success gives the
/// string at `value[list][index][first][second]` (`Index<&str>` and `Index<usize>`, then
/// `Value::as_str`) and the value's `Debug` rendering. The contract names the result as
/// a function of the bytes, the keys and the index.
#[verifier::external_body]
fn read_json_in_list(body: &[u8], list: &str, index: usize, first: &str, second: &str) -> (r:
    Option<(Option<String>, String)>)
    ensures
        reading_view(r) == json_reply_in_list(body@, list@, index, first@, second@),
{
    let v: serde_json::Value = match serde_json::from_slice(body) {
        Ok(v) => v,
        Err(_) => return None,
    };
    let found = match v[list][index][first][second].as_str() {
        Some(x) => Some(x.to_string()),
        None => None,
    };
    Some((found, format!("{:?}", v)))
}

/// The message of a reply whose body is not JSON (what reqwest reports when it cannot
/// decode a response body).
pub const DECODE_ERROR_MESSAGE: &'static str = "error decoding response body";

/// The outcome of a reply, given how its JSON reads: the string found when there is
/// one; otherwise a `TranslationFailed` error, with [`DECODE_ERROR_MESSAGE`] when the
/// reply is not JSON, or with `prefix` followed by the debug rendering of the reply.
pub fn reply_outcome(reading: Option<(Option<String>, String)>, prefix: &str) -> (r: Result<
    String,
    TranslationError,
>)
    ensures
        match reading {
            None => failed_with(r, DECODE_ERROR_MESSAGE@),
            Some((Some(s), _)) => r matches Ok(t) && t@ == s@,
            Some((None, dbg)) => failed_with(r, prefix@ + dbg@),
        },
{
    match reading {
        None => Err(TranslationError::TranslationFailed(String::from_str(DECODE_ERROR_MESSAGE))),
        Some((Some(s), _)) => Ok(s),
        Some((None, dbg)) => {
            let mut m = String::from_str(prefix);
            m.append(dbg.as_str());
            Err(TranslationError::TranslationFailed(m))
        },
    }
}


pub const TENCENT_SERVICE: &'static str = "tmt";

pub const TENCENT_HOST: &'static str = "tmt.tencentcloudapi.com";

pub const TENCENT_REGION: &'static str = "ap-guangzhou";

pub const TENCENT_VERSION: &'static str = "2018-03-21";

pub const TENCENT_ACTION: &'static str = "TextTranslate";

/// The action name in lower case, as it stands in the canonical headers.
pub const TENCENT_ACTION_LOWER: &'static str = "texttranslate";

pub const TENCENT_ENDPOINT: &'static str = "https://tmt.tencentcloudapi.com";

pub const TENCENT_ALGORITHM: &'static str = "TC3-HMAC-SHA256";

pub const TENCENT_CONTENT_TYPE: &'static str = "application/json; charset=utf-8";

pub const TENCENT_SIGNED_HEADERS: &'static str = "content-type;host;x-tc-action";

/// The outer key of a Tencent reply.
pub const TENCENT_REPLY_KEY: &'static str = "Response";

/// The key of the translated text inside a Tencent reply.
pub const TENCENT_TEXT_KEY: &'static str = "TargetText";

/// The JSON body of a Tencent translation request, keys in serde_json's order.
pub open spec fn tencent_payload(text: Seq<char>, from: Seq<char>, to: Seq<char>) -> Seq<char> {
    "{\"ProjectId\":0,\"Source\":"@ + json_quoted(from) + ",\"SourceText\":"@ + json_quoted(text)
        + ",\"Target\":"@ + json_quoted(to) + "}"@
}

/// The canonical headers of a Tencent request.
pub open spec fn tencent_canonical_headers() -> Seq<char> {
    "content-type:"@ + TENCENT_CONTENT_TYPE@ + "\nhost:"@ + TENCENT_HOST@ + "\nx-tc-action:"@
        + TENCENT_ACTION_LOWER@ + "\n"@
}

/// The canonical request: method, path, empty query, canonical headers, signed
/// headers and the payload's SHA-256 digest in hex, one per line.
pub open spec fn tencent_canonical_request(payload_digest: Seq<u8>) -> Seq<char> {
    "POST\n/\n\n"@ + tencent_canonical_headers() + "\n"@ + TENCENT_SIGNED_HEADERS@ + "\n"@
        + hex_lower(payload_digest)
}

/// The credential scope of a request made on `date`.
pub open spec fn tencent_credential_scope(date: Seq<char>) -> Seq<char> {
    date + "/"@ + TENCENT_SERVICE@ + "/tc3_request"@
}

/// The string to sign: algorithm, timestamp, credential scope and the canonical
/// request's SHA-256 digest in hex, one per line.
pub open spec fn tencent_string_to_sign(
    timestamp: u64,
    date: Seq<char>,
    request_digest: Seq<u8>,
) -> Seq<char> {
    TENCENT_ALGORITHM@ + "\n"@ + decimal(timestamp as nat) + "\n"@ + tencent_credential_scope(date)
        + "\n"@ + hex_lower(request_digest)
}

/// The signing key: `TC3` and the secret key, chained through HMAC-SHA256 with the
/// date, the service and `tc3_request`.
pub open spec fn tencent_signing_key(secret_key: Seq<char>, date: Seq<char>) -> Seq<u8> {
    hmac_sha256(
        hmac_sha256(
            hmac_sha256(encode_utf8("TC3"@ + secret_key), encode_utf8(date)),
            encode_utf8(TENCENT_SERVICE@),
        ),
        encode_utf8("tc3_request"@),
    )
}

/// The `Authorization` header value.
pub open spec fn tencent_authorization(
    secret_id: Seq<char>,
    scope: Seq<char>,
    signature: Seq<u8>,
) -> Seq<char> {
    TENCENT_ALGORITHM@ + " Credential="@ + secret_id + "/"@ + scope + ", SignedHeaders="@
        + TENCENT_SIGNED_HEADERS@ + ", Signature="@ + hex_lower(signature)
}

/// The headers of a Tencent request, in order.
pub open spec fn tencent_header_list(authorization: Seq<char>, timestamp: u64) -> Seq<
    (Seq<char>, Seq<char>),
> {
    seq![
        ("Authorization"@, authorization),
        ("Content-Type"@, TENCENT_CONTENT_TYPE@),
        ("Host"@, TENCENT_HOST@),
        ("X-TC-Action"@, TENCENT_ACTION@),
        ("X-TC-Timestamp"@, decimal(timestamp as nat)),
        ("X-TC-Version"@, TENCENT_VERSION@),
        ("X-TC-Region"@, TENCENT_REGION@),
    ]
}

/// Writes the JSON body of a Tencent translation request.
pub fn tencent_payload_text(text: &str, from: &str, to: &str) -> (r: String)
    ensures
        r@ == tencent_payload(text@, from@, to@),
{
    let mut payload = String::from_str("{\"ProjectId\":0,\"Source\":");
    payload.append(json_quote(from).as_str());
    payload.append(",\"SourceText\":");
    payload.append(json_quote(text).as_str());
    payload.append(",\"Target\":");
    payload.append(json_quote(to).as_str());
    payload.append("}");
    payload
}

/// Writes the canonical request for a payload with the given SHA-256 digest.
pub fn tencent_canonical_request_text(payload_digest: &[u8]) -> (r: String)
    ensures
        r@ == tencent_canonical_request(payload_digest@),
{
    let mut canonical_request = String::from_str("POST\n/\n\n");
    canonical_request.append("content-type:");
    canonical_request.append(TENCENT_CONTENT_TYPE);
    canonical_request.append("\nhost:");
    canonical_request.append(TENCENT_HOST);
    canonical_request.append("\nx-tc-action:");
    canonical_request.append(TENCENT_ACTION_LOWER);
    canonical_request.append("\n");
    canonical_request.append("\n");
    canonical_request.append(TENCENT_SIGNED_HEADERS);
    canonical_request.append("\n");
    canonical_request.append(hex_encode(payload_digest).as_str());
    assert(canonical_request@ =~= tencent_canonical_request(payload_digest@));
    canonical_request
}

/// Writes the credential scope of a request made on `date`.
pub fn tencent_credential_scope_text(date: &str) -> (r: String)
    ensures
        r@ == tencent_credential_scope(date@),
{
    let mut credential_scope = String::from_str(date);
    credential_scope.append("/");
    credential_scope.append(TENCENT_SERVICE);
    credential_scope.append("/tc3_request");
    credential_scope
}

/// Writes the string to sign for a request stamped `timestamp` on `date` whose
/// canonical request has the given SHA-256 digest.
pub fn tencent_string_to_sign_text(timestamp: u64, date: &str, request_digest: &[u8]) -> (r:
    String)
    ensures
        r@ == tencent_string_to_sign(timestamp, date@, request_digest@),
{
    let mut string_to_sign = String::from_str(TENCENT_ALGORITHM);
    string_to_sign.append("\n");
    string_to_sign.append(decimal_string(timestamp).as_str());
    string_to_sign.append("\n");
    string_to_sign.append(tencent_credential_scope_text(date).as_str());
    string_to_sign.append("\n");
    string_to_sign.append(hex_encode(request_digest).as_str());
    assert(string_to_sign@ =~= tencent_string_to_sign(timestamp, date@, request_digest@));
    string_to_sign
}

/// Writes the `Authorization` header value for the given secret id, date and signature.
pub fn tencent_authorization_text(secret_id: &str, date: &str, signature: &[u8]) -> (r: String)
    ensures
        r@ == tencent_authorization(secret_id@, tencent_credential_scope(date@), signature@),
{
    let mut authorization = String::from_str(TENCENT_ALGORITHM);
    authorization.append(" Credential=");
    authorization.append(secret_id);
    authorization.append("/");
    authorization.append(tencent_credential_scope_text(date).as_str());
    authorization.append(", SignedHeaders=");
    authorization.append(TENCENT_SIGNED_HEADERS);
    authorization.append(", Signature=");
    authorization.append(hex_encode(signature).as_str());
    assert(authorization@ =~= tencent_authorization(
        secret_id@,
        tencent_credential_scope(date@),
        signature@,
    ));
    authorization
}

/// Lists the headers of a Tencent request.
pub fn tencent_headers(authorization: String, timestamp: u64) -> (r: Vec<(String, String)>)
    ensures
        r@.map_values(|h: (String, String)| (h.0@, h.1@)) == tencent_header_list(
            authorization@,
            timestamp,
        ),
{
    let mut headers: Vec<(String, String)> = Vec::new();
    let ghost auth = authorization@;
    headers.push((String::from_str("Authorization"), authorization));
    headers.push((String::from_str("Content-Type"), String::from_str(TENCENT_CONTENT_TYPE)));
    headers.push((String::from_str("Host"), String::from_str(TENCENT_HOST)));
    headers.push((String::from_str("X-TC-Action"), String::from_str(TENCENT_ACTION)));
    headers.push((String::from_str("X-TC-Timestamp"), decimal_string(timestamp)));
    headers.push((String::from_str("X-TC-Version"), String::from_str(TENCENT_VERSION)));
    headers.push((String::from_str("X-TC-Region"), String::from_str(TENCENT_REGION)));
    assert(headers@.map_values(|h: (String, String)| (h.0@, h.1@)) =~= tencent_header_list(
        auth,
        timestamp,
    ));
    headers
}

/// The TC3 signature of a request with the given payload, stamped `timestamp` on `date`:
/// HMAC-SHA256 of the string to sign under the signing key.
pub open spec fn tencent_signature(
    secret_key: Seq<char>,
    date: Seq<char>,
    payload: Seq<char>,
    timestamp: u64,
) -> Seq<u8> {
    let creq = tencent_canonical_request(sha256(encode_utf8(payload)));
    let sts = tencent_string_to_sign(timestamp, date, sha256(encode_utf8(creq)));
    hmac_sha256(tencent_signing_key(secret_key, date), encode_utf8(sts))
}

/// The signed Tencent request for the given credentials, text, languages and time,
/// or `None` when the time has no calendar date.
pub open spec fn tencent_request(
    secret_id: Seq<char>,
    secret_key: Seq<char>,
    text: Seq<char>,
    from: Seq<char>,
    to: Seq<char>,
    timestamp: u64,
) -> Option<RequestView> {
    match utc_date(timestamp) {
        None => None,
        Some(date) => {
            let payload = tencent_payload(text, from, to);
            let signature = tencent_signature(secret_key, date, payload, timestamp);
            let auth = tencent_authorization(
                secret_id,
                tencent_credential_scope(date),
                signature,
            );
            Some(
                RequestView {
                    url: TENCENT_ENDPOINT@,
                    headers: tencent_header_list(auth, timestamp),
                    body: payload,
                },
            )
        },
    }
}

/// The secret key reaches a Tencent request only through the signature: two requests
/// that differ only in the secret key are both built or both refused, and then have the
/// same URL, the same body and the same headers, except that the `Authorization`
/// header of each carries the signature made with its own key.
pub proof fn law_secret_key_only_in_signature(
    secret_id: Seq<char>,
    key1: Seq<char>,
    key2: Seq<char>,
    text: Seq<char>,
    from: Seq<char>,
    to: Seq<char>,
    timestamp: u64,
)
    ensures
        tencent_request(secret_id, key1, text, from, to, timestamp) is Some <==> tencent_request(
            secret_id,
            key2,
            text,
            from,
            to,
            timestamp,
        ) is Some,
        tencent_request(secret_id, key1, text, from, to, timestamp) is Some ==> ({
            let r1 = tencent_request(secret_id, key1, text, from, to, timestamp)->0;
            let r2 = tencent_request(secret_id, key2, text, from, to, timestamp)->0;
            let date = utc_date(timestamp)->0;
            &&& r1.url == r2.url
            &&& r1.body == r2.body
            &&& r1.headers.len() == r2.headers.len()
            &&& forall|i: int| 1 <= i < r1.headers.len() ==> r1.headers[i] == r2.headers[i]
            &&& r1.headers[0] == ("Authorization"@, tencent_authorization(
                secret_id,
                tencent_credential_scope(date),
                tencent_signature(key1, date, r1.body, timestamp),
            ))
            &&& r2.headers[0] == ("Authorization"@, tencent_authorization(
                secret_id,
                tencent_credential_scope(date),
                tencent_signature(key2, date, r2.body, timestamp),
            ))
        }),
{
}

/// Tencent Cloud machine translation.
pub struct TencentBackend {
    secret_id: String,
    secret_key: String,
}

impl TencentBackend {
    /// The secret id.
    pub closed spec fn secret_id_view(&self) -> Seq<char> {
        self.secret_id@
    }

    /// The secret key.
    pub closed spec fn secret_key_view(&self) -> Seq<char> {
        self.secret_key@
    }

    /// A backend with the given credentials.
    pub fn new(secret_id: String, secret_key: String) -> (r: Self)
        ensures
            r.secret_id_view() == secret_id@,
            r.secret_key_view() == secret_key@,
    {
        Self { secret_id, secret_key }
    }

    /// HMAC-SHA256 of `msg` under `key` with ring (`hmac::Key::new` with
    /// `HMAC_SHA256`, then `hmac::sign`); the contract claims that the tag is a
    /// function of the key and the message alone and is 32 bytes long (the output
    /// length of SHA-256).
    #[verifier::external_body]
    fn sign(&self, key: &[u8], msg: &[u8]) -> (r: Vec<u8>)
        ensures
            r@ == hmac_sha256(key@, msg@),
            r@.len() == 32,
    {
        let s_key = ring::hmac::Key::new(ring::hmac::HMAC_SHA256, key);
        ring::hmac::sign(&s_key, msg).as_ref().to_vec()
    }

    /// The backend's name, `tencent`.
    pub fn name(&self) -> (r: &'static str)
        ensures
            r@ == "tencent"@,
    {
        "tencent"
    }

    /// Usable when both the secret id and the secret key are non-empty.
    pub fn is_available(&self) -> (r: bool)
        ensures
            r == (self.secret_id_view().len() > 0 && self.secret_key_view().len() > 0),
    {
        !self.secret_id.as_str().is_empty() && !self.secret_key.as_str().is_empty()
    }

    /// Builds the signed request (TC3-HMAC-SHA256) that asks for `text`, written in
    /// `from`, to be rendered in `to`, stamped with `timestamp` (Unix seconds).
    pub fn signed_request(&self, text: &str, from: &str, to: &str, timestamp: u64) -> (r: Result<
        HttpRequest,
        TranslationError,
    >)
        ensures
            match r {
                Ok(req) => {
                    &&& tencent_request(
                        self.secret_id_view(),
                        self.secret_key_view(),
                        text@,
                        from@,
                        to@,
                        timestamp,
                    ) == Some(req@)
                    &&& tencent_signature(
                        self.secret_key_view(),
                        utc_date(timestamp)->0,
                        tencent_payload(text@, from@, to@),
                        timestamp,
                    ).len() == 32
                    &&& hex_lower(
                        tencent_signature(
                            self.secret_key_view(),
                            utc_date(timestamp)->0,
                            tencent_payload(text@, from@, to@),
                            timestamp,
                        ),
                    ).len() == 64
                },
                Err(e) => {
                    &&& tencent_request(
                        self.secret_id_view(),
                        self.secret_key_view(),
                        text@,
                        from@,
                        to@,
                        timestamp,
                    ) is None
                    &&& e matches TranslationError::TranslationFailed(m)
                    &&& m@ == "Failed to get date"@
                },
            },
    {
        let date = match utc_date_of(timestamp) {
            Some(d) => d,
            None => {
                return Err(TranslationError::TranslationFailed(String::from_str("Failed to get date")));
            },
        };
        // The request body.
        let payload = tencent_payload_text(text, from, to);
        // Step 1: the canonical request.
        let payload_digest = sha256_digest(payload.as_str().as_bytes());
        let canonical_request = tencent_canonical_request_text(payload_digest.as_slice());
        // Step 2: the string to sign.
        let request_digest = sha256_digest(canonical_request.as_str().as_bytes());
        let string_to_sign = tencent_string_to_sign_text(
            timestamp,
            date.as_str(),
            request_digest.as_slice(),
        );
        // Step 3: the signature.
        let mut prefixed_key = String::from_str("TC3");
        prefixed_key.append(self.secret_key.as_str());
        let secret_date = self.sign(prefixed_key.as_str().as_bytes(), date.as_str().as_bytes());
        let secret_service = self.sign(secret_date.as_slice(), TENCENT_SERVICE.as_bytes());
        let secret_signing = self.sign(secret_service.as_slice(), "tc3_request".as_bytes());
        let signature = self.sign(secret_signing.as_slice(), string_to_sign.as_str().as_bytes());
        // Step 4: the authorization header.
        let authorization = tencent_authorization_text(
            self.secret_id.as_str(),
            date.as_str(),
            signature.as_slice(),
        );
        proof {
            crate::text::lemma_hex_lower_len(signature@);
        }
        // Step 5: the request.
        let headers = tencent_headers(authorization, timestamp);
        let req = HttpRequest { url: String::from_str(TENCENT_ENDPOINT), headers, body: payload };
        Ok(req)
    }

    /// Builds the signed translation request, stamped with the current time.
    pub fn request(&self, text: &str, from: &str, to: &str) -> (r: Result<
        HttpRequest,
        TranslationError,
    >)
        ensures
            match r {
                Ok(req) => exists|timestamp: u64|
                    tencent_request(
                        self.secret_id_view(),
                        self.secret_key_view(),
                        text@,
                        from@,
                        to@,
                        timestamp,
                    ) == Some(#[trigger] req@),
                Err(e) => e is TranslationFailed,
            },
            exists|reading: Result<u64, String>|
                #[trigger] clock_gives(reading) && match reading {
                    Ok(timestamp) => match r {
                        Ok(req) => tencent_request(
                            self.secret_id_view(),
                            self.secret_key_view(),
                            text@,
                            from@,
                            to@,
                            timestamp,
                        ) == Some(req@),
                        Err(e) => tencent_request(
                            self.secret_id_view(),
                            self.secret_key_view(),
                            text@,
                            from@,
                            to@,
                            timestamp,
                        ) is None && e is TranslationFailed,
                    },
                    Err(msg) => r matches Err(TranslationError::TranslationFailed(m)) && m == msg,
                },
    {
        let reading = seconds_since_epoch();
        assert(clock_gives(reading));
        match reading {
            Ok(timestamp) => self.signed_request(text, from, to, timestamp),
            Err(msg) => Err(TranslationError::TranslationFailed(msg)),
        }
    }

    /// Reads the translation out of a Tencent reply: the string at
    /// `reply["Response"]["TargetText"]`; otherwise a `TranslationFailed` error, with
    /// [`DECODE_ERROR_MESSAGE`] when the reply is not JSON or with
    /// `API response error: ` and the parsed reply.
    pub fn read_response(body: &[u8]) -> (r: Result<String, TranslationError>)
        ensures
            match json_reply_by_keys(body@, TENCENT_REPLY_KEY@, TENCENT_TEXT_KEY@) {
                None => failed_with(r, DECODE_ERROR_MESSAGE@),
                Some((Some(s), _)) => r matches Ok(t) && t@ == s,
                Some((None, dbg)) => failed_with(r, "API response error: "@ + dbg),
            },
    {
        let reading = read_json_by_keys(body, TENCENT_REPLY_KEY, TENCENT_TEXT_KEY);
        reply_outcome(reading, "API response error: ")
    }
}

/// The instruction sent as the system message to OpenAI-compatible services.
pub const OPENAI_SYSTEM_PROMPT: &'static str = "You are a professional translator.";

/// The list of choices in a chat completion reply.
pub const OPENAI_CHOICES_KEY: &'static str = "choices";

/// The message of a choice.
pub const OPENAI_MESSAGE_KEY: &'static str = "message";

/// The text of a message.
pub const OPENAI_CONTENT_KEY: &'static str = "content";

/// The prompt: the template with `{text}`, then `{source}`, then `{target}` replaced.
pub open spec fn openai_prompt(
    template: Seq<char>,
    text: Seq<char>,
    from: Seq<char>,
    to: Seq<char>,
) -> Seq<char> {
    replaced(replaced(replaced(template, "{text}"@, text), "{source}"@, from), "{target}"@, to)
}

/// The JSON body of a chat completion request, keys in serde_json's order.
pub open spec fn openai_body(model: Seq<char>, prompt: Seq<char>) -> Seq<char> {
    "{\"messages\":[{\"content\":"@ + json_quoted(OPENAI_SYSTEM_PROMPT@)
        + ",\"role\":\"system\"},{\"content\":"@ + json_quoted(prompt)
        + ",\"role\":\"user\"}],\"model\":"@ + json_quoted(model) + ",\"temperature\":0.3}"@
}

/// The chat completion request for a prompt.
pub open spec fn openai_request(
    api_key: Seq<char>,
    model: Seq<char>,
    api_base: Seq<char>,
    prompt: Seq<char>,
) -> RequestView {
    RequestView {
        url: api_base + "/chat/completions"@,
        headers: seq![
            ("Authorization"@, "Bearer "@ + api_key),
            ("Content-Type"@, "application/json"@),
        ],
        body: openai_body(model, prompt),
    }
}

/// The start of the error message for a reply without a translation:
/// `Failed to get translation` followed by ` from API response: `.
pub open spec fn openai_failure_prefix() -> Seq<char> {
    "Failed to get translation"@ + " from API response: "@
}

/// A service that speaks the OpenAI chat completion protocol.
pub struct OpenAICompatibleBackend {
    name: String,
    api_key: String,
    model: String,
    api_base: String,
}

impl OpenAICompatibleBackend {
    /// The name.
    pub closed spec fn name_view(&self) -> Seq<char> {
        self.name@
    }

    /// The API key.
    pub closed spec fn api_key_view(&self) -> Seq<char> {
        self.api_key@
    }

    /// The model.
    pub closed spec fn model_view(&self) -> Seq<char> {
        self.model@
    }

    /// The base URL of the service.
    pub closed spec fn api_base_view(&self) -> Seq<char> {
        self.api_base@
    }

    /// A backend with the given settings.
    pub fn new(name: String, api_key: String, model: String, api_base: String) -> (r: Self)
        ensures
            r.name_view() == name@,
            r.api_key_view() == api_key@,
            r.model_view() == model@,
            r.api_base_view() == api_base@,
    {
        Self { name, api_key, model, api_base }
    }

    /// The backend's configured name.
    pub fn name(&self) -> (r: &str)
        ensures
            r@ == self.name_view(),
    {
        self.name.as_str()
    }

    /// Usable when the API key, the model and the base URL are all non-empty.
    pub fn is_available(&self) -> (r: bool)
        ensures
            r == (self.api_key_view().len() > 0 && self.model_view().len() > 0
                && self.api_base_view().len() > 0),
    {
        !self.api_key.as_str().is_empty() && !self.model.as_str().is_empty()
            && !self.api_base.as_str().is_empty()
    }

    /// Builds the chat completion request that asks for `text`, written in `from`,
    /// to be rendered in `to`, with the prompt made from the configured translation template;
    /// a `ConfigError` when the configuration has no such template.
    pub fn request(&self, config: &Config, text: &str, from: &str, to: &str) -> (r: Result<
        HttpRequest,
        TranslationError,
    >)
        ensures
            match config.prompts@.get(TRANSLATION_PROMPT_KEY@) {
                Some(template) => r matches Ok(req) && req@ == openai_request(
                    self.api_key_view(),
                    self.model_view(),
                    self.api_base_view(),
                    openai_prompt(template@, text@, from@, to@),
                ),
                None => r matches Err(TranslationError::ConfigError(m)) && m@
                    == "Translation prompt not found"@,
            },
    {
        let template = match config.get_prompt(TRANSLATION_PROMPT_KEY) {
            Some(t) => t,
            None => {
                return Err(
                    TranslationError::ConfigError(String::from_str("Translation prompt not found")),
                );
            },
        };
        proof {
            reveal_strlit("{text}");
            reveal_strlit("{source}");
            reveal_strlit("{target}");
        }
        let with_text = replace_all(template, "{text}", text);
        let with_source = replace_all(with_text.as_str(), "{source}", from);
        let prompt = replace_all(with_source.as_str(), "{target}", to);
        let mut url = String::from_str(self.api_base.as_str());
        url.append("/chat/completions");
        let mut auth = String::from_str("Bearer ");
        auth.append(self.api_key.as_str());
        let mut body = String::from_str("{\"messages\":[{\"content\":");
        body.append(json_quote(OPENAI_SYSTEM_PROMPT).as_str());
        body.append(",\"role\":\"system\"},{\"content\":");
        body.append(json_quote(prompt.as_str()).as_str());
        body.append(",\"role\":\"user\"}],\"model\":");
        body.append(json_quote(self.model.as_str()).as_str());
        body.append(",\"temperature\":0.3}");
        let mut headers: Vec<(String, String)> = Vec::new();
        headers.push((String::from_str("Authorization"), auth));
        headers.push((String::from_str("Content-Type"), String::from_str("application/json")));
        let req = HttpRequest { url, headers, body };
        assert(req@.headers =~= openai_request(
            self.api_key@,
            self.model@,
            self.api_base@,
            prompt@,
        ).headers);
        Ok(req)
    }

    /// Reads the translation out of a chat completion reply: the string at
    /// `reply["choices"][0]["message"]["content"]` (the first element of the `choices`
    /// array), trimmed; otherwise a `TranslationFailed` error, with
    /// [`DECODE_ERROR_MESSAGE`] when the reply is not JSON or with
    /// [`openai_failure_prefix`] and the parsed reply.
    pub fn read_response(body: &[u8]) -> (r: Result<String, TranslationError>)
        ensures
            match json_reply_in_list(
                body@,
                OPENAI_CHOICES_KEY@,
                0,
                OPENAI_MESSAGE_KEY@,
                OPENAI_CONTENT_KEY@,
            ) {
                None => failed_with(r, DECODE_ERROR_MESSAGE@),
                Some((Some(s), _)) => r matches Ok(t) && t@ == trimmed(s),
                Some((None, dbg)) => failed_with(r, openai_failure_prefix() + dbg),
            },
    {
        let mut prefix = String::from_str("Failed to get translation");
        prefix.append(" from API response: ");
        let reading = read_json_in_list(
            body,
            OPENAI_CHOICES_KEY,
            0,
            OPENAI_MESSAGE_KEY,
            OPENAI_CONTENT_KEY,
        );
        match reply_outcome(reading, prefix.as_str()) {
            Ok(s) => Ok(trim_text(s.as_str())),
            Err(e) => Err(e),
        }
    }
}

} // verus!
