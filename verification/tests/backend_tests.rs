use rs_translator::backend::{
    reply_outcome, tencent_authorization_text, tencent_canonical_request_text,
    tencent_credential_scope_text, tencent_headers, tencent_payload_text,
    tencent_string_to_sign_text,
};
use rs_translator::{
    Backend, BackendConfig, Config, OpenAICompatibleBackend, TencentBackend, TranslationError,
};

fn header_pairs(v: &[(&str, &str)]) -> Vec<(String, String)> {
    v.iter().map(|(a, b)| (a.to_string(), b.to_string())).collect()
}

#[test]
fn tencent_request_is_signed() {
    let backend = TencentBackend::new("AKIDexample".to_string(), "secretKeyExample".to_string());
    let req = backend
        .signed_request("你好 \"world\"\n", "auto", "en", 1700000000)
        .unwrap();
    assert_eq!(req.url, "https://tmt.tencentcloudapi.com");
    assert_eq!(
        req.body,
        "{\"ProjectId\":0,\"Source\":\"auto\",\"SourceText\":\"你好 \\\"world\\\"\\n\",\"Target\":\"en\"}"
    );
    assert_eq!(
        req.headers,
        header_pairs(&[
            (
                "Authorization",
                "TC3-HMAC-SHA256 Credential=AKIDexample/2023-11-14/tmt/tc3_request, SignedHeaders=content-type;host;x-tc-action, Signature=2413f7e2fda38b10546b1e21b5592a7f2b483134a6a476a5a6eb4a7554ae77eb"
            ),
            ("Content-Type", "application/json; charset=utf-8"),
            ("Host", "tmt.tencentcloudapi.com"),
            ("X-TC-Action", "TextTranslate"),
            ("X-TC-Timestamp", "1700000000"),
            ("X-TC-Version", "2018-03-21"),
            ("X-TC-Region", "ap-guangzhou"),
        ])
    );
}

#[test]
fn tencent_payload_escapes_control_characters() {
    let backend = TencentBackend::new("id".to_string(), "key".to_string());
    let req = backend.signed_request("a\u{1}b\tc\\", "zh", "en", 0).unwrap();
    assert_eq!(
        req.body,
        "{\"ProjectId\":0,\"Source\":\"zh\",\"SourceText\":\"a\\u0001b\\tc\\\\\",\"Target\":\"en\"}"
    );
    assert_eq!(req.headers[4], ("X-TC-Timestamp".to_string(), "0".to_string()));
    assert!(req.headers[0].1.contains("Credential=id/1970-01-01/tmt/tc3_request"));
}

#[test]
fn tencent_request_without_a_calendar_date_fails() {
    let backend = TencentBackend::new("id".to_string(), "key".to_string());
    match backend.signed_request("x", "zh", "en", i64::MAX as u64) {
        Err(TranslationError::TranslationFailed(msg)) => assert_eq!(msg, "Failed to get date"),
        other => panic!("unexpected result: {:?}", other.map(|r| r.body)),
    }
}

#[test]
fn tencent_request_uses_the_clock() {
    let backend = TencentBackend::new("id".to_string(), "key".to_string());
    let req = backend.request("hi", "en", "zh").unwrap();
    assert_eq!(req.url, "https://tmt.tencentcloudapi.com");
    let stamp: u64 = req.headers[4].1.parse().unwrap();
    assert!(stamp > 1_600_000_000);
}

#[test]
fn tencent_reads_the_target_text() {
    let r = TencentBackend::read_response(b"{\"Response\":{\"TargetText\":\"Hello\",\"RequestId\":\"r1\"}}");
    assert_eq!(r.unwrap(), "Hello");
}

#[test]
fn tencent_reports_an_error_reply() {
    match TencentBackend::read_response(b"{\"Response\":{\"Error\":{\"Code\":\"AuthFailure\"}}}") {
        Err(TranslationError::TranslationFailed(msg)) => assert_eq!(
            msg,
            "API response error: Object {\"Response\": Object {\"Error\": Object {\"Code\": String(\"AuthFailure\")}}}"
        ),
        other => panic!("unexpected result: {:?}", other),
    }
}

#[test]
fn tencent_reports_a_reply_that_is_not_json() {
    match TencentBackend::read_response(b"oops") {
        Err(TranslationError::TranslationFailed(msg)) => {
            assert_eq!(msg, "error decoding response body")
        }
        other => panic!("unexpected result: {:?}", other),
    }
}

#[test]
fn tencent_availability_needs_both_credentials() {
    assert!(TencentBackend::new("a".to_string(), "b".to_string()).is_available());
    assert!(!TencentBackend::new(String::new(), "b".to_string()).is_available());
    assert!(!TencentBackend::new("a".to_string(), String::new()).is_available());
    assert_eq!(TencentBackend::new(String::new(), String::new()).name(), "tencent");
}

fn openai() -> OpenAICompatibleBackend {
    OpenAICompatibleBackend::new(
        "my-llm".to_string(),
        "sk-test".to_string(),
        "gpt-4o-mini".to_string(),
        "https://api.example.com/v1".to_string(),
    )
}

#[test]
fn openai_request_uses_the_prompt_template() {
    let req = openai().request(&Config::default(), "Hi", "auto", "zh").unwrap();
    assert_eq!(req.url, "https://api.example.com/v1/chat/completions");
    assert_eq!(
        req.headers,
        header_pairs(&[("Authorization", "Bearer sk-test"), ("Content-Type", "application/json")])
    );
    assert_eq!(
        req.body,
        "{\"messages\":[{\"content\":\"You are a professional translator.\",\"role\":\"system\"},{\"content\":\"You are a professional translator. \\nTranslate the following text accurately while preserving the original meaning and style. \\nOnly return the translated text without any explanations or additional content.\\n\\nText to translate: Hi\\nSource language: auto\\nTarget language: zh\",\"role\":\"user\"}],\"model\":\"gpt-4o-mini\",\"temperature\":0.3}"
    );
}

#[test]
fn openai_request_replaces_placeholders_in_order() {
    let mut config = Config::default();
    config.prompts.insert(
        "translation".to_string(),
        "{text}|{source}|{target}|{text}".to_string(),
    );
    let req = openai().request(&config, "say {target}", "en", "fr").unwrap();
    assert_eq!(
        req.body,
        "{\"messages\":[{\"content\":\"You are a professional translator.\",\"role\":\"system\"},{\"content\":\"say fr|en|fr|say fr\",\"role\":\"user\"}],\"model\":\"gpt-4o-mini\",\"temperature\":0.3}"
    );
}

#[test]
fn openai_request_needs_a_prompt() {
    let config = Config {
        default_backend: None,
        backends: rs_translator::NameMap::new(),
        prompts: rs_translator::NameMap::new(),
    };
    match openai().request(&config, "Hi", "auto", "zh") {
        Err(TranslationError::ConfigError(msg)) => assert_eq!(msg, "Translation prompt not found"),
        other => panic!("unexpected result: {:?}", other.map(|r| r.body)),
    }
}

#[test]
fn openai_reads_and_trims_the_content() {
    let r = OpenAICompatibleBackend::read_response(
        b"{\"choices\":[{\"message\":{\"role\":\"assistant\",\"content\":\"  Bonjour \\n\"}}]}",
    );
    assert_eq!(r.unwrap(), "Bonjour");
}

#[test]
fn openai_reports_a_reply_without_content() {
    match OpenAICompatibleBackend::read_response(b"{\"error\":\"bad\"}") {
        Err(TranslationError::TranslationFailed(msg)) => assert_eq!(
            msg,
            format!(
                "{}{}",
                "Failed to get translation",
                " from API response: Object {\"error\": String(\"bad\")}"
            )
        ),
        other => panic!("unexpected result: {:?}", other),
    }
}

#[test]
fn openai_reads_choices_as_an_array_only() {
    match OpenAICompatibleBackend::read_response(
        b"{\"choices\":{\"0\":{\"message\":{\"content\":\"x\"}}}}",
    ) {
        Err(TranslationError::TranslationFailed(msg)) => assert!(msg.starts_with(&format!(
            "{}{}",
            "Failed to get translation",
            " from API response: Object {\"choices\": Object"
        ))),
        other => panic!("unexpected result: {:?}", other),
    }
}

#[test]
fn openai_reports_a_reply_that_is_not_json() {
    match OpenAICompatibleBackend::read_response(b"<html>busy</html>") {
        Err(TranslationError::TranslationFailed(msg)) => {
            assert_eq!(msg, "error decoding response body")
        }
        other => panic!("unexpected result: {:?}", other),
    }
}

#[test]
fn openai_availability_needs_key_model_and_base() {
    assert!(openai().is_available());
    assert_eq!(openai().name(), "my-llm");
    let no_key = OpenAICompatibleBackend::new(
        "n".to_string(),
        String::new(),
        "m".to_string(),
        "b".to_string(),
    );
    assert!(!no_key.is_available());
    let no_model = OpenAICompatibleBackend::new(
        "n".to_string(),
        "k".to_string(),
        String::new(),
        "b".to_string(),
    );
    assert!(!no_model.is_available());
    let no_base = OpenAICompatibleBackend::new(
        "n".to_string(),
        "k".to_string(),
        "m".to_string(),
        String::new(),
    );
    assert!(!no_base.is_available());
}

#[test]
fn backend_config_builds_its_backend() {
    let t = BackendConfig::Tencent { secret_id: "i".to_string(), secret_key: "k".to_string() };
    match t.as_backend() {
        Backend::Tencent(b) => assert!(b.is_available()),
        _ => panic!("expected a Tencent backend"),
    }
    let o = BackendConfig::OpenAICompatible {
        name: "n".to_string(),
        api_key: "k".to_string(),
        model: "m".to_string(),
        api_base: String::new(),
    };
    match o.as_backend() {
        Backend::OpenAICompatible(b) => {
            assert_eq!(b.name(), "n");
            assert!(!b.is_available());
        }
        _ => panic!("expected an OpenAI-compatible backend"),
    }
}

#[test]
fn tencent_signing_steps() {
    assert_eq!(
        tencent_payload_text("hi", "en", "zh"),
        "{\"ProjectId\":0,\"Source\":\"en\",\"SourceText\":\"hi\",\"Target\":\"zh\"}"
    );
    assert_eq!(
        tencent_canonical_request_text(&[0xde, 0xad, 0x0b, 0xef]),
        "POST\n/\n\ncontent-type:application/json; charset=utf-8\nhost:tmt.tencentcloudapi.com\nx-tc-action:texttranslate\n\ncontent-type;host;x-tc-action\ndead0bef"
    );
    assert_eq!(tencent_credential_scope_text("2024-02-29"), "2024-02-29/tmt/tc3_request");
    assert_eq!(
        tencent_string_to_sign_text(1709164800, "2024-02-29", &[0x01, 0xff]),
        "TC3-HMAC-SHA256\n1709164800\n2024-02-29/tmt/tc3_request\n01ff"
    );
    assert_eq!(
        tencent_authorization_text("AKID", "2024-02-29", &[0x00, 0x10, 0xa5]),
        "TC3-HMAC-SHA256 Credential=AKID/2024-02-29/tmt/tc3_request, SignedHeaders=content-type;host;x-tc-action, Signature=0010a5"
    );
    let headers = tencent_headers("auth".to_string(), 42);
    assert_eq!(headers.len(), 7);
    assert_eq!(headers[0], ("Authorization".to_string(), "auth".to_string()));
    assert_eq!(headers[4], ("X-TC-Timestamp".to_string(), "42".to_string()));
    assert_eq!(headers[6], ("X-TC-Region".to_string(), "ap-guangzhou".to_string()));
}

#[test]
fn reply_outcomes() {
    assert_eq!(
        reply_outcome(Some((Some("text".to_string()), "dbg".to_string())), "P: ").unwrap(),
        "text"
    );
    match reply_outcome(Some((None, "Object {}".to_string())), "P: ") {
        Err(TranslationError::TranslationFailed(m)) => assert_eq!(m, "P: Object {}"),
        other => panic!("unexpected result: {:?}", other),
    }
    match reply_outcome(None, "P: ") {
        Err(TranslationError::TranslationFailed(m)) => {
            assert_eq!(m, "error decoding response body")
        }
        other => panic!("unexpected result: {:?}", other),
    }
}
