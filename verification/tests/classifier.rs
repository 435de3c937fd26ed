use structured_classifier::errors::ClassifyError;
use structured_classifier::errors::MalformedKind;
use structured_classifier::request::build_request;
use structured_classifier::request::default_config;
use structured_classifier::response::parse_classification;
use structured_classifier::response::parse_response;
use structured_classifier::schema::build_schema;

fn bv(s: &str) -> Vec<u8> {
    s.as_bytes().to_vec()
}

fn labels3() -> Vec<Vec<u8>> {
    vec![bv("feature"), bv("bug"), bv("confusion")]
}

#[test]
fn build_request_embeds_labels_and_text() {
    let cfg = default_config();
    let text = bv("things really get weird");
    let req = build_request(&text, &labels3(), &cfg).expect("valid input");
    assert_eq!(req.labels, labels3());
    assert_eq!(req.text, text);
    let user = String::from_utf8(req.user_message()).unwrap();
    assert!(user.contains("things really get weird"));
    assert!(user.starts_with("Labels: [\"feature\", \"bug\", \"confusion\"]"));
    let body = String::from_utf8(req.body_bytes()).unwrap();
    assert!(body.contains("\"enum\":[\"feature\",\"bug\",\"confusion\"]"));
    assert!(body.contains("things really get weird"));
}

#[test]
fn build_request_rejects_empty_text() {
    let cfg = default_config();
    let r = build_request(&bv(""), &labels3(), &cfg);
    assert_eq!(r, Err(ClassifyError::InvalidInput));
}

#[test]
fn build_request_rejects_whitespace_text() {
    let cfg = default_config();
    let r = build_request(&bv("  \t\r\n  "), &labels3(), &cfg);
    assert_eq!(r, Err(ClassifyError::InvalidInput));
}

#[test]
fn build_request_rejects_empty_labels() {
    let cfg = default_config();
    let none: Vec<Vec<u8>> = Vec::new();
    let r = build_request(&bv("some text"), &none, &cfg);
    assert_eq!(r, Err(ClassifyError::InvalidInput));
}

#[test]
fn body_bytes_exact() {
    let cfg = default_config();
    let req = build_request(&bv("hi"), &vec![bv("a"), bv("b")], &cfg).unwrap();
    let body = String::from_utf8(req.body_bytes()).unwrap();
    let mut expected = String::new();
    expected.push_str("{\"model\":\"gemma-3-270m-it\",\"temperature\":0.2,");
    expected.push_str("\"response_format\":{\"type\":\"json_schema\",\"json_schema\":");
    expected.push_str("{\"name\":\"classification\",\"schema\":");
    expected.push_str("{\"type\":\"object\",\"additionalProperties\":false,");
    expected.push_str("\"properties\":{\"label\":{\"type\":\"string\",\"enum\":[\"a\",\"b\"]},");
    expected.push_str("\"reason\":{\"type\":\"string\"}},\"required\":[\"label\",\"reason\"]}}},");
    expected.push_str("\"messages\":[{\"role\":\"system\",\"content\":\"You are a careful text classifier. ");
    expected.push_str("Choose exactly one label from the list and explain briefly.\"},");
    expected.push_str("{\"role\":\"user\",\"content\":\"Labels: [\\\"a\\\", \\\"b\\\"]\\nText:\\nhi\"}]}");
    assert_eq!(body, expected);
}

#[test]
fn schema_idempotent() {
    let s1 = build_schema(&labels3());
    let s2 = build_schema(&labels3());
    assert_eq!(s1, s2);
    assert_eq!(s1.to_bytes(), s2.to_bytes());
}

#[test]
fn schema_to_bytes_exact() {
    let s = build_schema(&vec![bv("x"), bv("y")]);
    let text = String::from_utf8(s.to_bytes()).unwrap();
    let mut expected = String::new();
    expected.push_str("{\"type\":\"object\",\"additionalProperties\":false,");
    expected.push_str("\"properties\":{\"label\":{\"type\":\"string\",\"enum\":[\"x\",\"y\"]},");
    expected.push_str("\"reason\":{\"type\":\"string\"}},\"required\":[\"label\",\"reason\"]}");
    assert_eq!(text, expected);
}

#[test]
fn temperature_renders_minimally() {
    let mut cfg = default_config();
    let labels = labels3();
    cfg.temperature_centi = 0;
    let b = String::from_utf8(build_request(&bv("t"), &labels, &cfg).unwrap().body_bytes()).unwrap();
    assert!(b.contains("\"temperature\":0,"));
    cfg.temperature_centi = 25;
    let b = String::from_utf8(build_request(&bv("t"), &labels, &cfg).unwrap().body_bytes()).unwrap();
    assert!(b.contains("\"temperature\":0.25,"));
    cfg.temperature_centi = 200;
    let b = String::from_utf8(build_request(&bv("t"), &labels, &cfg).unwrap().body_bytes()).unwrap();
    assert!(b.contains("\"temperature\":2,"));
    cfg.temperature_centi = 150;
    let b = String::from_utf8(build_request(&bv("t"), &labels, &cfg).unwrap().body_bytes()).unwrap();
    assert!(b.contains("\"temperature\":1.5,"));
}

#[test]
fn default_config_values() {
    let cfg = default_config();
    assert_eq!(cfg.model, bv("gemma-3-270m-it"));
    assert_eq!(cfg.temperature_centi, 20);
    assert_eq!(cfg.endpoint, bv("http://localhost:1234/v1/chat/completions"));
    assert_eq!(cfg.timeout_secs, 30);
}

#[test]
fn parse_classification_inverts_document() {
    let r = parse_classification(&bv("{\"label\":\"bug\",\"reason\":\"x\"}")).unwrap();
    assert_eq!(r.0, bv("bug"));
    assert_eq!(r.1, bv("x"));
}

#[test]
fn parse_classification_accepts_either_field_order() {
    let r = parse_classification(&bv("{\"reason\":\"x\",\"label\":\"bug\"}")).unwrap();
    assert_eq!(r.0, bv("bug"));
    assert_eq!(r.1, bv("x"));
}

#[test]
fn parse_classification_rejects_extra_field() {
    let r = parse_classification(&bv("{\"label\":\"a\",\"reason\":\"b\",\"extra\":\"c\"}"));
    assert_eq!(r, None);
}

#[test]
fn parse_classification_rejects_duplicate_field() {
    let r = parse_classification(&bv("{\"label\":\"a\",\"label\":\"b\",\"reason\":\"c\"}"));
    assert_eq!(r, None);
}

#[test]
fn parse_classification_rejects_trailing_garbage() {
    let r = parse_classification(&bv("{\"label\":\"a\",\"reason\":\"b\"} x"));
    assert_eq!(r, None);
}

#[test]
fn parse_classification_rejects_non_string_values() {
    let r = parse_classification(&bv("{\"label\":3,\"reason\":\"b\"}"));
    assert_eq!(r, None);
}

#[test]
fn parse_classification_decodes_escapes() {
    let r = parse_classification(&bv(
        "{\"label\":\"a\\\"b\\\\c\",\"reason\":\"line1\\nline2\\u0041\"}",
    ))
    .unwrap();
    assert_eq!(r.0, bv("a\"b\\c"));
    assert_eq!(r.1, bv("line1\nline2A"));
}

#[test]
fn parse_classification_decodes_surrogate_pair() {
    let r = parse_classification(&bv("{\"label\":\"a\",\"reason\":\"\\ud83d\\ude00\"}")).unwrap();
    assert_eq!(r.1, vec![0xf0u8, 0x9f, 0x98, 0x80]);
}

#[test]
fn parse_response_end_to_end() {
    let cfg = default_config();
    let text = bv(
        "things really get weird, though not particularly scary: the movie is all portent and no content.",
    );
    let req = build_request(&text, &labels3(), &cfg).expect("valid input");
    let _body = req.body_bytes();
    let raw = bv(
        "{\"choices\":[{\"message\":{\"content\":\"{\\\"label\\\":\\\"confusion\\\",\\\"reason\\\":\\\"The review expresses ambiguity about tone.\\\"}\"}}]}",
    );
    let out = parse_response(&raw).expect("well-formed response");
    assert_eq!(out.label, bv("confusion"));
    assert_eq!(out.reason, bv("The review expresses ambiguity about tone."));
}

#[test]
fn parse_response_end_to_end_missing_content() {
    let cfg = default_config();
    let text = bv(
        "things really get weird, though not particularly scary: the movie is all portent and no content.",
    );
    let req = build_request(&text, &labels3(), &cfg).expect("valid input");
    let _body = req.body_bytes();
    let raw = bv("{\"choices\":[{\"message\":{}}]}");
    let out = parse_response(&raw);
    assert_eq!(
        out,
        Err(ClassifyError::MalformedResponse(MalformedKind::MissingContent))
    );
}

#[test]
fn parse_response_content_not_json() {
    let raw = bv("{\"choices\":[{\"message\":{\"content\":\"not json at all\"}}]}");
    let out = parse_response(&raw);
    assert_eq!(
        out,
        Err(ClassifyError::MalformedResponse(MalformedKind::BadClassification))
    );
}

#[test]
fn parse_response_missing_label() {
    let raw = bv("{\"choices\":[{\"message\":{\"content\":\"{\\\"reason\\\":\\\"x\\\"}\"}}]}");
    let out = parse_response(&raw);
    assert_eq!(
        out,
        Err(ClassifyError::MalformedResponse(MalformedKind::BadClassification))
    );
}

#[test]
fn parse_response_missing_reason() {
    let raw = bv("{\"choices\":[{\"message\":{\"content\":\"{\\\"label\\\":\\\"bug\\\"}\"}}]}");
    let out = parse_response(&raw);
    assert_eq!(
        out,
        Err(ClassifyError::MalformedResponse(MalformedKind::BadClassification))
    );
}

#[test]
fn parse_response_content_not_a_string() {
    let raw = bv("{\"choices\":[{\"message\":{\"content\":7}}]}");
    let out = parse_response(&raw);
    assert_eq!(
        out,
        Err(ClassifyError::MalformedResponse(MalformedKind::MissingContent))
    );
}

#[test]
fn parse_response_skips_other_members() {
    let mut raw_text = String::new();
    raw_text.push_str("{\"id\":\"chatcmpl-1\",\"object\":\"chat.completion\",\"created\":123,");
    raw_text.push_str("\"model\":\"gemma-3-270m-it\",");
    raw_text.push_str("\"choices\":[{\"index\":0,\"message\":{\"role\":\"assistant\",");
    raw_text.push_str("\"content\":\"{\\\"label\\\":\\\"bug\\\",\\\"reason\\\":\\\"broken\\\"}\"},");
    raw_text.push_str("\"finish_reason\":\"stop\"}],");
    raw_text.push_str("\"usage\":{\"prompt_tokens\":10,\"completion_tokens\":5}}");
    let raw = bv(&raw_text);
    let out = parse_response(&raw).expect("well-formed response");
    assert_eq!(out.label, bv("bug"));
    assert_eq!(out.reason, bv("broken"));
}

#[test]
fn parse_response_tolerates_whitespace() {
    let raw = bv(
        "\n{ \"choices\" : [ { \"message\" : { \"content\" :\n\"{ \\\"label\\\" : \\\"bug\\\" , \\\"reason\\\" : \\\"x\\\" }\" } } ] }",
    );
    let out = parse_response(&raw).expect("well-formed response");
    assert_eq!(out.label, bv("bug"));
    assert_eq!(out.reason, bv("x"));
}

#[test]
fn parse_response_does_not_revalidate_label() {
    // The label set constraint is delegated to the server's schema
    // enforcement: an out-of-set label comes back undetected, by design.
    let raw = bv(
        "{\"choices\":[{\"message\":{\"content\":\"{\\\"label\\\":\\\"other\\\",\\\"reason\\\":\\\"x\\\"}\"}}]}",
    );
    let out = parse_response(&raw).expect("well-formed response");
    assert_eq!(out.label, bv("other"));
}
