use gemini_chat::client::handle_response;
use gemini_chat::render::format_json;
use gemini_chat::request::{build_request, decode_request, encode_request, trim_bytes};
use gemini_chat::response::parse_reply;

#[test]
fn builds_request_template() {
    let body = build_request(b"Hello, world!\n");
    assert_eq!(
        body,
        b"{\"contents\":[{\"parts\":[{\"text\":\"Hello, world!\"}],\"role\":\"user\"}]}".to_vec()
    );
}

#[test]
fn builds_request_trims_surrounding_whitespace() {
    let body = build_request(b" \t what is rust? \r\n");
    assert_eq!(
        body,
        b"{\"contents\":[{\"parts\":[{\"text\":\"what is rust?\"}],\"role\":\"user\"}]}".to_vec()
    );
}

#[test]
fn encodes_request_with_escapes() {
    let body = encode_request(b"q\"b\\n\nx\x01");
    let mut expected = b"{\"contents\":[{\"parts\":[{\"text\":\"".to_vec();
    expected.extend_from_slice(b"q\\\"b\\\\n\\nx\\u0001");
    expected.extend_from_slice(b"\"}],\"role\":\"user\"}]}");
    assert_eq!(body, expected);
}

#[test]
fn request_round_trip() {
    let texts: Vec<&[u8]> = vec![
        b"hello",
        b"",
        b"a\"b\\c",
        b"```code```",
        b"\x01\x02 tab\t and \x08\x0c controls",
        b"unicode \xc3\xa9\xe2\x9c\x93 passes through",
    ];
    for t in texts {
        let enc = encode_request(t);
        let dec = decode_request(&enc).expect("round trip must decode");
        assert_eq!(dec, t.to_vec());
    }
}

#[test]
fn decode_rejects_other_bodies() {
    assert_eq!(decode_request(b"{\"contents\":[]}"), None);
    assert_eq!(decode_request(b""), None);
    let mut enc = encode_request(b"hi");
    enc.push(b' ');
    assert_eq!(decode_request(&enc), None);
}

#[test]
fn trims_ascii_whitespace() {
    assert_eq!(trim_bytes(b" \t hi there \n"), b"hi there".to_vec());
    assert_eq!(trim_bytes(b"\r\n"), b"".to_vec());
    assert_eq!(trim_bytes(b"x"), b"x".to_vec());
}

#[test]
fn replaces_triple_backticks() {
    assert_eq!(format_json(b"a```b"), b"a'''b".to_vec());
    assert_eq!(format_json(b"``````"), b"''''''".to_vec());
    assert_eq!(format_json(b"````"), b"'''`".to_vec());
    assert_eq!(format_json(b"a``b`c"), b"a``b`c".to_vec());
    assert_eq!(format_json(b""), b"".to_vec());
}

#[test]
fn prints_first_candidate_text() {
    let body = br#"{"candidates":[{"content":{"parts":[{"text":"Here is ```rust``` code"}],"role":"model"},"finishReason":"STOP","index":0,"safetyRatings":[{"category":"HARM","probability":"NEGLIGIBLE"}]}],"usageMetadata":{"promptTokenCount":5,"candidatesTokenCount":7,"totalTokenCount":12}}"#;
    let out = handle_response(body).expect("well-formed response must render");
    assert_eq!(out, b"\nHere is '''rust''' code\n".to_vec());
}

#[test]
fn parses_pretty_printed_response() {
    let body = b"{\n  \"candidates\": [\n    {\n      \"content\": {\n        \"parts\": [ { \"text\": \"hi\" } ],\n        \"role\": \"model\"\n      }\n    }\n  ]\n}\n";
    assert_eq!(parse_reply(body), Some(b"hi".to_vec()));
}

#[test]
fn parses_response_with_reordered_fields() {
    let body = br#"{"usageMetadata":{"promptTokenCount":1,"candidatesTokenCount":2,"totalTokenCount":3},"candidates":[{"finishReason":"STOP","safetyRatings":[],"content":{"role":"model","parts":[{"meta":null,"text":"answer"}]},"index":0}]}"#;
    assert_eq!(parse_reply(body), Some(b"answer".to_vec()));
}

#[test]
fn parses_response_with_extra_values() {
    let body = br#"{"extra":{"a":[1,-2.5,1e3,true,false,null,"s"],"b":{}},"candidates":[{"content":{"parts":[{"text":"ok"}]}}],"more":[[]]}"#;
    assert_eq!(parse_reply(body), Some(b"ok".to_vec()));
}

#[test]
fn decodes_string_escapes_in_reply() {
    let body = br#"{"candidates":[{"content":{"parts":[{"text":"line\none\ttab A\u007f \"q\" \\ /"}]}}]}"#;
    assert_eq!(
        parse_reply(body),
        Some(b"line\none\ttab A\x7f \"q\" \\ /".to_vec())
    );
}

#[test]
fn keeps_only_first_candidate_and_part() {
    let body = br#"{"candidates":[{"content":{"parts":[{"text":"first"},{"text":"second"}]}},{"content":{"parts":[{"text":"other"}]}}]}"#;
    assert_eq!(parse_reply(body), Some(b"first".to_vec()));
}

#[test]
fn rejects_invalid_json() {
    assert_eq!(parse_reply(b"not json"), None);
    assert_eq!(parse_reply(b""), None);
    assert_eq!(parse_reply(b"{\"candidates\":[{\"content\":"), None);
    assert_eq!(handle_response(b"<html>503</html>"), None);
}

#[test]
fn rejects_wrong_shape() {
    assert_eq!(parse_reply(b"{\"foo\":1}"), None);
    assert_eq!(parse_reply(b"{\"candidates\":7}"), None);
    assert_eq!(parse_reply(b"[1,2,3]"), None);
    let body = br#"{"candidates":[{"content":{"parts":[{"note":"no text"}]}}]}"#;
    assert_eq!(parse_reply(body), None);
}

#[test]
fn rejects_empty_candidates_and_parts() {
    assert_eq!(parse_reply(b"{\"candidates\":[]}"), None);
    let body = br#"{"candidates":[{"content":{"parts":[]}}]}"#;
    assert_eq!(parse_reply(body), None);
}

#[test]
fn rejects_trailing_garbage() {
    let body = br#"{"candidates":[{"content":{"parts":[{"text":"ok"}]}}]} x"#;
    assert_eq!(parse_reply(body), None);
}
