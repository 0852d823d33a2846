use credential_truth::error::Error;
use credential_truth::protocol::{
    decode_credential_record, encode_get_response, encode_list_response,
};

#[test]
fn parses_the_record_the_calling_tool_sends() {
    let input = br#"{"ServerURL":"https://example.com","Username":"alice","Secret":"s3cr3t"}"#;
    let record = decode_credential_record(&input.to_vec()).unwrap();
    assert_eq!(record.server_url, "https://example.com");
    assert_eq!(record.username, "alice");
    assert_eq!(record.secret, "s3cr3t");
}

#[test]
fn parses_fields_in_any_order_and_with_whitespace() {
    let input = b" {\n  \"Secret\" : \"s\",\r\n  \"ServerURL\" : \"u\",\t\"Username\" : \"n\" }\n";
    let record = decode_credential_record(&input.to_vec()).unwrap();
    assert_eq!(record.server_url, "u");
    assert_eq!(record.username, "n");
    assert_eq!(record.secret, "s");
}

#[test]
fn unescapes_json_strings() {
    let input = br#"{"ServerURL":"a&b","Username":"tab\there","Secret":"q\"\\\/\b\f\n\r\tz"}"#;
    let record = decode_credential_record(&input.to_vec()).unwrap();
    assert_eq!(record.server_url, "a&b");
    assert_eq!(record.username, "tab\there");
    assert_eq!(record.secret, "q\"\\/\u{8}\u{c}\n\r\tz");
}

#[test]
fn unescapes_unicode_and_surrogate_pairs() {
    let input = r#"{"ServerURL":"s","Username":"caf\u00e9","Secret":"\ud83d\ude00"}"#;
    let record = decode_credential_record(&input.as_bytes().to_vec()).unwrap();
    assert_eq!(record.username, "caf\u{e9}");
    assert_eq!(record.secret, "\u{1F600}");
}

#[test]
fn raw_text_passes_through_unescaped() {
    let input = "{\"ServerURL\":\"s\",\"Username\":\"café\",\"Secret\":\"😀\"}";
    let record = decode_credential_record(&input.as_bytes().to_vec()).unwrap();
    assert_eq!(record.username, "café");
    assert_eq!(record.secret, "😀");
}

#[test]
fn rejects_malformed_records() {
    let cases: Vec<&[u8]> = vec![
        b"",
        b"{}",
        b"not json at all",
        // A required field is missing.
        br#"{"ServerURL":"u","Username":"n"}"#,
        // A fourth member is not part of the record.
        br#"{"ServerURL":"u","Username":"n","Secret":"s","Extra":"x"}"#,
        // A field repeats instead of completing the record.
        br#"{"ServerURL":"u","ServerURL":"v","Secret":"s"}"#,
        // The server URL must not be empty.
        br#"{"ServerURL":"","Username":"n","Secret":"s"}"#,
        // Trailing content after the object.
        br#"{"ServerURL":"u","Username":"n","Secret":"s"} x"#,
        // An unterminated string.
        br#"{"ServerURL":"u","Username":"n","Secret":"s}"#,
        // A lone surrogate escape.
        br#"{"ServerURL":"u","Username":"n","Secret":"\ud800"}"#,
        // An unescaped control byte.
        b"{\"ServerURL\":\"u\",\"Username\":\"n\",\"Secret\":\"a\x01b\"}",
        // A bad escape.
        br#"{"ServerURL":"u","Username":"n","Secret":"\x41"}"#,
    ];
    for input in cases {
        assert_eq!(
            decode_credential_record(&input.to_vec()).map(|r| r.secret),
            Err(Error::Malformed),
        );
    }
}

#[test]
fn get_answer_is_exact() {
    let out = encode_get_response(&b"alice".to_vec(), &b"s3cr3t".to_vec());
    assert_eq!(out, br#"{"Username":"alice","Secret":"s3cr3t"}"#.to_vec());
}

#[test]
fn get_answer_escapes_values() {
    let out = encode_get_response(&b"al\"ice".to_vec(), &b"s\\e\ncret".to_vec());
    assert_eq!(out, br#"{"Username":"al\"ice","Secret":"s\\e\ncret"}"#.to_vec());
    let ctl = encode_get_response(&b"a".to_vec(), &vec![98, 1, 99]);
    assert_eq!(ctl, br#"{"Username":"a","Secret":"b\u0001c"}"#.to_vec());
}

#[test]
fn list_answer_keeps_order_and_handles_empty() {
    assert_eq!(encode_list_response(&Vec::new()), b"{}".to_vec());
    let pairs = vec![
        (b"https://one".to_vec(), b"alice".to_vec()),
        (b"https://two".to_vec(), b"bob".to_vec()),
    ];
    assert_eq!(
        encode_list_response(&pairs),
        br#"{"https://one":"alice","https://two":"bob"}"#.to_vec(),
    );
}
