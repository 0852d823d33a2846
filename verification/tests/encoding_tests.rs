use credential_truth::encoding::{decode_server_url, encode_server_url};
use credential_truth::error::Error;

#[test]
fn encode_matches_known_vector() {
    assert_eq!(encode_server_url("https://example.com"), "aHR0cHM6Ly9leGFtcGxlLmNvbQ");
}

#[test]
fn encode_is_url_safe_and_unpadded() {
    // Three bytes whose standard base64 would hold `+`, `/` and padding.
    assert_eq!(encode_server_url("a&b"), "YSZi");
    assert_eq!(encode_server_url("~"), "fg");
    assert_eq!(encode_server_url(""), "");
}

#[test]
fn decode_inverts_encode() {
    let inputs = [
        "https://example.com",
        "https://index.docker.io/v1/",
        "",
        "x",
        "xy",
        "xyz",
        "üñîçødé ürl",
    ];
    for url in inputs {
        let encoded = encode_server_url(url);
        assert_eq!(decode_server_url(&encoded), Ok(url.to_string()));
    }
}

#[test]
fn distinct_urls_encode_differently() {
    let a = encode_server_url("https://a.example.com");
    let b = encode_server_url("https://b.example.com");
    assert_ne!(a, b);
    let c = encode_server_url("ab");
    let d = encode_server_url("ba");
    assert_ne!(c, d);
}

#[test]
fn decode_rejects_malformed_names() {
    // A length leaving remainder one.
    assert_eq!(decode_server_url("A"), Err(Error::Decode));
    // A character outside the alphabet.
    assert_eq!(decode_server_url("aa!a"), Err(Error::Decode));
    // Padding is not part of the unpadded form.
    assert_eq!(decode_server_url("YQ=="), Err(Error::Decode));
    // Leftover bits in the final digit.
    assert_eq!(decode_server_url("aB"), Err(Error::Decode));
    // Decodes to bytes that are not UTF-8 text.
    assert_eq!(decode_server_url("_w"), Err(Error::Decode));
}

#[test]
fn decode_accepts_the_empty_name() {
    assert_eq!(decode_server_url(""), Ok(String::new()));
}
