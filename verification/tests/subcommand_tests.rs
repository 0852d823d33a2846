use credential_truth::error::Error;
use credential_truth::subcommands::{
    erase, get_response, list, lookup_dir_name, store, username_for_entry,
};

#[test]
fn store_then_get_round_trip() {
    // What `store` receives on standard input.
    let input = br#"{"ServerURL":"https://example.com","Username":"alice","Secret":"s3cr3t"}"#;
    let action = store(&input.to_vec()).unwrap();
    assert_eq!(action.pass_name, "aHR0cHM6Ly9leGFtcGxlLmNvbQ/alice");
    assert_eq!(action.input, "s3cr3t\n");

    // What `get` then does with the URL line from standard input.
    let dir = lookup_dir_name("https://example.com\n");
    assert_eq!(dir, "aHR0cHM6Ly9leGFtcGxlLmNvbQ");

    // The stored entry appears as `{username}.{extension}`.
    let username = username_for_entry(Some("alice.gpg".to_string())).unwrap();
    assert_eq!(username, "alice");

    // The external tool prints the secret followed by a line terminator.
    let payload = get_response(&username, &b"s3cr3t\n".to_vec()).unwrap();
    assert_eq!(payload, br#"{"Username":"alice","Secret":"s3cr3t"}"#.to_vec());
}

#[test]
fn store_rejects_what_does_not_parse() {
    assert_eq!(
        store(&br#"{"ServerURL":"u"}"#.to_vec()).map(|a| a.pass_name),
        Err(Error::Malformed),
    );
    assert_eq!(store(&Vec::new()).map(|a| a.pass_name), Err(Error::Malformed));
}

#[test]
fn store_uses_the_unescaped_url() {
    let input = br#"{"ServerURL":"a&b","Username":"n","Secret":"s"}"#;
    let action = store(&input.to_vec()).unwrap();
    assert_eq!(action.pass_name, "YSZi/n");
}

#[test]
fn lookup_trims_only_trailing_whitespace() {
    assert_eq!(lookup_dir_name("a&b\r\n"), "YSZi");
    assert_eq!(lookup_dir_name("a&b"), "YSZi");
    assert_ne!(lookup_dir_name(" a&b"), "YSZi");
}

#[test]
fn entry_names_lose_only_the_last_extension() {
    assert_eq!(username_for_entry(Some("alice.gpg".to_string())), Ok("alice".to_string()));
    assert_eq!(username_for_entry(Some("alice".to_string())), Ok("alice".to_string()));
    assert_eq!(username_for_entry(Some("a.b.gpg".to_string())), Ok("a.b".to_string()));
}

#[test]
fn get_misses_when_no_entry_exists() {
    // No directory entry: a lookup miss, and no payload to print.
    assert_eq!(username_for_entry(None), Err(Error::NotFound));
}

#[test]
fn get_rejects_undecodable_tool_output() {
    assert_eq!(get_response("alice", &vec![0xFF, 0xFE]), Err(Error::Io));
}

#[test]
fn list_skips_the_sentinel_and_childless_directories() {
    let entries = vec![
        ("aHR0cHM6Ly9leGFtcGxlLmNvbQ".to_string(), Some("alice.gpg".to_string())),
        (".gpg-id".to_string(), None),
    ];
    let out = list(&entries).unwrap();
    assert_eq!(out, br#"{"https://example.com":"alice"}"#.to_vec());

    let with_empty_dir = vec![
        (".gpg-id".to_string(), None),
        ("YSZi".to_string(), None),
        ("aHR0cHM6Ly9leGFtcGxlLmNvbQ".to_string(), Some("bob.gpg".to_string())),
    ];
    let out = list(&with_empty_dir).unwrap();
    assert_eq!(out, br#"{"https://example.com":"bob"}"#.to_vec());
}

#[test]
fn list_of_nothing_is_the_empty_object() {
    assert_eq!(list(&Vec::new()).unwrap(), b"{}".to_vec());
    assert_eq!(list(&vec![(".gpg-id".to_string(), None)]).unwrap(), b"{}".to_vec());
}

#[test]
fn list_fails_on_a_name_that_does_not_decode() {
    let entries = vec![("not base64url!".to_string(), Some("alice.gpg".to_string()))];
    assert_eq!(list(&entries), Err(Error::Decode));
    // Valid base64 of bytes that are not UTF-8 text fails the same way.
    let entries = vec![("_w".to_string(), None)];
    assert_eq!(list(&entries), Err(Error::Decode));
}

#[test]
fn erase_removes_exactly_the_requested_directory() {
    assert_eq!(erase("https://example.com\n", true), Ok("aHR0cHM6Ly9leGFtcGxlLmNvbQ".to_string()));
}

#[test]
fn erase_of_a_missing_directory_is_a_filesystem_failure() {
    assert_eq!(erase("https://example.com\n", false), Err(Error::Filesystem));
}
