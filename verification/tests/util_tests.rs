use credential_truth::error::Error;
use credential_truth::lines::for_each_line;
use credential_truth::util::{authors, resolve_storage_root};

#[test]
fn authors_conversion_is_correct() {
    assert_eq!(authors("alice:bob:charlie"), "alice, bob, charlie");
}

#[test]
fn authors_empty_and_plain() {
    assert_eq!(authors(""), "");
    assert_eq!(authors("solo"), "solo");
    assert_eq!(authors("a:b"), "a, b");
}

#[test]
fn write_for_each_line() {
    let mut buf = String::new();

    let input = "Hello world
        Line 2
        This is the third line.";

    let lines = for_each_line(&input.as_bytes().to_vec()).unwrap();
    for line in lines {
        buf.push_str(&format!("{}\n", line));
    }

    assert_eq!(buf.as_str(), format!("{}\n", input));
}

#[test]
fn three_lines_regardless_of_trailing_terminator() {
    let without = for_each_line(&b"one\ntwo\nthree".to_vec()).unwrap();
    let with = for_each_line(&b"one\ntwo\nthree\n".to_vec()).unwrap();
    let crlf = for_each_line(&b"one\r\ntwo\r\nthree\r\n".to_vec()).unwrap();
    let expected = vec!["one".to_string(), "two".to_string(), "three".to_string()];
    assert_eq!(without, expected);
    assert_eq!(with, expected);
    assert_eq!(crlf, expected);
}

#[test]
fn for_each_line_keeps_interior_empty_lines() {
    let lines = for_each_line(&b"a\n\nb\n".to_vec()).unwrap();
    assert_eq!(lines, vec!["a".to_string(), "".to_string(), "b".to_string()]);
    assert_eq!(for_each_line(&Vec::new()).unwrap(), Vec::<String>::new());
}

#[test]
fn for_each_line_rejects_invalid_text() {
    let result = for_each_line(&vec![104, 105, 10, 0xFF, 0xFE]);
    assert_eq!(result, Err(Error::Io));
}

#[test]
fn password_store_dir_from_env() {
    let resolved = resolve_storage_root(Some("/.docker-auth/".to_string()), None);
    assert_eq!(resolved, Ok("/.docker-auth/".to_string()));
    let overridden = resolve_storage_root(
        Some("/.docker-auth/".to_string()),
        Some("/home/will".to_string()),
    );
    assert_eq!(overridden, Ok("/.docker-auth/".to_string()));
}

#[test]
fn default_password_store_dir() {
    let resolved = resolve_storage_root(None, Some("/home/will".to_string()));
    assert_eq!(resolved, Ok("/home/will/.docker-credential-truth".to_string()));
}

#[test]
fn storage_root_needs_home_or_override() {
    assert_eq!(resolve_storage_root(None, None), Err(Error::Config));
}

#[test]
fn error_messages_name_each_failure() {
    assert_eq!(Error::Config.message(), "The home directory could not be determined.");
    assert_eq!(Error::NotFound.message(), "No entry for the given server found.");
    assert_eq!(Error::Malformed.message(), "The input could not be parsed.");
    assert_eq!(Error::Io.message(), "A subprocess stream could not be used.");
    assert_eq!(Error::Filesystem.message(), "The entry's directory could not be removed.");
    assert_eq!(Error::Decode.message(), "A directory name is not a valid encoded URL.");
}
