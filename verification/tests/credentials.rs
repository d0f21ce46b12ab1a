use gitamicus::credentials::{encode_credentials, parse_credentials};

#[test]
fn test_parse_three_lines() {
    let (user, token, path) = parse_credentials("alice\nSECRET-REDACTED\n/home/alice/repo");
    assert_eq!(user, "alice");
    assert_eq!(token, "SECRET-REDACTED");
    assert_eq!(path, "/home/alice/repo");
}

#[test]
fn test_parse_trims_line_endings() {
    let (user, token, path) = parse_credentials("alice\r\nSECRET-REDACTED\r\n/repo\r\n");
    assert_eq!(user, "alice");
    assert_eq!(token, "SECRET-REDACTED");
    assert_eq!(path, "/repo");
}

#[test]
fn test_parse_missing_lines_are_empty() {
    let (user, token, path) = parse_credentials("alice");
    assert_eq!(user, "alice");
    assert_eq!(token, "");
    assert_eq!(path, "");
}

#[test]
fn test_parse_empty_file() {
    let (user, token, path) = parse_credentials("");
    assert_eq!(user, "");
    assert_eq!(token, "");
    assert_eq!(path, "");
}

#[test]
fn test_encode_three_lines() {
    let text = encode_credentials("alice", "SECRET-REDACTED", "/repo");
    assert_eq!(text, "alice\nSECRET-REDACTED\n/repo");
}

#[test]
fn test_encode_then_parse_round_trip() {
    let text = encode_credentials("bob", "SECRET-REDACTED", "/work/repo");
    let (user, token, path) = parse_credentials(&text);
    assert_eq!(user, "bob");
    assert_eq!(token, "SECRET-REDACTED");
    assert_eq!(path, "/work/repo");
}
