use gamemaster::update::{bytes_eq, check_etag, EtagDecision};

#[test]
fn same_etag_is_skipped() {
    assert!(matches!(check_etag(b"abc", Some(b"abc")), EtagDecision::Skip));
    assert!(matches!(check_etag(b"", Some(b"")), EtagDecision::Skip));
}

#[test]
fn new_etag_is_loaded_and_kept() {
    match check_etag(b"abc", Some(b"abd")) {
        EtagDecision::Load { new_etag: Some(t) } => assert_eq!(t, b"abd".to_vec()),
        other => panic!("unexpected {:?}", other),
    }
    match check_etag(b"", Some(b"W/\"1\"")) {
        EtagDecision::Load { new_etag: Some(t) } => assert_eq!(t, b"W/\"1\"".to_vec()),
        other => panic!("unexpected {:?}", other),
    }
}

#[test]
fn missing_etag_is_loaded_without_tag() {
    assert!(matches!(check_etag(b"abc", None), EtagDecision::Load { new_etag: None }));
}

#[test]
fn byte_equality() {
    assert!(bytes_eq(b"", b""));
    assert!(bytes_eq(b"xy", b"xy"));
    assert!(!bytes_eq(b"xy", b"x"));
    assert!(!bytes_eq(b"xy", b"xz"));
}
