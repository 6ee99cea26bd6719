//! The shallow JSON shape check used by the front ends.

use nebuladb::util::is_valid_json;

#[test]
fn accepts_balanced_objects() {
    assert!(is_valid_json("{}"));
    assert!(is_valid_json("{\"a\": 1}"));
    assert!(is_valid_json("{\"a\": {\"b\": {}}}"));
}

#[test]
fn rejects_wrong_delimiters() {
    assert!(!is_valid_json(""));
    assert!(!is_valid_json("plain text"));
    assert!(!is_valid_json("[1, 2]"));
    assert!(!is_valid_json("{\"a\": 1"));
    assert!(!is_valid_json("\"a\": 1}"));
}

#[test]
fn rejects_unbalanced_braces() {
    assert!(!is_valid_json("{{}"));
    assert!(!is_valid_json("{}}{{}"));
}
