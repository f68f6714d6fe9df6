//! Tests for the fresh-id and clock helpers.

use tin::runtime::generate_id;
use tin::runtime::now_iso;

#[test]
fn test_generate_id() {
    let id1 = generate_id();
    let id2 = generate_id();
    assert!(!id1.is_empty());
    assert!(!id2.is_empty());
    assert_ne!(id1, id2);
}

#[test]
fn test_now_iso() {
    let now = now_iso();
    assert!(now.contains("T"));
    assert!(now.ends_with("Z"));
}
