use forever_world::versions::{compare_pack_versions, is_version_after};
use std::cmp::Ordering;

#[test]
fn numeric_versions_compare_by_number() {
    assert_eq!(compare_pack_versions("1.10.0", "1.9.0"), Ordering::Greater);
    assert_eq!(compare_pack_versions("1.9.0", "1.10.0"), Ordering::Less);
    assert_eq!(compare_pack_versions("2.0.0", "2.0.0"), Ordering::Equal);
    assert!(is_version_after("1.2.10", "1.2.9"));
}

#[test]
fn other_versions_compare_as_text() {
    assert_eq!(compare_pack_versions("1.2", "1.10"), Ordering::Greater);
    assert_eq!(compare_pack_versions("1.2.0-beta", "1.2.0"), Ordering::Greater);
    assert_eq!(compare_pack_versions("1.2.0", "1.2.0.1"), Ordering::Less);
}
