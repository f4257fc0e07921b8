use yart::tags::{find_biggest_tag, remove_v_prefix};
use yart::SemVer;

#[test]
fn test_find_biggest_tag() {
    let input = r"
        v0.3.0
        v0.4.0
        v0.2.0
        0.6.0
        ";
    let expected = SemVer::new(0, 4, 0);
    let actual = find_biggest_tag(input).unwrap();
    assert_eq!(expected, actual);
}

#[test]
fn test_find_biggest_tag_no_tags() {
    let input = r"
        not-a-valid-tag
        ";
    assert!(find_biggest_tag(input).is_none());
}

#[test]
fn biggest_tag_compares_numerically() {
    assert_eq!(
        find_biggest_tag("v1.9.0\nv1.10.0\nv1.2.30\r\nv\nvx.y.z\n"),
        Some(SemVer::new(1, 10, 0))
    );
}

#[test]
fn v_prefix_needs_something_after_it() {
    assert_eq!(remove_v_prefix("v1.2.3"), Some("1.2.3"));
    assert_eq!(remove_v_prefix("v"), None);
    assert_eq!(remove_v_prefix("1.2.3"), None);
}
