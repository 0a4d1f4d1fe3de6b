use dolphin::names::{
    is_dotted_name_text, is_identifier_text, is_semver_text, is_valid_repository_id,
    to_ascii_lowercase,
};
use dolphin::order::str_lt;

#[test]
fn semantic_versions() {
    assert!(is_semver_text("0.1.0"));
    assert!(is_semver_text("1.0.0-alpha.1"));
    assert!(is_semver_text("1.0.0+build.5"));
    assert!(is_semver_text("1.0.0-rc-1+b"));
    assert!(!is_semver_text("1.0"));
    assert!(!is_semver_text("1.0.0.0"));
    assert!(!is_semver_text("1..0"));
    assert!(!is_semver_text("a.b.c"));
    assert!(!is_semver_text("1.0.0-"));
    assert!(!is_semver_text("1.0.0-a..b"));
    assert!(!is_semver_text("1.0.0+a+b"));
    assert!(!is_semver_text("1.0.0-a/b"));
}

#[test]
fn identifiers_and_groups() {
    assert!(is_identifier_text("_a1"));
    assert!(!is_identifier_text("1a"));
    assert!(!is_identifier_text(""));
    assert!(is_dotted_name_text("me.foxlab"));
    assert!(is_dotted_name_text("1.2"));
    assert!(!is_dotted_name_text(""));
    assert!(!is_dotted_name_text("a..b"));
    assert!(!is_dotted_name_text("a.b-c"));
}

#[test]
fn repository_ids_and_case() {
    assert!(is_valid_repository_id("Main_2"));
    assert!(!is_valid_repository_id("_main"));
    assert!(!is_valid_repository_id("2bad"));
    assert_eq!(to_ascii_lowercase("MiXeD-Ünï"), "mixed-Ünï");
}

#[test]
fn text_order_is_code_point_order() {
    assert!(str_lt("a", "b"));
    assert!(str_lt("a", "ab"));
    assert!(!str_lt("ab", "a"));
    assert!(!str_lt("a", "a"));
    assert!(str_lt("B", "a"));
    assert!(str_lt("", "a"));
}
