//! The OIDC allowlist.

use postbud::oidc::{allowlisted, issuer_of, parse_users};

#[test]
fn the_allowlist_is_a_clean_list() {
    assert_eq!(
        parse_users(" admin@example.com, ,user-42 ,"),
        vec!["admin@example.com".to_string(), "user-42".to_string()]
    );
    assert!(parse_users(" , ").is_empty());
}

#[test]
fn allowlist_matches_email_case_insensitively_and_sub_exactly() {
    let users = parse_users("admin@example.com,user-42");
    assert!(allowlisted(&users, "whoever", Some("Admin@Example.COM")));
    assert!(allowlisted(&users, "user-42", None));
    assert!(!allowlisted(&users, "USER-42", None), "sub is exact");
    assert!(!allowlisted(&users, "x", Some("other@example.com")));
}

#[test]
fn the_issuer_loses_trailing_slashes() {
    assert_eq!(issuer_of("https://id.example//"), "https://id.example");
    assert_eq!(issuer_of("https://id.example"), "https://id.example");
}

#[test]
fn a_login_is_recorded_by_its_email_when_it_has_one() {
    assert_eq!(postbud::oidc::actor("1234567890", Some("ada@example.com")), "ada@example.com");
    assert_eq!(postbud::oidc::actor("1234567890", None), "1234567890");
}
