//! Which tenant may send as which sender.

use postbud::authz::may_send_as;

fn domains() -> Vec<String> {
    vec!["example.com".into(), "billing.example.org".into()]
}

#[test]
fn listed_domains_are_allowed_case_insensitively() {
    assert!(may_send_as("no-reply@example.com", &domains()));
    assert!(may_send_as("invoice@BILLING.EXAMPLE.ORG", &domains()));
}

#[test]
fn an_unlisted_domain_is_refused() {
    assert!(!may_send_as("no-reply@other.example", &domains()));
}

/// A stolen key for one tenant cannot be used to send as anyone else.
#[test]
fn a_subdomain_is_not_implied_by_its_parent() {
    assert!(!may_send_as("no-reply@phish.example.com", &domains()));
}

#[test]
fn a_malformed_sender_is_refused_rather_than_matched() {
    assert!(!may_send_as("no-reply", &domains()));
    assert!(!may_send_as("", &domains()));
}

#[test]
fn listed_domains_are_compared_trimmed() {
    let padded = vec!["  Example.COM ".to_string()];
    assert!(may_send_as("a@example.com", &padded));
    assert!(!may_send_as("a@example.com", &Vec::new()));
}
