//! Relay identity evaluation.

use postbud::dnscheck::Status;
use postbud::rdns::{evaluate, Observed};

fn observed(ips: &[&str], ptrs: &[&str], banner: Option<&str>) -> Observed {
    Observed {
        forward_ips: ips.iter().map(|s| s.to_string()).collect(),
        ptr_names: ptrs.iter().map(|s| s.to_string()).collect(),
        banner_host: banner.map(|s| s.to_string()),
    }
}

#[test]
fn a_fully_aligned_relay_is_valid() {
    let result = evaluate(
        "postbud.bogentech.no",
        &observed(
            &["85.137.228.199"],
            &["postbud.bogentech.no"],
            Some("postbud.bogentech.no"),
        ),
    );
    assert!(result.valid);
    assert_eq!(result.ptr.status, Status::Okay);
    assert_eq!(result.helo.unwrap().status, Status::Okay);
}

#[test]
fn a_missing_ptr_is_reported_as_missing_not_as_a_mismatch() {
    let result = evaluate(
        "postbud.bogentech.no",
        &observed(&["85.137.228.199"], &[], Some("postbud.bogentech.no")),
    );
    assert!(!result.valid);
    assert_eq!(result.ptr.status, Status::Missing);
    assert!(result.ptr.observed.unwrap().contains("owner"));
}

#[test]
fn a_generic_provider_ptr_is_a_mismatch() {
    let result = evaluate(
        "postbud.bogentech.no",
        &observed(
            &["85.137.228.199"],
            &["static-85-137-228-199.example-isp.net"],
            Some("postbud.bogentech.no"),
        ),
    );
    assert!(!result.valid);
    assert_eq!(result.ptr.status, Status::Mismatch);
}

#[test]
fn a_default_helo_fails_even_when_dns_is_right() {
    let result = evaluate(
        "postbud.bogentech.no",
        &observed(
            &["85.137.228.199"],
            &["postbud.bogentech.no"],
            Some("localhost.localdomain"),
        ),
    );
    assert!(!result.valid);
    assert_eq!(result.helo.unwrap().status, Status::Mismatch);
}

#[test]
fn an_unreadable_greeting_is_unknown_rather_than_failed() {
    let result = evaluate(
        "postbud.bogentech.no",
        &observed(&["85.137.228.199"], &["postbud.bogentech.no"], None),
    );
    assert!(
        result.valid,
        "DNS is correct; the greeting is merely unknown"
    );
    assert!(result.helo.is_none());
}

#[test]
fn names_compare_ignoring_case_and_the_root_dot() {
    let result = evaluate(
        "postbud.bogentech.no",
        &observed(
            &["85.137.228.199"],
            &["Postbud.BogenTech.No."],
            Some("POSTBUD.bogentech.no"),
        ),
    );
    assert!(result.valid);
}

#[test]
fn a_host_that_resolves_nowhere_is_missing() {
    let result = evaluate("postbud.bogentech.no", &observed(&[], &[], None));
    assert!(!result.valid);
    assert_eq!(result.forward.status, Status::Missing);
}

#[test]
fn several_ptrs_pass_when_one_matches_and_the_rest_stay_visible() {
    let result = evaluate(
        "postbud.bogentech.no",
        &observed(
            &["85.137.228.199"],
            &["postbud.bogentech.no", "old-name.example.net"],
            Some("postbud.bogentech.no"),
        ),
    );
    assert!(result.valid);
    assert!(
        result
            .ptr
            .observed
            .unwrap()
            .contains("old-name.example.net")
    );
}

#[test]
fn the_observed_texts_list_what_was_seen() {
    let result = evaluate(
        "relay.example",
        &observed(&["192.0.2.1", "2001:db8::1"], &[], Some("Relay.Example.")),
    );
    assert_eq!(result.forward.observed.as_deref(), Some("192.0.2.1, 2001:db8::1"));
    assert_eq!(
        result.ptr.observed.as_deref(),
        Some("no PTR \u{2014} the address's owner must set it")
    );
    let helo = result.helo.unwrap();
    assert_eq!(helo.status, Status::Okay);
    assert_eq!(helo.observed.as_deref(), Some("Relay.Example."));
}
