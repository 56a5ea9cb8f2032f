//! Who gets into the admin surface, and with which role.

use postbud::api::{admission, issuer_admission, Admission, ApiError, Role};
use postbud::ledger::{accepted_status, Ingested, Reconciled};

#[test]
fn an_unconfigured_surface_answers_disabled() {
    assert!(matches!(
        admission(None, false, Some("Bearer anything")),
        Admission::Refused(ApiError::AdminDisabled)
    ));
    assert!(matches!(admission(None, false, None), Admission::Refused(ApiError::AdminDisabled)));
}

#[test]
fn a_missing_bearer_is_unauthorized() {
    assert!(matches!(admission(Some("s3cret"), false, None), Admission::Refused(ApiError::Unauthorized)));
    assert!(matches!(
        admission(Some("s3cret"), true, Some("Basic abc")),
        Admission::Refused(ApiError::Unauthorized)
    ));
}

#[test]
fn the_configured_token_is_an_admin() {
    match admission(Some("s3cret"), true, Some("Bearer s3cret")) {
        Admission::Admitted(a) => {
            assert_eq!(a.actor, "admin-token");
            assert_eq!(a.role, Role::Admin);
        }
        _ => panic!("expected the break-glass token to be admitted"),
    }
}

#[test]
fn another_token_goes_to_the_issuer_only_when_oidc_is_on() {
    match admission(Some("s3cret"), true, Some("Bearer eyJ.token")) {
        Admission::AskIssuer(t) => assert_eq!(t, "eyJ.token"),
        _ => panic!("expected the issuer to be asked"),
    }
    match admission(None, true, Some("Bearer eyJ.token")) {
        Admission::AskIssuer(t) => assert_eq!(t, "eyJ.token"),
        _ => panic!("expected the issuer to be asked"),
    }
    assert!(matches!(
        admission(Some("s3cret"), false, Some("Bearer wrong")),
        Admission::Refused(ApiError::Unauthorized)
    ));
}

#[test]
fn an_issuer_vouched_caller_takes_the_granted_role() {
    let a = issuer_admission("sub-1", Some("ops@example.com"), Some("viewer"), true, false).unwrap();
    assert_eq!(a.actor, "ops@example.com");
    assert_eq!(a.role, Role::Viewer);
    let b = issuer_admission("sub-1", None, Some("admin"), true, false).unwrap();
    assert_eq!(b.actor, "sub-1");
    assert_eq!(b.role, Role::Admin);
}

#[test]
fn the_first_allowlisted_login_bootstraps_an_admin() {
    let a = issuer_admission("sub-2", None, None, false, true).unwrap();
    assert_eq!(a.role, Role::Admin);
    assert!(matches!(issuer_admission("sub-2", None, None, true, true), Err(ApiError::Unauthorized)));
    assert!(matches!(issuer_admission("sub-2", None, None, false, false), Err(ApiError::Unauthorized)));
    assert!(matches!(
        issuer_admission("sub-2", None, Some("owner"), false, true),
        Err(ApiError::Unauthorized)
    ));
}

#[test]
fn a_suppressed_recipient_is_recorded_not_queued() {
    assert_eq!(accepted_status(true), "suppressed");
    assert_eq!(accepted_status(false), "queued");
}

#[test]
fn bounce_reports_are_counted_by_outcome() {
    let mut out = Ingested::default();
    out.count(true, true);
    out.count(false, false);
    out.count(true, false);
    assert_eq!(out.reports, 3);
    assert_eq!(out.unmatched, 1);
    assert_eq!(out.suppressed, 1);
}

#[test]
fn queue_entries_are_counted_and_strangers_noted() {
    let mut out = Reconciled::default();
    out.count(true);
    out.count(false);
    assert_eq!(out, Reconciled { queued: 2, delivered: 0, unmatched: 1 });
}

#[test]
fn only_newly_queued_work_wakes_the_workers() {
    assert!(postbud::ledger::wakes_workers(false, false));
    assert!(!postbud::ledger::wakes_workers(true, false));
    assert!(!postbud::ledger::wakes_workers(false, true));
    assert!(!postbud::ledger::wakes_workers(true, true));
}
