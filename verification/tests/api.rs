//! The decisions of the HTTP surface.

use postbud::api::{
    bearer, clean_domains, credential_matches, grant_identifier, ingest_access, page_size,
    paginate, require_write, role_for, tenant_name, valid_role, Admin, ApiError, Role,
    DEFAULT_PAGE_SIZE, MAX_PAGE_SIZE,
};

#[test]
fn page_size_defaults_and_is_clamped_at_both_ends() {
    assert_eq!(page_size(None), DEFAULT_PAGE_SIZE);
    assert_eq!(page_size(Some(25)), 25);
    assert_eq!(page_size(Some(MAX_PAGE_SIZE)), MAX_PAGE_SIZE);
    assert_eq!(page_size(Some(100_000)), MAX_PAGE_SIZE);
    assert_eq!(page_size(Some(0)), 1);
    assert_eq!(page_size(Some(-5)), 1);
}

#[test]
fn the_probe_row_is_dropped_and_becomes_the_cursor() {
    let full = paginate(vec![1, 2, 3, 4], 3, |n: &i32| *n);
    assert_eq!(full.items, vec![1, 2, 3]);
    assert_eq!(full.next, Some(3), "the cursor is the LAST kept row");
    assert_eq!(full.limit, 3);

    let last = paginate(vec![1, 2], 3, |n: &i32| *n);
    assert_eq!(last.items, vec![1, 2]);
    assert_eq!(last.next, None, "a short page is the end");
}

#[test]
fn every_error_answers_with_its_status() {
    let cases = [
        (ApiError::Unauthorized, 401, "missing or invalid API key"),
        (ApiError::BadRequest("fix this".into()), 400, "fix this"),
        (ApiError::NotFound, 404, "not found"),
        (ApiError::Forbidden, 403, "this action requires the admin role"),
        (
            ApiError::AdminDisabled,
            503,
            "admin surface is not configured (ADMIN_TOKEN is unset)",
        ),
        (
            ApiError::Internal("postgres://user:secret@db".into()),
            500,
            "internal error",
        ),
    ];
    for (e, status, message) in cases {
        let (s, m) = e.response();
        assert_eq!(s, status);
        assert_eq!(m, message);
    }
}

#[test]
fn a_viewer_is_forbidden_to_write() {
    let viewer = Admin { actor: "v@example.com".into(), role: Role::Viewer };
    assert!(matches!(require_write(viewer), Err(ApiError::Forbidden)));
    let admin = Admin { actor: "admin-token".into(), role: Role::Admin };
    let w = require_write(admin).ok().expect("an admin writes");
    assert_eq!(w.0.actor, "admin-token");
    assert_eq!(Role::Admin.as_str(), "admin");
    assert_eq!(Role::Viewer.as_str(), "viewer");
}

#[test]
fn the_grant_table_decides_and_the_allowlist_only_bootstraps() {
    assert_eq!(role_for(Some("admin"), true, false), Some(Role::Admin));
    assert_eq!(role_for(Some("viewer"), true, true), Some(Role::Viewer));
    assert_eq!(role_for(Some("owner"), true, true), None);
    assert_eq!(role_for(None, false, true), Some(Role::Admin));
    assert_eq!(role_for(None, true, true), None, "the first grant closes the window");
    assert_eq!(role_for(None, false, false), None);
}

#[test]
fn a_bearer_token_is_read_and_trimmed() {
    assert_eq!(bearer(Some("Bearer  abc \n")).as_deref(), Some("abc"));
    assert_eq!(bearer(Some("bearer abc")), None);
    assert_eq!(bearer(Some("Basic abc")), None);
    assert_eq!(bearer(None), None);
}

#[test]
fn ingest_needs_the_configured_token() {
    assert!(matches!(ingest_access(None, Some("Bearer x")), Err(ApiError::Internal(_))));
    assert!(matches!(ingest_access(Some("s3cret"), None), Err(ApiError::Unauthorized)));
    assert!(matches!(
        ingest_access(Some("s3cret"), Some("Bearer wrong")),
        Err(ApiError::Unauthorized)
    ));
    assert!(ingest_access(Some("s3cret"), Some("Bearer s3cret ")).is_ok());
    assert!(ingest_access(Some(" s3cret"), Some("Bearer s3cret")).is_ok());
    assert!(credential_matches("a", " a\n"));
    assert!(!credential_matches("a", "b"));
}

#[test]
fn sending_domains_are_cleaned_and_checked() {
    let ok = clean_domains(&[" Example.COM ".into(), "".into(), "b.example".into()]).unwrap();
    assert_eq!(ok, vec!["example.com".to_string(), "b.example".to_string()]);
    match clean_domains(&["  ".into()]) {
        Err(ApiError::BadRequest(m)) => assert_eq!(m, "at least one sending domain is required"),
        other => panic!("{other:?}"),
    }
    match clean_domains(&["good.example".into(), "x@y.example".into(), "localhost".into()]) {
        Err(ApiError::BadRequest(m)) => assert_eq!(m, "'x@y.example' does not look like a domain"),
        other => panic!("{other:?}"),
    }
}

#[test]
fn names_identifiers_and_roles_are_required() {
    assert_eq!(tenant_name("  Regnmed ").unwrap(), "Regnmed");
    assert!(matches!(tenant_name(" "), Err(ApiError::BadRequest(m)) if m == "name is required"));
    assert!(matches!(
        grant_identifier(""),
        Err(ApiError::BadRequest(m)) if m == "identifier is required"
    ));
    assert!(valid_role("admin").is_ok());
    assert!(valid_role("viewer").is_ok());
    assert!(matches!(
        valid_role("Admin"),
        Err(ApiError::BadRequest(m)) if m == "unknown role 'Admin' (admin or viewer)"
    ));
}
