//! What a submission must carry.

use postbud::api::ApiError;
use postbud::submit::{validate, AttachmentRequest, SubmitRequest};

fn request() -> SubmitRequest {
    SubmitRequest {
        idempotency_key: Some("utsendelse-1".into()),
        from: " Invoice@Example.COM ".into(),
        from_name: Some("Example".into()),
        to: "customer@Example.net".into(),
        reply_to: Some("help@Example.COM".into()),
        subject: "Invoice 1001".into(),
        text: Some("Attached.".into()),
        html: None,
        attachments: vec![AttachmentRequest {
            filename: "invoice.pdf".into(),
            content_type: "application/pdf".into(),
            content_base64: "JVBERi0xLjQ=".into(),
        }],
    }
}

fn allowed() -> Vec<String> {
    vec!["example.com".into(), "billing.example.org".into()]
}

fn refusal(r: Result<postbud::submit::Submission, ApiError>) -> String {
    match r {
        Err(ApiError::BadRequest(m)) => m,
        other => panic!("expected a refusal, got {other:?}"),
    }
}

#[test]
fn a_good_submission_is_normalized_and_decoded() {
    let s = validate(&request(), "regnmed", &allowed()).unwrap();
    assert_eq!(s.mail_from, "Invoice@example.com");
    assert_eq!(s.rcpt_to, "customer@example.net");
    assert_eq!(s.reply_to.as_deref(), Some("help@example.com"));
    assert_eq!(s.attachments.len(), 1);
    assert_eq!(s.attachments[0].content, b"%PDF-1.4".to_vec());
    assert_eq!(s.attachments[0].filename, "invoice.pdf");
}

#[test]
fn addresses_are_refused_by_field() {
    let mut r = request();
    r.from = "nobody".into();
    assert_eq!(refusal(validate(&r, "t", &allowed())), "from: address has no '@'");
    let mut r = request();
    r.to = "".into();
    assert_eq!(refusal(validate(&r, "t", &allowed())), "to: address is empty");
    let mut r = request();
    r.reply_to = Some("x@localhost".into());
    assert_eq!(refusal(validate(&r, "t", &allowed())), "reply_to: domain has no dot");
}

#[test]
fn a_tenant_sends_only_as_its_own_domains() {
    let mut r = request();
    r.from = "ceo@phish.example.com".into();
    assert_eq!(
        refusal(validate(&r, "regnmed", &allowed())),
        "tenant 'regnmed' may not send as ceo@phish.example.com (allowed domains: example.com, billing.example.org)"
    );
}

#[test]
fn a_body_and_a_subject_are_required() {
    let mut r = request();
    r.text = None;
    assert_eq!(refusal(validate(&r, "t", &allowed())), "one of 'text' or 'html' is required");
    r.html = Some("<p>hi</p>".into());
    assert!(validate(&r, "t", &allowed()).is_ok());
    let mut r = request();
    r.subject = " \t".into();
    assert_eq!(refusal(validate(&r, "t", &allowed())), "subject is required");
}

#[test]
fn an_attachment_that_is_not_base64_is_named() {
    let mut r = request();
    r.attachments.push(AttachmentRequest {
        filename: "broken.txt".into(),
        content_type: "text/plain".into(),
        content_base64: "not base64!".into(),
    });
    let m = refusal(validate(&r, "t", &allowed()));
    assert!(
        m.starts_with("attachment 'broken.txt': content_base64 is not valid base64: "),
        "{m}"
    );
}

#[test]
fn an_address_field_is_refused_by_name() {
    assert_eq!(
        postbud::submit::address_field("address", "  Someone@Example.COM ").unwrap(),
        "Someone@example.com"
    );
    match postbud::submit::address_field("address", "nobody") {
        Err(postbud::api::ApiError::BadRequest(m)) => assert!(m.starts_with("address: "), "{m}"),
        other => panic!("expected a refusal, got {other:?}"),
    }
}
