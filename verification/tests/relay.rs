//! The handoff to Postfix and what each answer means.

use postbud::relay::{
    body_shape, delivery_record, from_header, message_id, queue_id_from, reply_code, tls_mode,
    BodyShape, Outcome, Record, TlsMode,
};
use std::time::Duration;

#[test]
fn queue_id_is_read_from_the_postfix_acceptance_line() {
    assert_eq!(
        queue_id_from("2.0.0 Ok: queued as 4bXlNq2Qh8z1Yk").as_deref(),
        Some("4bXlNq2Qh8z1Yk")
    );
}

#[test]
fn a_response_without_a_queue_id_is_not_invented() {
    assert_eq!(queue_id_from("2.0.0 Ok"), None);
    assert_eq!(queue_id_from(""), None);
}

#[test]
fn the_queue_id_stops_at_the_first_non_alphanumeric() {
    assert_eq!(queue_id_from("queued as ABC123 (mail)").as_deref(), Some("ABC123"));
    assert_eq!(queue_id_from("queued as  X"), None);
    assert_eq!(queue_id_from("queued as X queued as Y").as_deref(), Some("X"));
}

#[test]
fn headers_carry_the_sender_and_its_domain() {
    assert_eq!(
        from_header("invoice@sender.example", Some("Sender")),
        "Sender <invoice@sender.example>"
    );
    assert_eq!(from_header("invoice@sender.example", None), "invoice@sender.example");
    assert_eq!(
        message_id("0d2c7e2a", "invoice@sender.example"),
        "<0d2c7e2a@sender.example>"
    );
    assert_eq!(message_id("1", "no-domain"), "<1@postbud.invalid>");
}

#[test]
fn the_body_follows_what_the_message_has() {
    assert_eq!(body_shape(true, true), Ok(BodyShape::Alternative));
    assert_eq!(body_shape(false, true), Ok(BodyShape::HtmlOnly));
    assert_eq!(body_shape(true, false), Ok(BodyShape::TextOnly));
    assert_eq!(body_shape(false, false), Err("message has neither a text nor an html body"));
}

#[test]
fn settings_and_codes_are_read_strictly() {
    assert_eq!(tls_mode("starttls"), Some(TlsMode::StartTls));
    assert_eq!(tls_mode("tls"), Some(TlsMode::Tls));
    assert_eq!(tls_mode("none"), Some(TlsMode::Plain));
    assert_eq!(tls_mode("TLS"), None);
    assert_eq!(reply_code("550 5.1.1 no such user"), 550);
    assert_eq!(reply_code("  421"), 421);
    assert_eq!(reply_code("later"), 0);
    assert_eq!(reply_code(""), 0);
    assert_eq!(reply_code("99999999999"), 0);
}

#[test]
fn each_outcome_is_recorded_as_it_should_be() {
    match delivery_record(0, Outcome::Accepted { queue_id: Some("Q".into()) }) {
        Record::Sent { attempt, queue_id } => {
            assert_eq!(attempt, 1);
            assert_eq!(queue_id.as_deref(), Some("Q"));
        },
        other => panic!("{other:?}"),
    }
    match delivery_record(2, Outcome::Transient { code: Some(421), detail: "busy".into() }) {
        Record::Retry { attempt, delay, .. } => {
            assert_eq!(attempt, 3);
            assert_eq!(delay, Duration::from_secs(3600));
        },
        other => panic!("{other:?}"),
    }
    match delivery_record(8, Outcome::Transient { code: None, detail: "busy".into() }) {
        Record::Failed { attempt, detail, .. } => {
            assert_eq!(attempt, 9);
            assert_eq!(detail, "giving up after 9 attempts: busy");
        },
        other => panic!("{other:?}"),
    }
    match delivery_record(0, Outcome::Permanent { code: Some(550), detail: "gone".into() }) {
        Record::Failed { attempt, code, detail } => {
            assert_eq!((attempt, code, detail.as_str()), (1, Some(550), "gone"));
        },
        other => panic!("{other:?}"),
    }
}

#[test]
fn message_id_is_bracketed_and_uses_the_senders_domain() {
    let id = uuid::Uuid::new_v4();
    assert_eq!(
        message_id(&id.to_string(), "invoice@sender.example"),
        format!("<{id}@sender.example>")
    );
}
