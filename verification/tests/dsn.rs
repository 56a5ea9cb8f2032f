//! Bounce (DSN) reading: what is suppressed and what is not.

use postbud::classification::Classification;
use postbud::dsn::{names_a_missing_mailbox, parse, recipient_is_the_problem, Report};


    /// A real Postfix hard bounce, trimmed to the reporting parts.
    const HARD_BOUNCE: &str = "\
Content-Type: message/delivery-status

Reporting-MTA: dns; mail.example.org
X-Postfix-Queue-ID: 4bXlNq2Qh8z1Yk
X-Postfix-Sender: rfc822; no-reply@example.org
Arrival-Date: Thu, 7 Aug 2026 09:14:02 +0200 (CEST)

Final-Recipient: rfc822; nosuch@example.com
Original-Recipient: rfc822;nosuch@example.com
Action: failed
Status: 5.1.1
Remote-MTA: dns; mx.example.com
Diagnostic-Code: smtp; 550 5.1.1 <nosuch@example.com>: Recipient address
    rejected: User unknown in local recipient table
";

    /// What Postfix returns when a message outlives
    /// `maximal_queue_lifetime`. Note the contradiction it carries: RFC
    /// 3464 defines `Action: failed` as permanent, while the enhanced
    /// status is 4.x, which is transient.
    const EXPIRY_BOUNCE: &str = "\
Content-Type: message/delivery-status

Reporting-MTA: dns; mail.example.org
X-Postfix-Queue-ID: 08785F9FED

Final-Recipient: rfc822; user@example.net
Action: failed
Status: 4.4.7
Diagnostic-Code: X-Postfix; delivery time expired
";

    /// The status must win over the action.
    ///
    /// A destination that blocked us for four days is not a dead mailbox,
    /// and suppressing on this would take a working address out of
    /// service globally because someone else's network was down. Reading
    /// `Action: failed` as authoritative is the obvious mistake here, and
    /// this is what stops it being made later.
    #[test]
    fn an_expired_queue_entry_never_suppresses() {
        let reports = parse(EXPIRY_BOUNCE);
        assert_eq!(reports.len(), 1);
        let r = &reports[0];
        assert_eq!(r.relay_queue_id.as_deref(), Some("08785F9FED"));
        assert_eq!(r.status.as_deref(), Some("4.4.7"));
        assert_eq!(r.classification, Classification::Transient);
        assert!(!r.should_suppress());
    }

    #[test]
    fn a_hard_bounce_yields_the_queue_id_and_suppresses() {
        let reports = parse(HARD_BOUNCE);
        assert_eq!(reports.len(), 1);
        let r = &reports[0];
        assert_eq!(r.relay_queue_id.as_deref(), Some("4bXlNq2Qh8z1Yk"));
        assert_eq!(r.final_recipient.as_deref(), Some("nosuch@example.com"));
        assert_eq!(r.status.as_deref(), Some("5.1.1"));
        assert_eq!(r.classification, Classification::Permanent);
        assert!(r.should_suppress());
    }

    /// The folded Diagnostic-Code must come back as one string — it is the
    /// text a human reads when asking why a customer never got an invoice.
    #[test]
    fn folded_diagnostic_lines_are_joined() {
        let reports = parse(HARD_BOUNCE);
        let diagnostic = reports[0].diagnostic.as_deref().unwrap();
        assert!(diagnostic.ends_with("User unknown in local recipient table"));
        assert!(!diagnostic.contains('\n'));
    }

    #[test]
    fn a_deferred_report_does_not_suppress() {
        let raw = "X-Postfix-Queue-ID: ABC123\n\
                   Final-Recipient: rfc822; busy@example.com\n\
                   Action: delayed\n\
                   Status: 4.2.2\n";
        let reports = parse(raw);
        assert_eq!(reports[0].classification, Classification::Transient);
        assert!(!reports[0].should_suppress());
    }

    /// One failed report carrying `status`, for the tables below.
    fn one_report(status: &str) -> Report {
        let raw = format!(
            "X-Postfix-Queue-ID: TESTQ\n\
             Final-Recipient: rfc822; recipient@example.com\n\
             Action: failed\n\
             Status: {status}\n"
        );
        parse(&raw).into_iter().next().expect("one report")
    }

    /// A policy rejection is permanent and still must not suppress.
    ///
    /// This is the shape of a DMARC `p=reject` refusal — including
    /// Google's `5.7.26` for a message that aligned on neither SPF nor
    /// DKIM. Every one of these is caused by our own authentication
    /// breaking, and every one of them names a recipient who is fine.
    /// Suppressing here empties a working address list over an outage the
    /// recipient had no part in.
    #[test]
    fn a_policy_rejection_never_suppresses() {
        for status in ["5.7.0", "5.7.1", "5.7.9", "5.7.26"] {
            let r = one_report(status);
            assert_eq!(r.classification, Classification::Permanent);
            assert!(!r.should_suppress(), "{status} must not suppress");
        }
    }

    /// The codes that really do mean the mailbox is gone keep suppressing.
    /// Narrowing the rule must not quietly disable the feature.
    #[test]
    fn a_dead_address_still_suppresses() {
        for status in ["5.1.1", "5.1.2", "5.1.3", "5.1.6", "5.1.10", "5.2.1"] {
            let r = one_report(status);
            assert!(r.should_suppress(), "{status} must suppress");
        }
    }

    /// The case that put this rule here, verbatim from production.
    ///
    /// Domeneshop runs a sendmail-derived server, which answers a
    /// nonexistent mailbox with `553 5.3.0 ... No such user here`. The
    /// code files it under MAIL SYSTEM, where nothing may suppress; only
    /// the words say what actually happened. Without this the address is
    /// mailed forever and the relay's reputation pays for it.
    #[test]
    fn a_dead_mailbox_suppresses_on_the_receivers_words() {
        let raw = "X-Postfix-Queue-ID: B3F1716F856\n\
                   Final-Recipient: rfc822; nobody@example.com\n\
                   Action: failed\n\
                   Status: 5.3.0\n\
                   Diagnostic-Code: smtp; 553 5.3.0 <nobody@example.com>... \
                   No such user here\n";
        let r = &parse(raw)[0];
        assert_eq!(r.status.as_deref(), Some("5.3.0"));
        assert!(r.should_suppress(), "the words name a missing mailbox");
    }

    #[test]
    fn the_wording_is_matched_whatever_the_case_and_spacing() {
        for text in [
            "550 USER UNKNOWN",
            "550 Recipient  not   found",
            "550 Mailbox not found",
            "550 no mailbox here by that name",
        ] {
            let raw = format!(
                "Final-Recipient: rfc822; nobody@example.com\n\
                 Status: 5.0.0\n\
                 Diagnostic-Code: smtp; {text}\n"
            );
            assert!(parse(&raw)[0].should_suppress(), "{text} must suppress");
        }
    }

    /// A 5.3.0 that really is a mail-system failure must stay untouched:
    /// the point of the phrase list is that it names the RECIPIENT, and a
    /// full disk at the far end says nothing about who was written to.
    #[test]
    fn a_real_system_failure_still_never_suppresses() {
        for text in [
            "452 4.3.1 Insufficient system storage",
            "550 5.3.0 Mail system rejected the message",
            "550 5.7.1 Message rejected due to policy",
            "550 5.2.2 Mailbox full",
        ] {
            let raw = format!(
                "Final-Recipient: rfc822; nobody@example.com\n\
                 Status: 5.3.0\n\
                 Diagnostic-Code: smtp; {text}\n"
            );
            assert!(
                !parse(&raw)[0].should_suppress(),
                "{text} must not suppress"
            );
        }
    }

    /// The words never outrank permanence. A receiver that defers while
    /// saying "user unknown" is contradicting itself, and the safe reading
    /// of a contradiction keeps writing to the address.
    #[test]
    fn a_transient_failure_is_not_rescued_by_its_wording() {
        let raw = "Final-Recipient: rfc822; nobody@example.com\n\
                   Status: 4.2.0\n\
                   Diagnostic-Code: smtp; 450 no such user, try later\n";
        assert!(!parse(raw)[0].should_suppress());
    }

    /// Permanent, but not about the address: a full mailbox gets emptied,
    /// an oversized message gets sent again smaller, a broken network gets
    /// fixed, and a bare `5.0.0` tells us nothing whatsoever.
    #[test]
    fn a_permanent_failure_that_is_not_the_address_never_suppresses() {
        for status in [
            "5.0.0", "5.1.0", "5.1.7", "5.1.8", "5.2.2", "5.2.3", "5.3.0", "5.4.4", "5.5.2",
            "5.6.1",
        ] {
            let r = one_report(status);
            assert_eq!(r.classification, Classification::Permanent);
            assert!(!r.should_suppress(), "{status} must not suppress");
        }
    }

    #[test]
    fn several_recipients_produce_several_reports_sharing_the_queue_id() {
        let raw = "X-Postfix-Queue-ID: QQQ\n\
                   Final-Recipient: rfc822; a@example.com\n\
                   Status: 5.1.1\n\
                   \n\
                   Final-Recipient: rfc822; b@example.com\n\
                   Status: 4.4.1\n";
        let reports = parse(raw);
        assert_eq!(reports.len(), 2);
        assert!(
            reports
                .iter()
                .all(|r| r.relay_queue_id.as_deref() == Some("QQQ"))
        );
        assert_eq!(reports[0].classification, Classification::Permanent);
        assert_eq!(reports[1].classification, Classification::Transient);
    }

    /// Nothing recognizable must produce nothing — never a fabricated
    /// "everything was fine", and never a suppression.
    #[test]
    fn unreadable_input_yields_no_reports() {
        assert!(parse("this is not a bounce at all").is_empty());
        assert!(parse("").is_empty());
    }

#[test]
fn the_status_allowlist_is_exact() {
    assert!(recipient_is_the_problem("5.1.1"));
    assert!(recipient_is_the_problem(" 5.1.10 "));
    assert!(!recipient_is_the_problem("5.1.100"));
    assert!(!recipient_is_the_problem("5"));
    assert!(!recipient_is_the_problem(""));
}

#[test]
fn missing_mailbox_phrases_ignore_case_and_spacing() {
    assert!(names_a_missing_mailbox("553 5.3.0 <a@b>... No  such\tUSER here"));
    assert!(!names_a_missing_mailbox("550 5.2.2 Mailbox full"));
    assert!(!names_a_missing_mailbox("domain does not exist"));
}

#[test]
fn a_crlf_bounce_reads_the_same() {
    let raw = "X-Postfix-Queue-ID: CRLF1\r\nFinal-Recipient: rfc822; a@example.com\r\nStatus: 5.1.1\r\n";
    let reports = parse(raw);
    assert_eq!(reports.len(), 1);
    assert_eq!(reports[0].relay_queue_id.as_deref(), Some("CRLF1"));
    assert_eq!(reports[0].status.as_deref(), Some("5.1.1"));
    assert!(reports[0].should_suppress());
}

#[test]
fn a_queue_id_after_the_recipient_is_backfilled() {
    let raw = "Final-Recipient: rfc822; a@example.com\nStatus: 4.4.1\nX-Postfix-Queue-ID: LATE9\n";
    let reports = parse(raw);
    assert_eq!(reports[0].relay_queue_id.as_deref(), Some("LATE9"));
    assert_eq!(reports[0].classification, Classification::Transient);
}

#[test]
fn status_and_diagnostic_before_any_recipient_are_ignored() {
    let raw = "Status: 5.1.1\nDiagnostic-Code: smtp; user unknown\n";
    assert!(parse(raw).is_empty());
}
