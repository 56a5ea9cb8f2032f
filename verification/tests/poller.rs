//! Finding reports in a mailbox message, and counting a round.

use base64::Engine as _;
use postbud::dmarc::{extract, screened_text};
use postbud::poller::{candidates, candidates_of, message_verdict, MailPart, Outcome};

const REPORT: &str = r#"<?xml version="1.0"?>
<feedback>
  <report_metadata><org_name>reporter.example</org_name><report_id>mime-1</report_id></report_metadata>
  <policy_published><domain>example.com</domain><p>none</p></policy_published>
</feedback>"#;

#[test]
fn a_report_attached_to_a_covering_note_is_found() {
    let encoded = base64::engine::general_purpose::STANDARD.encode(REPORT);
    let raw = format!(
        "From: noreply@reporter.example\r\n\
         To: dmarc@example.com\r\n\
         Subject: Report Domain: example.com\r\n\
         MIME-Version: 1.0\r\n\
         Content-Type: multipart/mixed; boundary=\"XX\"\r\n\
         \r\n\
         --XX\r\n\
         Content-Type: text/plain; charset=utf-8\r\n\
         \r\n\
         This is a DMARC aggregate report for example.com.\r\n\
         \r\n\
         --XX\r\n\
         Content-Type: application/xml; name=\"report.xml\"\r\n\
         Content-Disposition: attachment; filename=\"report.xml\"\r\n\
         Content-Transfer-Encoding: base64\r\n\
         \r\n\
         {encoded}\r\n\
         --XX--\r\n"
    );
    let found = candidates(raw.as_bytes());
    assert_eq!(found.len(), 1, "only the attachment should be offered");
    assert_eq!(found[0], REPORT.as_bytes());
    let documents = extract(&found[0]).expect("unwraps");
    assert_eq!(documents, vec![REPORT.as_bytes().to_vec()]);
}

#[test]
fn text_parts_count_only_when_they_look_like_a_report() {
    let parts = vec![
        MailPart::Text("  <?xml version=\"1.0\"?><feedback/>".into()),
        MailPart::Text("<feedback></feedback>".into()),
        MailPart::Text("hello".into()),
        MailPart::Binary(vec![1, 2, 3]),
        MailPart::InlineBinary(vec![4]),
        MailPart::Other,
    ];
    let found = candidates_of(&parts);
    assert_eq!(found.len(), 4);
    assert_eq!(found[0], b"  <?xml version=\"1.0\"?><feedback/>".to_vec());
    assert_eq!(found[2], vec![1, 2, 3]);
    assert_eq!(found[3], vec![4]);
}

#[test]
fn something_that_is_not_a_message_offers_nothing() {
    assert!(candidates(b"").is_empty());
}

#[test]
fn a_round_is_counted_message_by_message() {
    let mut o = Outcome::new();
    assert!(o.quiet());
    o.count(Some(true));
    o.count(Some(false));
    o.count(None);
    assert_eq!(o, Outcome { examined: 3, stored: 1, duplicates: 1, unreadable: 1 });
    assert!(!o.quiet());
}

#[test]
fn a_message_fails_only_when_nothing_new_came_of_it() {
    assert_eq!(message_verdict(true, &vec!["x".into()]), Ok(true));
    assert_eq!(message_verdict(false, &Vec::new()), Ok(false));
    assert_eq!(message_verdict(false, &vec!["first".into(), "second".into()]), Err("first".into()));
}

#[test]
fn a_report_sent_as_the_body_is_found() {
    let raw = format!(
        "From: noreply@reporter.example\r\n\
         Subject: report\r\n\
         MIME-Version: 1.0\r\n\
         Content-Type: text/xml; charset=utf-8\r\n\
         \r\n\
         {REPORT}\r\n"
    );
    let found = candidates(raw.as_bytes());
    assert_eq!(found.len(), 1);
    assert_eq!(screened_text(&found[0]).unwrap(), REPORT);
}

#[test]
fn a_message_with_no_report_offers_nothing() {
    let raw = "From: someone@example.net\r\n\
               Subject: hello\r\n\
               Content-Type: text/plain\r\n\
               \r\n\
               Just writing to say hello.\r\n";
    assert!(candidates(raw.as_bytes()).is_empty());
}

#[test]
fn a_binary_attachment_arrives_verbatim() {
    let blob: Vec<u8> = vec![0x1f, 0x8b, 0x08, 0x00, 0xde, 0xad, 0xbe, 0xef];
    let encoded = base64::engine::general_purpose::STANDARD.encode(&blob);
    let raw = format!(
        "MIME-Version: 1.0\r\n\
         Content-Type: application/octet-stream; name=\"r.gz\"\r\n\
         Content-Transfer-Encoding: base64\r\n\
         Content-Disposition: attachment; filename=\"r.xml.gz\"\r\n\
         \r\n\
         {encoded}\r\n"
    );
    assert_eq!(candidates(raw.as_bytes()), vec![blob]);
}

#[test]
fn a_pass_takes_the_oldest_unread_messages_first_and_one_batch_at_most() {
    assert_eq!(postbud::poller::oldest_batch(&[42, 7, 19]), vec![7, 19, 42]);
    assert!(postbud::poller::oldest_batch(&[]).is_empty());
    let many: Vec<u32> = (0..500u32).rev().collect();
    let batch = postbud::poller::oldest_batch(&many);
    assert_eq!(batch.len(), postbud::poller::BATCH);
    assert_eq!(batch, (0..200u32).collect::<Vec<_>>());
}
