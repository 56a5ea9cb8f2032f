//! Reading `postqueue -j` output: the lines, and what a decoded line says.

use postbud::relayqueue::{assemble, queued_from, report_lines, RawEntry, RawRecipient};

/// Captured from a live relay while a destination was blocking us.
const REAL: &str = r#"{"queue_name": "deferred", "queue_id": "3F373F5418", "arrival_time": 1787026965, "message_size": 5794, "forced_expire": false, "sender": "no-reply@example.com", "recipients": [{"address": "user@example.net", "delay_reason": "host mx.example.net[192.0.2.22] said: 451 4.7.7 Please try again later. IP rate-limited. (in reply to end of DATA command)"}]}
{"queue_name": "active", "queue_id": "004E6F5409", "arrival_time": 1787026952, "message_size": 3118, "forced_expire": false, "sender": "no-reply@example.com", "recipients": [{"address": "other@example.net"}]}"#;

/// The fields of a line, read the way the JSON object lays them out.
fn decode(line: &str) -> Option<RawEntry> {
    let v: serde_json::Value = serde_json::from_str(line).ok()?;
    let obj = v.as_object()?;
    let recipients = match obj.get("recipients") {
        Some(list) => list
            .as_array()?
            .iter()
            .map(|r| RawRecipient {
                delay_reason: r
                    .get("delay_reason")
                    .and_then(|d| d.as_str())
                    .map(|d| d.to_string()),
            })
            .collect(),
        None => Vec::new(),
    };
    Some(RawEntry {
        queue_id: obj.get("queue_id")?.as_str()?.to_string(),
        queue_name: obj.get("queue_name")?.as_str()?.to_string(),
        recipients,
    })
}

fn read(raw: &str) -> Vec<postbud::relayqueue::Queued> {
    let decoded: Vec<Option<RawEntry>> = report_lines(raw).iter().map(|l| decode(l)).collect();
    assemble(&decoded)
}

#[test]
fn relayqueue_a_deferred_entry_carries_the_receivers_own_words() {
    let q = read(REAL);
    assert_eq!(q.len(), 2);
    assert_eq!(q[0].queue_id, "3F373F5418");
    assert_eq!(q[0].queue_name, "deferred");
    assert!(q[0].reason.as_deref().unwrap().contains("451 4.7.7"));
}

#[test]
fn relayqueue_an_active_entry_has_no_reason() {
    let q = read(REAL);
    assert_eq!(q[1].queue_name, "active");
    assert_eq!(q[1].reason, None);
}

#[test]
fn an_empty_report_is_an_empty_queue() {
    assert!(read("").is_empty());
    assert!(read("\n  \n").is_empty());
}

#[test]
fn a_malformed_line_is_skipped_not_fatal() {
    let raw = format!("not json at all\n{}", REAL.lines().next().unwrap());
    let q = read(&raw);
    assert_eq!(q.len(), 1);
    assert_eq!(q[0].queue_id, "3F373F5418");
}

#[test]
fn blank_lines_are_not_offered_for_decoding() {
    let lines = report_lines("a\n\n  \t\nb\r\n c ");
    assert_eq!(lines, vec!["a".to_string(), "b".to_string(), " c ".to_string()]);
}

#[test]
fn the_first_recipient_with_a_reason_speaks_and_is_trimmed() {
    let e = RawEntry {
        queue_id: "Q1".into(),
        queue_name: "deferred".into(),
        recipients: vec![
            RawRecipient { delay_reason: None },
            RawRecipient { delay_reason: Some("  451 later  ".into()) },
            RawRecipient { delay_reason: Some("other".into()) },
        ],
    };
    let q = queued_from(&e);
    assert_eq!(q.reason.as_deref(), Some("451 later"));
    let blank = RawEntry {
        queue_id: "Q2".into(),
        queue_name: "deferred".into(),
        recipients: vec![RawRecipient { delay_reason: Some("   ".into()) }],
    };
    assert_eq!(queued_from(&blank).reason, None);
}
