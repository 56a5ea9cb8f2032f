//! Postfix's showq protocol.

use postbud::showq::parse;

/// Captured verbatim from a live relay while a receiver was rate
/// limiting us.
const CAPTURED: &[u8] = b"protocol\x00mail_queue_list_protocol\x00\x00queue_name\x00deferred\x00queue_id\x003F373F5418\x00time\x001787026965\x00size\x005794\x00forced_expire\x000\x00sender\x00no-reply@example.com\x00recipient\x00user@example.net\x00reason\x00host mx.example.net[192.0.2.22] said: 451 4.7.7 Please try again later. IP rate-limited. (in reply to end of DATA command)\x00\x00queue_name\x00active\x00queue_id\x00004E6F5409\x00time\x001787026952\x00size\x003118\x00forced_expire\x000\x00sender\x00no-reply@example.com\x00recipient\x00other@example.net\x00\x00\x00";

#[test]
fn the_opening_protocol_record_is_not_a_queue_entry() {
    let q = parse(CAPTURED);
    assert_eq!(q.len(), 2, "{q:?}");
    assert!(q.iter().all(|e| !e.queue_id.is_empty()));
}

#[test]
fn showq_a_deferred_entry_carries_the_receivers_own_words() {
    let q = parse(CAPTURED);
    assert_eq!(q[0].queue_id, "3F373F5418");
    assert_eq!(q[0].queue_name, "deferred");
    assert!(q[0].reason.as_deref().unwrap().contains("451 4.7.7"));
}

/// A message being attempted right now has no failure to report, and
/// must not inherit the previous record's.
#[test]
fn showq_an_active_entry_has_no_reason() {
    let q = parse(CAPTURED);
    assert_eq!(q[1].queue_id, "004E6F5409");
    assert_eq!(q[1].queue_name, "active");
    assert_eq!(q[1].reason, None);
}

#[test]
fn an_empty_queue_is_zero_entries() {
    assert!(parse(b"protocol\0mail_queue_list_protocol\0\0\0").is_empty());
}

#[test]
fn only_the_first_reason_of_a_record_counts_and_values_are_trimmed() {
    let raw = b"queue_id\0 AB12 \0queue_name\0deferred\0reason\0 first \0reason\0second\0\0";
    let q = parse(raw);
    assert_eq!(q.len(), 1);
    assert_eq!(q[0].queue_id, "AB12");
    assert_eq!(q[0].reason.as_deref(), Some("first"));
}

#[test]
fn a_record_cut_off_mid_pair_adds_nothing() {
    assert!(parse(b"queue_id\0X1\0queue_name\0hold\0reason").is_empty());
    assert!(parse(b"").is_empty());
    let q = parse(b"queue_id\0X1\0queue_name\0hold\0reason\0   \0\0");
    assert_eq!(q.len(), 1);
    assert_eq!(q[0].reason, None, "a blank reason is no reason");
}
