//! What a reply code or an enhanced status means for a message.

use postbud::classification::Classification;

#[test]
fn smtp_codes_classify_by_leading_digit() {
    assert_eq!(
        Classification::from_smtp_code(250),
        Classification::Accepted
    );
    assert_eq!(
        Classification::from_smtp_code(421),
        Classification::Transient
    );
    assert_eq!(
        Classification::from_smtp_code(452),
        Classification::Transient
    );
    assert_eq!(
        Classification::from_smtp_code(550),
        Classification::Permanent
    );
    assert_eq!(Classification::from_smtp_code(999), Classification::Unknown);
}

#[test]
fn enhanced_status_codes_classify_by_leading_class() {
    assert_eq!(
        Classification::from_status("5.1.1"),
        Classification::Permanent
    );
    assert_eq!(
        Classification::from_status("4.4.1"),
        Classification::Transient
    );
    assert_eq!(
        Classification::from_status(" 2.0.0 "),
        Classification::Accepted
    );
    assert_eq!(
        Classification::from_status("garbage"),
        Classification::Unknown
    );
}

/// A mailbox-full bounce is 4.2.2 and must NOT suppress the address.
#[test]
fn mailbox_full_is_transient_not_permanent() {
    assert_eq!(
        Classification::from_status("4.2.2"),
        Classification::Transient
    );
}

#[test]
fn codes_outside_the_classes_are_unknown() {
    assert_eq!(Classification::from_smtp_code(0), Classification::Unknown);
    assert_eq!(Classification::from_smtp_code(199), Classification::Unknown);
    assert_eq!(Classification::from_smtp_code(300), Classification::Unknown);
    assert_eq!(Classification::from_status(""), Classification::Unknown);
    assert_eq!(Classification::from_status("55.1.1"), Classification::Unknown);
}
