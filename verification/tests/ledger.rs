//! The store's decisions around its writes.

use postbud::classification::Classification;
use postbud::dsn::parse;
use postbud::ledger::{
    bounce_label_of, change_role, check_due, domains_changed, end_grant, relay_state_of,
    suppression_target, GrantChange,
};

#[test]
fn bounces_are_filed_by_class() {
    assert_eq!(bounce_label_of(Classification::Permanent), "permanent");
    assert_eq!(bounce_label_of(Classification::Transient), "transient");
    assert_eq!(bounce_label_of(Classification::Unknown), "unknown");
    assert_eq!(bounce_label_of(Classification::Accepted), "unknown");
}

#[test]
fn only_a_named_dead_mailbox_is_suppressed() {
    let hard = "X-Postfix-Queue-ID: Q1\nFinal-Recipient: rfc822; gone@example.com\nAction: failed\nStatus: 5.1.1\n";
    let reports = parse(hard);
    assert_eq!(suppression_target(&reports[0]).as_deref(), Some("gone@example.com"));
    let soft = "X-Postfix-Queue-ID: Q2\nFinal-Recipient: rfc822; full@example.com\nAction: delayed\nStatus: 4.2.2\n";
    assert_eq!(suppression_target(&parse(soft)[0]), None);
}

#[test]
fn the_queue_name_says_whether_a_message_is_being_tried() {
    assert_eq!(relay_state_of("active"), "active");
    assert_eq!(relay_state_of("incoming"), "active");
    assert_eq!(relay_state_of("maildrop"), "active");
    assert_eq!(relay_state_of("deferred"), "deferred");
    assert_eq!(relay_state_of("hold"), "deferred");
}

#[test]
fn the_last_admin_can_neither_leave_nor_be_demoted() {
    assert_eq!(end_grant(None, 3), Ok(GrantChange::NotFound));
    assert_eq!(
        end_grant(Some("admin"), 1),
        Err("cannot remove the last admin \u{2014} grant someone else the admin role first".into())
    );
    assert_eq!(end_grant(Some("admin"), 2), Ok(GrantChange::Proceed));
    assert_eq!(end_grant(Some("viewer"), 0), Ok(GrantChange::Proceed));
    assert_eq!(change_role(Some("admin"), "admin", 1), Ok(GrantChange::Unchanged));
    assert_eq!(
        change_role(Some("admin"), "viewer", 1),
        Err("cannot demote the last admin \u{2014} grant someone else the admin role first".into())
    );
    assert_eq!(change_role(Some("viewer"), "admin", 1), Ok(GrantChange::Proceed));
    assert_eq!(change_role(None, "admin", 1), Ok(GrantChange::NotFound));
}

#[test]
fn checks_come_due_by_their_last_verdict() {
    assert!(check_due(None, 900, 86_400));
    assert!(check_due(Some((false, 901)), 900, 86_400));
    assert!(!check_due(Some((false, 900)), 900, 86_400));
    assert!(!check_due(Some((true, 901)), 900, 86_400));
    assert!(check_due(Some((true, 86_401)), 900, 86_400));
}

#[test]
fn an_unchanged_domain_list_is_no_change() {
    let a = vec!["a.example".to_string(), "b.example".to_string()];
    assert!(!domains_changed(&a, &a.clone()));
    assert!(domains_changed(&a, &["a.example".to_string()]));
    assert!(domains_changed(&a, &["b.example".to_string(), "a.example".to_string()]));
}
