//! Address handling: normalization, the domain part, the bounce sender.

use postbud::address::{bounce_sender, domain, normalize, AddressError};

#[test]
fn domain_is_lowercased_and_local_part_is_not() {
    assert_eq!(
        normalize(" Ola.Nordmann@Example.NO ").unwrap(),
        "Ola.Nordmann@example.no"
    );
}

#[test]
fn obvious_nonsense_is_rejected() {
    assert_eq!(normalize(""), Err(AddressError::Empty));
    assert_eq!(normalize("nobody"), Err(AddressError::NoAt));
    assert_eq!(normalize("@example.no"), Err(AddressError::EmptyPart));
    assert_eq!(normalize("nobody@"), Err(AddressError::EmptyPart));
    assert_eq!(normalize("nobody@localhost"), Err(AddressError::BareDomain));
    assert_eq!(normalize("a b@example.no"), Err(AddressError::Whitespace));
}

/// A quoted local part may contain '@', so the split has to be on the
/// last one.
#[test]
fn splits_on_the_last_at() {
    assert_eq!(
        normalize("\"a@b\"@example.no").unwrap(),
        "\"a@b\"@example.no"
    );
    assert_eq!(domain("\"a@b\"@example.no").as_deref(), Some("example.no"));
}

#[test]
fn the_bounce_sender_keeps_the_senders_domain() {
    assert_eq!(
        bounce_sender("no-reply@mail.example.com", "bounces").as_deref(),
        Some("bounces@mail.example.com")
    );
    assert_eq!(
        bounce_sender("Invoices@Example.COM", "bounces").as_deref(),
        Some("bounces@example.com")
    );
}

#[test]
fn a_mailbox_may_be_named_anything_sane() {
    assert_eq!(
        bounce_sender("x@example.com", "  return-path  ").as_deref(),
        Some("return-path@example.com")
    );
}

#[test]
fn a_mailbox_that_is_not_a_local_part_yields_nothing() {
    assert_eq!(bounce_sender("x@example.com", ""), None);
    assert_eq!(bounce_sender("x@example.com", "   "), None);
    assert_eq!(
        bounce_sender("x@example.com", "bounces@other.example"),
        None
    );
    assert_eq!(bounce_sender("x@example.com", "two words"), None);
}

#[test]
fn a_sender_without_a_domain_yields_nothing() {
    assert_eq!(bounce_sender("not-an-address", "bounces"), None);
    assert_eq!(bounce_sender("", "bounces"), None);
}

#[test]
fn normalizing_twice_changes_nothing() {
    let once = normalize("  Kari@Sub.Example.ORG\t").unwrap();
    assert_eq!(once, "Kari@sub.example.org");
    assert_eq!(normalize(&once).unwrap(), once);
}

#[test]
fn every_refusal_has_its_own_words() {
    assert_eq!(AddressError::Empty.message(), "address is empty");
    assert_eq!(AddressError::Whitespace.message(), "address contains whitespace");
    assert_eq!(AddressError::NoAt.message(), "address has no '@'");
    assert_eq!(
        AddressError::EmptyPart.message(),
        "address has an empty local part or domain"
    );
    assert_eq!(AddressError::BareDomain.message(), "domain has no dot");
}

#[test]
fn the_domain_needs_something_after_the_at() {
    assert_eq!(domain("x@"), None);
    assert_eq!(domain("no-at-all"), None);
    assert_eq!(domain("x@EXAMPLE.com").as_deref(), Some("example.com"));
}
