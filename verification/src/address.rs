//! Address handling.
//!
//! Deliberately shallow: this is not an RFC 5321 validator. It rejects the
//! shapes that are certainly wrong (no `@`, empty parts, whitespace, a
//! domain without a dot) and leaves the real verdict to the receiving MTA.

use vstd::prelude::*;
use crate::text;

verus! {

/// Why an address was refused.
#[derive(Debug, Clone, Copy, PartialEq, Eq, Structural)]
pub enum AddressError {
    Empty,
    Whitespace,
    NoAt,
    EmptyPart,
    BareDomain,
}

impl AddressError {
    /// The human-readable reason.
    pub fn message(&self) -> (r: &'static str)
        ensures
            r@ == address_error_text(*self),
    {
        match self {
            AddressError::Empty => "address is empty",
            AddressError::Whitespace => "address contains whitespace",
            AddressError::NoAt => "address has no '@'",
            AddressError::EmptyPart => "address has an empty local part or domain",
            AddressError::BareDomain => "domain has no dot",
        }
    }
}

pub open spec fn address_error_text(e: AddressError) -> Seq<char> {
    match e {
        AddressError::Empty => "address is empty"@,
        AddressError::Whitespace => "address contains whitespace"@,
        AddressError::NoAt => "address has no '@'"@,
        AddressError::EmptyPart => "address has an empty local part or domain"@,
        AddressError::BareDomain => "domain has no dot"@,
    }
}

/// What `normalize` makes of `raw`: trimmed, checked, and with the domain
/// (everything after the LAST `@`) lowercased. The local part is kept as
/// written.
pub open spec fn normalize_spec(raw: Seq<char>) -> Result<Seq<char>, AddressError> {
    let t = text::trim(raw);
    if t.len() == 0 {
        Err(AddressError::Empty)
    } else if text::has_ws(t) {
        Err(AddressError::Whitespace)
    } else {
        match text::rsplit_once(t, '@') {
            None => Err(AddressError::NoAt),
            Some(parts) => {
                let local = parts.0;
                let domain = parts.1;
                if local.len() == 0 || domain.len() == 0 {
                    Err(AddressError::EmptyPart)
                } else if !text::has_char(domain, '.') {
                    Err(AddressError::BareDomain)
                } else {
                    Ok(local + seq!['@'] + text::lower_seq(domain))
                }
            },
        }
    }
}

/// The lowercased part after the last `@`, when there is one and it is
/// not empty.
pub open spec fn domain_spec(address: Seq<char>) -> Option<Seq<char>> {
    match text::rsplit_once(address, '@') {
        Some(parts) => if parts.1.len() > 0 {
            Some(text::lower_seq(parts.1))
        } else {
            None
        },
        None => None,
    }
}

/// `mailbox@<domain of mail_from>`, when the mailbox is a plain local part
/// and the sender has a domain.
pub open spec fn bounce_sender_spec(mail_from: Seq<char>, mailbox: Seq<char>) -> Option<Seq<char>> {
    let m = text::trim(mailbox);
    if m.len() == 0 || text::has_char(m, '@') || text::has_ws(m) {
        None
    } else {
        match domain_spec(mail_from) {
            Some(d) => Some(m + seq!['@'] + d),
            None => None,
        }
    }
}

fn join_at(local: &[char], domain: &[char]) -> (r: Vec<char>)
    ensures
        r@ == local@ + seq!['@'] + domain@,
{
    let at: Vec<char> = vec!['@'];
    assert(at@ =~= seq!['@']);
    let a = text::concat(local, &at);
    text::concat(&a, domain)
}

/// Normalize for storage and comparison: trim, and lowercase the domain.
///
/// The local part is left alone: it is case-sensitive per the RFC, and
/// rewriting the part of the address the recipient chose is not our call.
/// The split is on the LAST `@`, since a quoted local part may hold one.
pub fn normalize(raw: &str) -> (r: Result<String, AddressError>)
    ensures
        match r {
            Ok(s) => normalize_spec(raw@) == Ok::<Seq<char>, AddressError>(s@),
            Err(e) => normalize_spec(raw@) == Err::<Seq<char>, AddressError>(e),
        },
{
    let chars = text::chars_of(raw);
    let t = text::trimmed(&chars);
    if t.len() == 0 {
        return Err(AddressError::Empty);
    }
    if text::has_whitespace(&t) {
        return Err(AddressError::Whitespace);
    }
    let (local, domain) = match text::rsplit_once_char(&t, '@') {
        Some(parts) => parts,
        None => {
            return Err(AddressError::NoAt);
        },
    };
    if local.len() == 0 || domain.len() == 0 {
        return Err(AddressError::EmptyPart);
    }
    if !text::contains_char(&domain, '.') {
        return Err(AddressError::BareDomain);
    }
    let lowered = text::lower_of(&domain);
    let joined = join_at(&local, &lowered);
    Ok(text::string_of(&joined))
}

/// `domain` over characters.
pub fn domain_of(address: &[char]) -> (r: Option<Vec<char>>)
    ensures
        match r {
            Some(d) => domain_spec(address@) == Some(d@),
            None => domain_spec(address@) is None,
        },
{
    match text::rsplit_once_char(address, '@') {
        Some((_, d)) => {
            if d.len() > 0 {
                Some(text::lower_of(&d))
            } else {
                None
            }
        },
        None => None,
    }
}

/// The domain part, lowercased. Input is assumed to have passed
/// [`normalize`]; anything without a non-empty part after an `@` yields
/// `None`.
pub fn domain(address: &str) -> (r: Option<String>)
    ensures
        match r {
            Some(d) => domain_spec(address@) == Some(d@),
            None => domain_spec(address@) is None,
        },
{
    let chars = text::chars_of(address);
    match domain_of(&chars) {
        Some(d) => Some(text::string_of(&d)),
        None => None,
    }
}

/// The envelope sender to hand the relay for a message from `mail_from`:
/// the configured bounce mailbox in the SENDER's domain, so that bounces
/// reach the ingest pipe and SPF alignment does not move.
///
/// `None` when no sensible address can be formed.
pub fn bounce_sender(mail_from: &str, mailbox: &str) -> (r: Option<String>)
    ensures
        match r {
            Some(s) => bounce_sender_spec(mail_from@, mailbox@) == Some(s@),
            None => bounce_sender_spec(mail_from@, mailbox@) is None,
        },
{
    let raw_box = text::chars_of(mailbox);
    let m = text::trimmed(&raw_box);
    if m.len() == 0 || text::contains_char(&m, '@') || text::has_whitespace(&m) {
        return None;
    }
    let from = text::chars_of(mail_from);
    match domain_of(&from) {
        Some(d) => Some(text::string_of(&join_at(&m, &d))),
        None => None,
    }
}

// ------------------------------------------------------------------ laws

proof fn lemma_lower_keeps(s: Seq<char>, c: char)
    requires
        c == '@' || c == '.',
    ensures
        text::has_char(text::lower_seq(s), c) == text::has_char(s, c),
{
    if text::has_char(s, c) {
        let i = choose|i: int| 0 <= i < s.len() && s[i] == c;
        assert(text::lower_seq(s)[i] == c);
    }
    if text::has_char(text::lower_seq(s), c) {
        let i = choose|i: int| 0 <= i < text::lower_seq(s).len() && text::lower_seq(s)[i] == c;
        assert(s[i] == c);
    }
}

proof fn lemma_lower_no_ws(s: Seq<char>)
    requires
        !text::has_ws(s),
    ensures
        !text::has_ws(text::lower_seq(s)),
{
    assert forall|i: int| 0 <= i < text::lower_seq(s).len() implies !text::is_ws(
        #[trigger] text::lower_seq(s)[i],
    ) by {
        assert(!text::is_ws(s[i]));
    }
}

proof fn lemma_rsplit_joined(a: Seq<char>, b: Seq<char>)
    requires
        !text::has_char(b, '@'),
    ensures
        text::rsplit_once(a + seq!['@'] + b, '@') == Some((a, b)),
{
    let s = a + seq!['@'] + b;
    let k = a.len() as int;
    assert(s[k] == '@');
    assert(text::has_char(s, '@'));
    let i = choose|i: int|
        0 <= i < s.len() && s[i] == '@' && forall|j: int| i < j < s.len() ==> s[j] != '@';
    if i < k {
        assert(s[k] != '@');
    }
    if i > k {
        assert(b[i - k - 1] == s[i]);
    }
    assert(s.subrange(0, k) =~= a);
    assert(s.subrange(k + 1, s.len() as int) =~= b);
}

/// A normalized address is already normal: normalizing it again changes
/// nothing.
pub proof fn normalize_is_idempotent(raw: Seq<char>)
    requires
        normalize_spec(raw) is Ok,
    ensures
        normalize_spec(normalize_spec(raw)->Ok_0) == normalize_spec(raw),
{
    let t = text::trim(raw);
    let parts = text::rsplit_once(t, '@')->0;
    let local = parts.0;
    let d = parts.1;
    let ld = text::lower_seq(d);
    let y = local + seq!['@'] + ld;
    text::lemma_last_index(t, '@');
    let i = text::last_index(t, '@')->0;
    assert(local =~= t.subrange(0, i));
    assert(d =~= t.subrange(i + 1, t.len() as int));
    assert(!text::has_ws(local)) by {
        assert forall|j: int| 0 <= j < local.len() implies !text::is_ws(#[trigger] local[j]) by {
            assert(local[j] == t[j]);
        }
    }
    assert(!text::has_ws(d)) by {
        assert forall|j: int| 0 <= j < d.len() implies !text::is_ws(#[trigger] d[j]) by {
            assert(d[j] == t[i + 1 + j]);
        }
    }
    assert(!text::has_char(d, '@')) by {
        if text::has_char(d, '@') {
            let j = choose|j: int| 0 <= j < d.len() && d[j] == '@';
            assert(t[i + 1 + j] == '@');
        }
    }
    lemma_lower_no_ws(d);
    lemma_lower_keeps(d, '@');
    lemma_lower_keeps(d, '.');
    assert(!text::has_ws(y)) by {
        assert forall|j: int| 0 <= j < y.len() implies !text::is_ws(#[trigger] y[j]) by {
            if j < local.len() {
                assert(y[j] == local[j]);
            } else if j > local.len() {
                assert(y[j] == ld[j - local.len() - 1]);
            }
        }
    }
    text::lemma_trim_no_ws(y);
    lemma_rsplit_joined(local, ld);
    text::lemma_lower_idempotent(d);
}

/// The part after the last `@` of the trimmed input, as written.
pub open spec fn given_domain(raw: Seq<char>) -> Seq<char> {
    let parts = text::rsplit_once(text::trim(raw), '@')->0;
    parts.1
}

/// The domain of a normalized address is the lowercased domain that was
/// given.
pub proof fn normalized_domain_is_lowercase(raw: Seq<char>)
    requires
        normalize_spec(raw) is Ok,
    ensures
        domain_spec(normalize_spec(raw)->Ok_0) == Some(
            text::lower_seq(given_domain(raw)),
        ),
{
    let t = text::trim(raw);
    let parts = text::rsplit_once(t, '@')->0;
    let d = parts.1;
    text::lemma_last_index(t, '@');
    let i = text::last_index(t, '@')->0;
    assert(d =~= t.subrange(i + 1, t.len() as int));
    assert(!text::has_char(d, '@')) by {
        if text::has_char(d, '@') {
            let j = choose|j: int| 0 <= j < d.len() && d[j] == '@';
            assert(t[i + 1 + j] == '@');
        }
    }
    lemma_lower_keeps(d, '@');
    lemma_rsplit_joined(parts.0, text::lower_seq(d));
    text::lemma_lower_idempotent(d);
}

} // verus!
