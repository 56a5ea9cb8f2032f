//! Which tenant may send as which sender.
//!
//! Every tenant carries an explicit list of domains, checked on every
//! accept. Matching is exact on the domain, case-insensitive; subdomains
//! are NOT implied.

use vstd::prelude::*;
use crate::address;
use crate::text;

verus! {

/// The tenant may send as `from`: its domain equals, ignoring ASCII case,
/// one of the allowed domains (each trimmed).
pub open spec fn may_send_as_spec(from: Seq<char>, allowed: Seq<Seq<char>>) -> bool {
    match address::domain_spec(from) {
        Some(d) => exists|i: int|
            0 <= i < allowed.len() && text::lower_seq(text::trim(#[trigger] allowed[i]))
                == text::lower_seq(d),
        None => false,
    }
}

/// May this tenant send with this `From:` address?
pub fn may_send_as(from: &str, allowed_domains: &[String]) -> (r: bool)
    ensures
        r == may_send_as_spec(from@, allowed_domains@.map_values(|s: String| s@)),
{
    let ghost allowed = allowed_domains@.map_values(|s: String| s@);
    let chars = text::chars_of(from);
    let d = match address::domain_of(&chars) {
        Some(d) => d,
        None => {
            return false;
        },
    };
    let mut i: usize = 0;
    while i < allowed_domains.len()
        invariant
            i <= allowed.len() == allowed_domains@.len(),
            allowed == allowed_domains@.map_values(|s: String| s@),
            address::domain_spec(from@) == Some(d@),
            forall|j: int|
                0 <= j < i ==> text::lower_seq(text::trim(#[trigger] allowed[j]))
                    != text::lower_seq(d@),
        decreases allowed.len() - i,
    {
        let a = text::chars_of(allowed_domains[i].as_str());
        let t = text::trimmed(&a);
        assert(allowed[i as int] == a@);
        if text::eq_ignore_case(&t, &d) {
            assert(text::lower_seq(text::trim(allowed[i as int])) == text::lower_seq(d@));
            return true;
        }
        i = i + 1;
    }
    false
}

/// A parent domain never authorizes its subdomains: sending as an address
/// whose domain is not itself listed is refused.
pub proof fn subdomains_are_not_implied(from: Seq<char>, allowed: Seq<Seq<char>>)
    requires
        address::domain_spec(from) matches Some(d) && forall|i: int|
            0 <= i < allowed.len() ==> text::lower_seq(text::trim(#[trigger] allowed[i]))
                != text::lower_seq(d),
    ensures
        !may_send_as_spec(from, allowed),
{
}

/// An address without a domain is refused whatever the tenant holds.
pub proof fn malformed_senders_are_refused(from: Seq<char>, allowed: Seq<Seq<char>>)
    requires
        address::domain_spec(from) is None,
    ensures
        !may_send_as_spec(from, allowed),
{
}

} // verus!
