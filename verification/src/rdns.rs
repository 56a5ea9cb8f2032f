//! Relay identity evaluation: does the machine mail leaves from say the
//! same thing three different ways?
//!
//! Large receivers judge a sending IP on a three-way agreement:
//!
//! 1. the host resolves forward to the address mail comes from;
//! 2. that address resolves BACK to the same host (the PTR);
//! 3. the SMTP greeting announces that host too.
//!
//! Pure on purpose: the caller does the lookups and hands the answers in.

use vstd::prelude::*;
use crate::dnscheck::{self, RecordResult, RecordView, Status};
use crate::text;

verus! {

/// What the caller observed. Addresses and names arrive already
/// lowercased and stripped of any trailing dot.
#[derive(Debug, Clone, Default)]
pub struct Observed {
    /// A/AAAA addresses the relay host resolves to.
    pub forward_ips: Vec<String>,
    /// PTR names found for those addresses.
    pub ptr_names: Vec<String>,
    /// Hostname the relay announced in its SMTP greeting, when one could
    /// be read. `None` means no connection: an outage, which must not be
    /// recorded as a misconfiguration.
    pub banner_host: Option<String>,
}

#[derive(Debug, Clone)]
pub struct RelayResult {
    pub forward: RecordResult,
    pub ptr: RecordResult,
    /// `None` when the greeting could not be read at all.
    pub helo: Option<RecordResult>,
    pub valid: bool,
}

pub struct ObservedView {
    pub forward_ips: Seq<Seq<char>>,
    pub ptr_names: Seq<Seq<char>>,
    pub banner_host: Option<Seq<char>>,
}

impl View for Observed {
    type V = ObservedView;

    open spec fn view(&self) -> ObservedView {
        ObservedView {
            forward_ips: dnscheck::strings(self.forward_ips@),
            ptr_names: dnscheck::strings(self.ptr_names@),
            banner_host: self.banner_host.deep_view(),
        }
    }
}

pub struct RelayView {
    pub forward: RecordView,
    pub ptr: RecordView,
    pub helo: Option<RecordView>,
    pub valid: bool,
}

impl View for RelayResult {
    type V = RelayView;

    open spec fn view(&self) -> RelayView {
        RelayView {
            forward: self.forward@,
            ptr: self.ptr@,
            helo: dnscheck::opt_record(self.helo),
            valid: self.valid,
        }
    }
}

/// Two host names are the same as DNS sees them: ignoring ASCII case and
/// the root dot a resolver may or may not include.
pub open spec fn same_host(a: Seq<char>, b: Seq<char>) -> bool {
    text::lower_seq(text::strip_end(a, '.')) == text::lower_seq(text::strip_end(b, '.'))
}

/// The verdict on the relay's identity.
pub open spec fn evaluate_spec(expected_host: Seq<char>, o: ObservedView) -> RelayView {
    let forward = if o.forward_ips.len() == 0 {
        RecordView { status: Status::Missing, observed: None }
    } else {
        RecordView { status: Status::Okay, observed: Some(text::join(o.forward_ips, ", "@)) }
    };
    let ptr = if o.ptr_names.len() == 0 {
        RecordView {
            status: Status::Missing,
            observed: Some("no PTR \u{2014} the address's owner must set it"@),
        }
    } else if exists|i: int|
        0 <= i < o.ptr_names.len() && same_host(#[trigger] o.ptr_names[i], expected_host) {
        RecordView { status: Status::Okay, observed: Some(text::join(o.ptr_names, ", "@)) }
    } else {
        RecordView { status: Status::Mismatch, observed: Some(text::join(o.ptr_names, ", "@)) }
    };
    let helo = match o.banner_host {
        Some(b) => Some(
            RecordView {
                status: if same_host(b, expected_host) {
                    Status::Okay
                } else {
                    Status::Mismatch
                },
                observed: Some(b),
            },
        ),
        None => None,
    };
    RelayView {
        forward,
        ptr,
        helo,
        valid: forward.status == Status::Okay && ptr.status == Status::Okay && match helo {
            Some(h) => h.status == Status::Okay,
            None => true,
        },
    }
}

fn same_host_of(a: &[char], b: &[char]) -> (r: bool)
    ensures
        r == same_host(a@, b@),
{
    let x = text::stripped_end(a, '.');
    let y = text::stripped_end(b, '.');
    text::eq_ignore_case(&x, &y)
}

fn joined(v: &[String]) -> (r: String)
    ensures
        r@ == text::join(dnscheck::strings(v@), ", "@),
{
    let mut parts: Vec<Vec<char>> = Vec::new();
    let mut i: usize = 0;
    while i < v.len()
        invariant
            i <= v@.len(),
            parts@.len() == i,
            forall|k: int| 0 <= k < i ==> #[trigger] parts@[k]@ == v@[k]@,
        decreases v@.len() - i,
    {
        parts.push(text::chars_of(v[i].as_str()));
        i = i + 1;
    }
    assert(text::views(parts@) =~= dnscheck::strings(v@));
    let sep = text::chars_of(", ");
    let j = text::join_with(&parts, &sep);
    text::string_of(&j)
}

/// Does the relay identify itself consistently?
///
/// `valid` needs a forward address, a PTR naming the host, and a greeting
/// announcing it where one could be read; an unreadable greeting is
/// unknown, never a failure.
pub fn evaluate(expected_host: &str, observed: &Observed) -> (r: RelayResult)
    ensures
        r@ == evaluate_spec(expected_host@, observed@),
{
    let forward = if observed.forward_ips.len() == 0 {
        RecordResult { status: Status::Missing, observed: None }
    } else {
        RecordResult { status: Status::Okay, observed: Some(joined(observed.forward_ips.as_slice())) }
    };
    let want = text::chars_of(expected_host);
    let ptr = if observed.ptr_names.len() == 0 {
        let m = text::chars_of("no PTR \u{2014} the address's owner must set it");
        RecordResult { status: Status::Missing, observed: Some(text::string_of(&m)) }
    } else {
        let ghost pv = dnscheck::strings(observed.ptr_names@);
        let mut matched = false;
        let mut i: usize = 0;
        while i < observed.ptr_names.len()
            invariant
                i <= observed.ptr_names@.len(),
                pv == dnscheck::strings(observed.ptr_names@),
                want@ == expected_host@,
                matched <==> exists|j: int| 0 <= j < i && same_host(#[trigger] pv[j], expected_host@),
            decreases observed.ptr_names@.len() - i,
        {
            let name = text::chars_of(observed.ptr_names[i].as_str());
            assert(pv[i as int] == name@);
            if same_host_of(&name, &want) {
                matched = true;
            }
            i = i + 1;
        }
        let seen = joined(observed.ptr_names.as_slice());
        if matched {
            RecordResult { status: Status::Okay, observed: Some(seen) }
        } else {
            RecordResult { status: Status::Mismatch, observed: Some(seen) }
        }
    };
    let helo = match &observed.banner_host {
        Some(banner) => {
            let b = text::chars_of(banner.as_str());
            let status = if same_host_of(&b, &want) {
                Status::Okay
            } else {
                Status::Mismatch
            };
            Some(RecordResult { status, observed: Some(banner.clone()) })
        },
        None => None,
    };
    let helo_ok = match &helo {
        Some(h) => h.status == Status::Okay,
        None => true,
    };
    let valid = forward.status == Status::Okay && ptr.status == Status::Okay && helo_ok;
    RelayResult { forward, ptr, helo, valid }
}

// ------------------------------------------------------------------ laws

/// An unreadable greeting is unknown, never a failure: it leaves the
/// verdict to the DNS checks alone.
pub proof fn an_unreadable_greeting_never_fails(expected_host: Seq<char>, o: ObservedView)
    requires
        o.banner_host is None,
    ensures
        evaluate_spec(expected_host, o).helo is None,
        evaluate_spec(expected_host, o).valid <==> (o.forward_ips.len() > 0 && exists|i: int|
            0 <= i < o.ptr_names.len() && same_host(#[trigger] o.ptr_names[i], expected_host)),
{
}

/// Valid means all three agree: a forward address, a PTR naming the host,
/// and a greeting (where one was read) announcing it.
pub proof fn valid_means_three_way_agreement(expected_host: Seq<char>, o: ObservedView)
    ensures
        evaluate_spec(expected_host, o).valid <==> (o.forward_ips.len() > 0 && (exists|i: int|
            0 <= i < o.ptr_names.len() && same_host(#[trigger] o.ptr_names[i], expected_host))
            && match o.banner_host {
            Some(b) => same_host(b, expected_host),
            None => true,
        }),
{
}

/// Host names compare as DNS compares them: the relation is symmetric.
pub proof fn same_host_is_symmetric(a: Seq<char>, b: Seq<char>)
    ensures
        same_host(a, b) == same_host(b, a),
{
}

} // verus!
