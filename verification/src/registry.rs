//! The sending-domain registry as the admin surface edits and shows it,
//! and the small normalizations around it.

use vstd::prelude::*;
use crate::api::{self, ApiError, ApiErrorView};
use crate::dnscheck;
use crate::text;

verus! {

/// A request to register a sending domain.
#[derive(Debug, Clone)]
pub struct DomainAdd {
    pub domain: String,
    /// The enforcement level the domain is meant to publish, if the caller
    /// has an opinion; omitted means only the policy's syntax is checked.
    pub dmarc_policy_expected: Option<String>,
    /// Defaults to the installation's configured SPF record.
    pub spf_expected: Option<String>,
    pub dkim_selector: String,
    /// The p= value the relay signs with.
    pub dkim_public_key: String,
    pub mx_expected: Option<String>,
}

/// What is registered for an accepted request.
#[derive(Debug, Clone, PartialEq, Eq)]
pub struct DomainPlan {
    pub domain: String,
    pub spf: String,
    pub selector: String,
    pub key: String,
    pub mx: Option<String>,
    pub policy: Option<String>,
}

pub struct DomainAddView {
    pub domain: Seq<char>,
    pub dmarc_policy_expected: Option<Seq<char>>,
    pub spf_expected: Option<Seq<char>>,
    pub dkim_selector: Seq<char>,
    pub dkim_public_key: Seq<char>,
    pub mx_expected: Option<Seq<char>>,
}

impl View for DomainAdd {
    type V = DomainAddView;

    open spec fn view(&self) -> DomainAddView {
        DomainAddView {
            domain: self.domain@,
            dmarc_policy_expected: self.dmarc_policy_expected.deep_view(),
            spf_expected: self.spf_expected.deep_view(),
            dkim_selector: self.dkim_selector@,
            dkim_public_key: self.dkim_public_key@,
            mx_expected: self.mx_expected.deep_view(),
        }
    }
}

pub struct PlanView {
    pub domain: Seq<char>,
    pub spf: Seq<char>,
    pub selector: Seq<char>,
    pub key: Seq<char>,
    pub mx: Option<Seq<char>>,
    pub policy: Option<Seq<char>>,
}

impl View for DomainPlan {
    type V = PlanView;

    open spec fn view(&self) -> PlanView {
        PlanView {
            domain: self.domain@,
            spf: self.spf@,
            selector: self.selector@,
            key: self.key@,
            mx: self.mx.deep_view(),
            policy: self.policy.deep_view(),
        }
    }
}

/// An optional text, trimmed, when it is not blank.
pub open spec fn given(v: Option<Seq<char>>) -> Option<Seq<char>> {
    match v {
        Some(s) => if text::trim(s).len() > 0 {
            Some(text::trim(s))
        } else {
            None
        },
        None => None,
    }
}

/// The DMARC policies there are.
pub open spec fn known_policy(p: Seq<char>) -> bool {
    p == "none"@ || p == "quarantine"@ || p == "reject"@
}

/// What registering a domain decides: the domain normalized and shaped
/// like one, a selector, a key of at least 64 UTF-8 bytes once cosmetic
/// characters are dropped, an SPF record (given, or the installation's
/// default), and a DMARC policy that is one of the three when one is
/// stated. Each refusal says what to fix.
pub open spec fn domain_add_spec(req: DomainAddView, spf_default: Option<Seq<char>>) -> Result<PlanView, ApiErrorView> {
    let domain = api::domain_key(req.domain);
    let selector = text::trim(req.dkim_selector);
    let key = dnscheck::key_chars(req.dkim_public_key);
    if domain.len() == 0 || !api::domain_shaped(domain) {
        Err(
            ApiErrorView::BadRequest(
                api::cat(seq!["'"@, domain, "' does not look like a domain"@]),
            ),
        )
    } else if selector.len() == 0 {
        Err(ApiErrorView::BadRequest("dkim_selector is required"@))
    } else if text::utf8_len(key) < 64 {
        Err(
            ApiErrorView::BadRequest(
                "dkim_public_key looks too short to be a key \u{2014} paste the p= value"@,
            ),
        )
    } else if given(req.spf_expected) is None && spf_default is None {
        Err(ApiErrorView::BadRequest("spf_expected is required (DNS_SPF_DEFAULT is not configured)"@))
    } else {
        let spf = match given(req.spf_expected) {
            Some(s) => s,
            None => spf_default->0,
        };
        match given(req.dmarc_policy_expected) {
            Some(p) => if !known_policy(text::lower_seq(p)) {
                Err(
                    ApiErrorView::BadRequest(
                        api::cat(
                            seq![
                                "dmarc_policy_expected must be none, quarantine or reject (got '"@,
                                text::lower_seq(p),
                                "')"@,
                            ],
                        ),
                    ),
                )
            } else {
                Ok(
                    PlanView {
                        domain,
                        spf,
                        selector,
                        key,
                        mx: given(req.mx_expected),
                        policy: Some(text::lower_seq(p)),
                    },
                )
            },
            None => Ok(
                PlanView { domain, spf, selector, key, mx: given(req.mx_expected), policy: None },
            ),
        }
    }
}

/// A stated DMARC policy decides nothing else: next to the same request
/// without one, it is accepted exactly when, trimmed and lowercased, it is
/// `none`, `quarantine` or `reject`, and the plan is then the same plan
/// with that lowercased policy.
pub proof fn a_stated_policy_is_one_of_the_three(
    without: DomainAddView,
    with: DomainAddView,
    p: Seq<char>,
    spf_default: Option<Seq<char>>,
)
    requires
        with.domain == without.domain,
        with.spf_expected == without.spf_expected,
        with.dkim_selector == without.dkim_selector,
        with.dkim_public_key == without.dkim_public_key,
        with.mx_expected == without.mx_expected,
        without.dmarc_policy_expected is None,
        with.dmarc_policy_expected == Some(p),
        text::trim(p).len() > 0,
        domain_add_spec(without, spf_default) is Ok,
    ensures
        domain_add_spec(with, spf_default) is Ok <==> ({
            let l = text::lower_seq(text::trim(p));
            l == "none"@ || l == "quarantine"@ || l == "reject"@
        }),
        domain_add_spec(with, spf_default) matches Ok(plan) ==> {
            let base = domain_add_spec(without, spf_default)->Ok_0;
            &&& plan.policy == Some(text::lower_seq(text::trim(p)))
            &&& plan.domain == base.domain
            &&& plan.spf == base.spf
            &&& plan.selector == base.selector
            &&& plan.key == base.key
            &&& plan.mx == base.mx
        },
{
}

fn given_of(v: &Option<String>) -> (r: Option<String>)
    ensures
        r.deep_view() == given(v.deep_view()),
{
    match v {
        Some(s) => {
            let c = text::chars_of(s.as_str());
            let t = text::trimmed(&c);
            if t.len() > 0 {
                Some(text::string_of(&t))
            } else {
                None
            }
        },
        None => None,
    }
}

fn three(a: &str, b: &[char], c: &str) -> (r: String)
    ensures
        r@ == api::cat(seq![a@, b@, c@]),
{
    let x = text::chars_of(a);
    let z = text::chars_of(c);
    let xy = text::concat(&x, b);
    let all = text::concat(&xy, &z);
    proof {
        reveal_with_fuel(text::join, 3);
        assert(seq![a@, b@, c@].drop_last() =~= seq![a@, b@]);
        assert(seq![a@, b@].drop_last() =~= seq![a@]);
        assert(api::cat(seq![a@, b@, c@]) =~= a@ + b@ + c@);
    }
    text::string_of(&all)
}

fn refuse(message: &str) -> (r: ApiError)
    ensures
        r@ == ApiErrorView::BadRequest(message@),
{
    let m = text::chars_of(message);
    ApiError::BadRequest(text::string_of(&m))
}

/// Check a request to register a sending domain; `spf_default` is the
/// installation's configured SPF record, if any.
pub fn domain_add(req: &DomainAdd, spf_default: Option<&str>) -> (r: Result<DomainPlan, ApiError>)
    ensures
        match r {
            Ok(p) => domain_add_spec(
                req@,
                match spf_default {
                    Some(d) => Some(d@),
                    None => None,
                },
            ) == Ok::<PlanView, ApiErrorView>(p@),
            Err(e) => domain_add_spec(
                req@,
                match spf_default {
                    Some(d) => Some(d@),
                    None => None,
                },
            ) == Err::<PlanView, ApiErrorView>(e@),
        },
{
    let raw = text::chars_of(req.domain.as_str());
    let t = text::trimmed(&raw);
    let bare = text::stripped_end(&t, '.');
    let domain = text::lower_of(&bare);
    if domain.len() == 0 || !(text::contains_char(&domain, '.') && !text::contains_char(&domain, '@')
        && !text::contains_char(&domain, ' ') && !text::contains_char(&domain, '/')) {
        return Err(ApiError::BadRequest(three("'", &domain, "' does not look like a domain")));
    }
    let sel_raw = text::chars_of(req.dkim_selector.as_str());
    let selector = text::trimmed(&sel_raw);
    if selector.len() == 0 {
        return Err(refuse("dkim_selector is required"));
    }
    let key_raw = text::chars_of(req.dkim_public_key.as_str());
    let key_chars = dnscheck::key_chars_of(&key_raw);
    let key = text::string_of(&key_chars);
    if text::utf8_len_below(&key_chars, 64) {
        return Err(refuse("dkim_public_key looks too short to be a key \u{2014} paste the p= value"));
    }
    let spf = match given_of(&req.spf_expected) {
        Some(s) => s,
        None => match spf_default {
            Some(d) => {
                let c = text::chars_of(d);
                text::string_of(&c)
            },
            None => {
                return Err(refuse("spf_expected is required (DNS_SPF_DEFAULT is not configured)"));
            },
        },
    };
    let policy = match given_of(&req.dmarc_policy_expected) {
        Some(p) => {
            let c = text::chars_of(p.as_str());
            let l = text::lower_of(&c);
            if !(text::is_literal(&l, "none") || text::is_literal(&l, "quarantine")
                || text::is_literal(&l, "reject")) {
                return Err(
                    ApiError::BadRequest(
                        three(
                            "dmarc_policy_expected must be none, quarantine or reject (got '",
                            &l,
                            "')",
                        ),
                    ),
                );
            }
            Some(text::string_of(&l))
        },
        None => None,
    };
    Ok(
        DomainPlan {
            domain: text::string_of(&domain),
            spf,
            selector: text::string_of(&selector),
            key,
            mx: given_of(&req.mx_expected),
            policy,
        },
    )
}

// ------------------------------------------------------------- DNS rows

/// One paste-ready DNS row.
#[derive(Debug, Clone, PartialEq, Eq)]
pub struct DnsRow {
    pub kind: String,
    pub rtype: String,
    pub name: String,
    pub value: String,
    /// True when postbud requires exactly this value; false for DMARC,
    /// where it has no opinion.
    pub prescribed: bool,
    pub note: Option<String>,
}

pub struct RowView {
    pub kind: Seq<char>,
    pub rtype: Seq<char>,
    pub name: Seq<char>,
    pub value: Seq<char>,
    pub prescribed: bool,
    pub note: Option<Seq<char>>,
}

impl View for DnsRow {
    type V = RowView;

    open spec fn view(&self) -> RowView {
        RowView {
            kind: self.kind@,
            rtype: self.rtype@,
            name: self.name@,
            value: self.value@,
            prescribed: self.prescribed,
            note: self.note.deep_view(),
        }
    }
}

/// The rows shown for a domain. SPF, DKIM and MX are prescriptions. DMARC
/// is not: once a check has seen the real record, that is what is shown,
/// marked as observed, so a `p=reject` domain is never offered a
/// one-click downgrade to a suggested `p=none`.
pub open spec fn rows_spec(
    domain: Seq<char>,
    spf: Seq<char>,
    selector: Seq<char>,
    key: Seq<char>,
    mx: Option<Seq<char>>,
    dmarc_observed: Option<Seq<char>>,
) -> Seq<RowView> {
    let base = seq![
        RowView {
            kind: "spf"@,
            rtype: "TXT"@,
            name: domain,
            value: spf,
            prescribed: true,
            note: None,
        },
        RowView {
            kind: "dkim"@,
            rtype: "TXT"@,
            name: selector + "._domainkey."@ + domain,
            value: "v=DKIM1; h=sha256; k=rsa; p="@ + key,
            prescribed: true,
            note: None,
        },
        match dmarc_observed {
            Some(o) => RowView {
                kind: "dmarc"@,
                rtype: "TXT"@,
                name: "_dmarc."@ + domain,
                value: o,
                prescribed: false,
                note: Some(
                    "published policy, as last seen -- postbud does not require a particular one"@,
                ),
            },
            None => RowView {
                kind: "dmarc"@,
                rtype: "TXT"@,
                name: "_dmarc."@ + domain,
                value: "v=DMARC1; p=none"@,
                prescribed: false,
                note: Some(
                    "a suggested starting policy -- nothing is published yet, or inherited from the parent domain"@,
                ),
            },
        },
    ];
    match mx {
        Some(m) => base.push(
            RowView {
                kind: "mx"@,
                rtype: "MX"@,
                name: domain,
                value: "10 "@ + m,
                prescribed: true,
                note: None,
            },
        ),
        None => base,
    }
}

fn s(lit: &str) -> (r: String)
    ensures
        r@ == lit@,
{
    let c = text::chars_of(lit);
    text::string_of(&c)
}

fn glue(a: &str, b: &str) -> (r: String)
    ensures
        r@ == a@ + b@,
{
    let x = text::chars_of(a);
    let y = text::chars_of(b);
    let all = text::concat(&x, &y);
    text::string_of(&all)
}

/// The paste-ready DNS rows for one domain.
pub fn record_rows(
    domain: &str,
    spf: &str,
    selector: &str,
    key: &str,
    mx: Option<&str>,
    dmarc_observed: Option<&str>,
) -> (r: Vec<DnsRow>)
    ensures
        r@.map_values(|x: DnsRow| x@) == rows_spec(
            domain@,
            spf@,
            selector@,
            key@,
            match mx {
                Some(m) => Some(m@),
                None => None,
            },
            match dmarc_observed {
                Some(o) => Some(o@),
                None => None,
            },
        ),
{
    let mut rows: Vec<DnsRow> = Vec::new();
    rows.push(
        DnsRow { kind: s("spf"), rtype: s("TXT"), name: s(domain), value: s(spf), prescribed: true, note: None },
    );
    let sel = glue(selector, "._domainkey.");
    rows.push(
        DnsRow {
            kind: s("dkim"),
            rtype: s("TXT"),
            name: glue(sel.as_str(), domain),
            value: glue("v=DKIM1; h=sha256; k=rsa; p=", key),
            prescribed: true,
            note: None,
        },
    );
    let dmarc_row = match dmarc_observed {
        Some(o) => DnsRow {
            kind: s("dmarc"),
            rtype: s("TXT"),
            name: glue("_dmarc.", domain),
            value: s(o),
            prescribed: false,
            note: Some(s("published policy, as last seen -- postbud does not require a particular one")),
        },
        None => DnsRow {
            kind: s("dmarc"),
            rtype: s("TXT"),
            name: glue("_dmarc.", domain),
            value: s("v=DMARC1; p=none"),
            prescribed: false,
            note: Some(
                s(
                    "a suggested starting policy -- nothing is published yet, or inherited from the parent domain",
                ),
            ),
        },
    };
    rows.push(dmarc_row);
    match mx {
        Some(m) => {
            rows.push(
                DnsRow {
                    kind: s("mx"),
                    rtype: s("MX"),
                    name: s(domain),
                    value: glue("10 ", m),
                    prescribed: true,
                    note: None,
                },
            );
        },
        None => {},
    }
    let ghost want = rows_spec(
        domain@,
        spf@,
        selector@,
        key@,
        match mx {
            Some(m) => Some(m@),
            None => None,
        },
        match dmarc_observed {
            Some(o) => Some(o@),
            None => None,
        },
    );
    assert(rows@.map_values(|x: DnsRow| x@) =~= want);
    rows
}

/// DMARC is never prescribed, and a policy once observed is what is shown.
pub proof fn an_observed_policy_is_shown_as_it_is(
    domain: Seq<char>,
    spf: Seq<char>,
    selector: Seq<char>,
    key: Seq<char>,
    mx: Option<Seq<char>>,
    observed: Seq<char>,
)
    ensures
        rows_spec(domain, spf, selector, key, mx, Some(observed))[2].value == observed,
        !rows_spec(domain, spf, selector, key, mx, Some(observed))[2].prescribed,
        !rows_spec(domain, spf, selector, key, mx, None)[2].prescribed,
{
}

// ------------------------------------------------------------ small bits

/// The content type an embedded UI asset is served with, by the text after
/// its last dot.
pub open spec fn asset_type_spec(path: Seq<char>) -> Seq<char> {
    let ext = match text::rsplit_once(path, '.') {
        Some(p) => p.1,
        None => path,
    };
    if ext == "js"@ {
        "text/javascript; charset=utf-8"@
    } else if ext == "css"@ {
        "text/css; charset=utf-8"@
    } else if ext == "svg"@ {
        "image/svg+xml"@
    } else if ext == "png"@ {
        "image/png"@
    } else if ext == "woff2"@ {
        "font/woff2"@
    } else if ext == "map"@ {
        "application/json"@
    } else {
        "application/octet-stream"@
    }
}

pub fn asset_content_type(path: &str) -> (r: &'static str)
    ensures
        r@ == asset_type_spec(path@),
{
    let c = text::chars_of(path);
    let ext = match text::rsplit_once_char(&c, '.') {
        Some((_, e)) => e,
        None => c,
    };
    if text::is_literal(&ext, "js") {
        "text/javascript; charset=utf-8"
    } else if text::is_literal(&ext, "css") {
        "text/css; charset=utf-8"
    } else if text::is_literal(&ext, "svg") {
        "image/svg+xml"
    } else if text::is_literal(&ext, "png") {
        "image/png"
    } else if text::is_literal(&ext, "woff2") {
        "font/woff2"
    } else if text::is_literal(&ext, "map") {
        "application/json"
    } else {
        "application/octet-stream"
    }
}

/// The window of a DMARC detail view: 30 days unless asked, clamped to
/// `1..=3650` because it reaches SQL.
pub fn report_window_days(days: Option<i64>) -> (r: i64)
    ensures
        r == ({
            let d = match days {
                Some(n) => n,
                None => 30,
            };
            if d < 1 {
                1
            } else if d > 3650 {
                3650
            } else {
                d
            }
        }),
{
    let d = match days {
        Some(n) => n,
        None => 30,
    };
    if d < 1 {
        1
    } else if d > 3650 {
        3650
    } else {
        d
    }
}

/// A host name as configured: trimmed, no root dot, lowercased, and
/// `None` when that leaves nothing.
pub fn configured_host(raw: Option<&str>) -> (r: Option<String>)
    ensures
        r.deep_view() == match raw {
            Some(h) => if api::domain_key(h@).len() > 0 {
                Some(api::domain_key(h@))
            } else {
                None
            },
            None => None::<Seq<char>>,
        },
{
    match raw {
        Some(h) => {
            let c = text::chars_of(h);
            let t = text::trimmed(&c);
            let b = text::stripped_end(&t, '.');
            let l = text::lower_of(&b);
            if l.len() > 0 {
                Some(text::string_of(&l))
            } else {
                None
            }
        },
        None => None,
    }
}

/// A lookup key as typed: trimmed and lowercased.
pub fn lookup_key(raw: &str) -> (r: String)
    ensures
        r@ == text::lower_seq(text::trim(raw@)),
{
    let c = text::chars_of(raw);
    let t = text::trimmed(&c);
    let l = text::lower_of(&t);
    text::string_of(&l)
}

} // verus!
