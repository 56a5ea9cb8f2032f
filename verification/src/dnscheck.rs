//! Domain-verification evaluation: given what DNS actually said, decide
//! whether a sending domain authenticates.
//!
//! Pure on purpose: the caller does the lookups and hands the answers in.
//! The rules encode two failures that really happened:
//!
//! * TWO SPF records on one name is a PermError (RFC 7208 §4.5): every
//!   receiver treats the domain as having no valid SPF at all. Reported
//!   as `Mismatch` with an explanation, never as "one of them matched".
//! * A published DKIM record whose key is not the relay's signing key
//!   verifies nothing. The check compares the key material itself.

use vstd::prelude::*;
use crate::text;

verus! {

/// What DNS answered, fetched by the caller. TXT records arrive with their
/// character-string chunks already concatenated per record.
#[derive(Debug, Clone, Default)]
pub struct Observed {
    /// TXT records at the domain apex.
    pub domain_txt: Vec<String>,
    /// TXT records at `<selector>._domainkey.<domain>`.
    pub dkim_txt: Vec<String>,
    /// TXT records at the first `_dmarc.` name that had any, of the two
    /// RFC 7489 §6.6.3 defines: the domain itself, then its organizational
    /// domain.
    pub dmarc_txt: Vec<String>,
    /// Where the DMARC records were found, when they were.
    pub dmarc_found_at: Option<String>,
    /// MX exchange hosts at the domain.
    pub mx: Vec<String>,
    /// TXT records at each name [`report_auth_names`] asked for, in the
    /// same order. Empty when the DMARC record names no external report
    /// destination.
    pub report_auth: Vec<(String, Vec<String>)>,
}

/// What DNS is supposed to say, from the sending-domain registry.
#[derive(Debug, Clone)]
pub struct Expected {
    pub spf: String,
    pub dkim_public_key: String,
    /// None = the domain is not required to route bounces.
    pub mx: Option<String>,
}

#[derive(Debug, Clone, Copy, PartialEq, Eq, Structural)]
pub enum Status {
    Okay,
    Missing,
    Mismatch,
}

impl Status {
    pub fn as_str(&self) -> (r: &'static str)
        ensures
            r@ == status_text(*self),
    {
        match self {
            Status::Okay => "ok",
            Status::Missing => "missing",
            Status::Mismatch => "mismatch",
        }
    }
}

pub open spec fn status_text(s: Status) -> Seq<char> {
    match s {
        Status::Okay => "ok"@,
        Status::Missing => "missing"@,
        Status::Mismatch => "mismatch"@,
    }
}

#[derive(Debug, Clone)]
pub struct RecordResult {
    pub status: Status,
    /// What was actually seen, so a mismatch is diagnosable without a
    /// terminal.
    pub observed: Option<String>,
}

#[derive(Debug, Clone)]
pub struct DomainResult {
    pub spf: RecordResult,
    pub dkim: RecordResult,
    pub dmarc: RecordResult,
    /// None when no MX is expected.
    pub mx: Option<RecordResult>,
    /// None when the DMARC record names no external report destination.
    /// Deliberately not part of `valid`: where aggregate reports go has no
    /// bearing on whether mail authenticates.
    pub report_auth: Option<RecordResult>,
    pub valid: bool,
}

// ------------------------------------------------------------------ views

/// Texts of a list of strings.
pub open spec fn strings(v: Seq<String>) -> Seq<Seq<char>> {
    v.map_values(|s: String| s@)
}

/// Texts of the reporting names and their TXT records.
pub open spec fn auth_view(v: Seq<(String, Vec<String>)>) -> Seq<(Seq<char>, Seq<Seq<char>>)> {
    v.map_values(|p: (String, Vec<String>)| (p.0@, strings(p.1@)))
}

/// The reporting names checked.
pub open spec fn report_names(obs: Seq<(Seq<char>, Seq<Seq<char>>)>) -> Seq<Seq<char>> {
    obs.map_values(|p: (Seq<char>, Seq<Seq<char>>)| p.0)
}

pub struct ObservedView {
    pub domain_txt: Seq<Seq<char>>,
    pub dkim_txt: Seq<Seq<char>>,
    pub dmarc_txt: Seq<Seq<char>>,
    pub dmarc_found_at: Option<Seq<char>>,
    pub mx: Seq<Seq<char>>,
    pub report_auth: Seq<(Seq<char>, Seq<Seq<char>>)>,
}

impl View for Observed {
    type V = ObservedView;

    open spec fn view(&self) -> ObservedView {
        ObservedView {
            domain_txt: strings(self.domain_txt@),
            dkim_txt: strings(self.dkim_txt@),
            dmarc_txt: strings(self.dmarc_txt@),
            dmarc_found_at: self.dmarc_found_at.deep_view(),
            mx: strings(self.mx@),
            report_auth: auth_view(self.report_auth@),
        }
    }
}

pub struct ExpectedView {
    pub spf: Seq<char>,
    pub dkim_public_key: Seq<char>,
    pub mx: Option<Seq<char>>,
}

impl View for Expected {
    type V = ExpectedView;

    open spec fn view(&self) -> ExpectedView {
        ExpectedView {
            spf: self.spf@,
            dkim_public_key: self.dkim_public_key@,
            mx: self.mx.deep_view(),
        }
    }
}

pub struct RecordView {
    pub status: Status,
    pub observed: Option<Seq<char>>,
}

impl View for RecordResult {
    type V = RecordView;

    open spec fn view(&self) -> RecordView {
        RecordView { status: self.status, observed: self.observed.deep_view() }
    }
}

pub open spec fn opt_record(r: Option<RecordResult>) -> Option<RecordView> {
    match r {
        Some(x) => Some(x@),
        None => None,
    }
}

pub struct DomainView {
    pub spf: RecordView,
    pub dkim: RecordView,
    pub dmarc: RecordView,
    pub mx: Option<RecordView>,
    pub report_auth: Option<RecordView>,
    pub valid: bool,
}

impl View for DomainResult {
    type V = DomainView;

    open spec fn view(&self) -> DomainView {
        DomainView {
            spf: self.spf@,
            dkim: self.dkim@,
            dmarc: self.dmarc@,
            mx: opt_record(self.mx),
            report_auth: opt_record(self.report_auth),
            valid: self.valid,
        }
    }
}

// ------------------------------------------------------------------ rules

/// Whitespace collapsed, so cosmetic differences do not fail a
/// semantically identical record.
pub open spec fn norm_spaces(s: Seq<char>) -> Seq<char> {
    text::squash(s)
}

/// A TXT record that declares SPF (`v=spf1`, any case, after leading
/// whitespace).
pub open spec fn is_spf(t: Seq<char>) -> bool {
    text::starts_ci(text::trim_start(t), "v=spf1"@)
}

/// A TXT record that declares DMARC (`v=DMARC1`, any case, after leading
/// whitespace).
pub open spec fn is_dmarc(t: Seq<char>) -> bool {
    text::starts_ci(text::trim_start(t), "v=DMARC1"@)
}

/// The SPF records among the TXT records.
pub open spec fn spf_records(obs: Seq<Seq<char>>) -> Seq<Seq<char>> {
    obs.filter(|t: Seq<char>| is_spf(t))
}

pub open spec fn check_spf_spec(obs: Seq<Seq<char>>, expected: Seq<char>) -> RecordView {
    let spf = spf_records(obs);
    if spf.len() == 0 {
        RecordView { status: Status::Missing, observed: None }
    } else if spf.len() == 1 {
        let seen = norm_spaces(spf[0]);
        if text::lower_seq(seen) == text::lower_seq(norm_spaces(expected)) {
            RecordView { status: Status::Okay, observed: Some(seen) }
        } else {
            RecordView { status: Status::Mismatch, observed: Some(seen) }
        }
    } else {
        RecordView {
            status: Status::Mismatch,
            observed: Some(
                text::decimal(spf.len() as int)
                    + " SPF records \u{2014} RFC 7208 PermError; receivers treat the domain as having none"@,
            ),
        }
    }
}

/// Key material compares without whitespace and stray quotes.
pub open spec fn key_chars(s: Seq<char>) -> Seq<char> {
    s.filter(|c: char| !text::is_ws(c) && c != '"')
}

/// The `p=` value of the first tag that has one.
pub open spec fn first_key(tags: Seq<Seq<char>>) -> Option<Seq<char>>
    decreases tags.len(),
{
    if tags.len() == 0 {
        None
    } else {
        let t = text::trim(tags[0]);
        if text::starts_with(t, "p="@) {
            Some(key_chars(t.skip(2)))
        } else {
            first_key(tags.drop_first())
        }
    }
}

/// The `p=` value of a DKIM TXT record, stripped of anything cosmetic.
pub open spec fn dkim_key(record: Seq<char>) -> Option<Seq<char>> {
    first_key(text::split(record, ';'))
}

pub open spec fn check_dkim_spec(obs: Seq<Seq<char>>, expected_key: Seq<char>) -> RecordView {
    if obs.len() == 0 {
        RecordView { status: Status::Missing, observed: None }
    } else if exists|i: int|
        0 <= i < obs.len() && #[trigger] dkim_key(obs[i]) == Some(key_chars(expected_key)) {
        RecordView { status: Status::Okay, observed: Some("published key matches the signing key"@) }
    } else {
        RecordView {
            status: Status::Mismatch,
            observed: Some("a DKIM record exists but its key is NOT the relay's signing key"@),
        }
    }
}

/// Index of the first DMARC record, if any.
pub open spec fn first_dmarc(obs: Seq<Seq<char>>, from: int) -> Option<int>
    decreases obs.len() - from,
{
    if from >= obs.len() || from < 0 {
        None
    } else if is_dmarc(obs[from]) {
        Some(from)
    } else {
        first_dmarc(obs, from + 1)
    }
}

pub open spec fn check_dmarc_spec(obs: Seq<Seq<char>>, found_at: Option<Seq<char>>) -> RecordView {
    match first_dmarc(obs, 0) {
        Some(i) => RecordView {
            status: Status::Okay,
            observed: Some(
                match found_at {
                    Some(name) => norm_spaces(obs[i]) + " (at "@ + name + ")"@,
                    None => norm_spaces(obs[i]),
                },
            ),
        },
        None => RecordView { status: Status::Missing, observed: None },
    }
}

/// A host name as compared: trimmed, without the root dot, lowercased.
pub open spec fn norm_host(h: Seq<char>) -> Seq<char> {
    text::lower_seq(text::strip_end(text::trim(h), '.'))
}

pub open spec fn check_mx_spec(obs: Seq<Seq<char>>, expected: Seq<char>) -> RecordView {
    if obs.len() == 0 {
        RecordView { status: Status::Missing, observed: None }
    } else if exists|i: int| 0 <= i < obs.len() && #[trigger] norm_host(obs[i]) == norm_host(expected) {
        RecordView { status: Status::Okay, observed: Some(text::join(obs, ", "@)) }
    } else {
        RecordView { status: Status::Mismatch, observed: Some(text::join(obs, ", "@)) }
    }
}

/// The MX check looks at every published host: it is `Okay` exactly when
/// some host, at any position, is the expected one once surrounding
/// space, trailing dots and letter case are set aside, and `Missing` only
/// when nothing is published.
pub proof fn mx_is_okay_when_any_host_matches(obs: Seq<Seq<char>>, expected: Seq<char>)
    ensures
        check_mx_spec(obs, expected).status == Status::Okay <==> exists|i: int|
            0 <= i < obs.len() && text::lower_seq(text::strip_end(text::trim(#[trigger] obs[i]), '.'))
                == text::lower_seq(text::strip_end(text::trim(expected), '.')),
        check_mx_spec(obs, expected).status == Status::Missing <==> obs.len() == 0,
{
    let want = text::lower_seq(text::strip_end(text::trim(expected), '.'));
    assert(norm_host(expected) == want);
    if exists|i: int|
        0 <= i < obs.len() && text::lower_seq(text::strip_end(text::trim(#[trigger] obs[i]), '.')) == want {
        let i = choose|i: int|
            0 <= i < obs.len() && text::lower_seq(text::strip_end(text::trim(#[trigger] obs[i]), '.')) == want;
        assert(norm_host(obs[i]) == norm_host(expected));
    }
    if exists|i: int| 0 <= i < obs.len() && #[trigger] norm_host(obs[i]) == norm_host(expected) {
        let i = choose|i: int| 0 <= i < obs.len() && #[trigger] norm_host(obs[i]) == norm_host(expected);
        assert(text::lower_seq(text::strip_end(text::trim(obs[i]), '.')) == want);
    }
}

/// The domain's verdict follows: where an MX is expected, a domain whose
/// SPF, DKIM and DMARC check out is valid as soon as any published MX host
/// is the expected one.
pub proof fn any_matching_mx_host_keeps_the_domain_valid(e: ExpectedView, o: ObservedView, i: int)
    requires
        e.mx matches Some(m) && 0 <= i < o.mx.len() && norm_host(o.mx[i]) == norm_host(m),
        evaluate_spec(e, o).spf.status == Status::Okay,
        evaluate_spec(e, o).dkim.status == Status::Okay,
        evaluate_spec(e, o).dmarc.status == Status::Okay,
    ensures
        evaluate_spec(e, o).mx->0.status == Status::Okay,
        evaluate_spec(e, o).valid,
{
    mx_is_okay_when_any_host_matches(o.mx, e.mx->0);
}

/// A reporting name is authorized when one of its TXT records declares
/// DMARC.
pub open spec fn authorized(txt: Seq<Seq<char>>) -> bool {
    exists|i: int| 0 <= i < txt.len() && #[trigger] is_dmarc(txt[i])
}

/// The names among `obs` that are not authorized.
pub open spec fn unauthorized(obs: Seq<(Seq<char>, Seq<Seq<char>>)>) -> Seq<Seq<char>>
    decreases obs.len(),
{
    if obs.len() == 0 {
        Seq::empty()
    } else {
        let rest = unauthorized(obs.drop_last());
        if authorized(obs.last().1) {
            rest
        } else {
            rest.push(obs.last().0)
        }
    }
}

pub open spec fn check_report_auth_spec(obs: Seq<(Seq<char>, Seq<Seq<char>>)>) -> Option<RecordView> {
    if obs.len() == 0 {
        None
    } else {
        let missing = unauthorized(obs);
        if missing.len() == 0 {
            Some(
                RecordView {
                    status: Status::Okay,
                    observed: Some(
                        text::join(report_names(obs), ", "@),
                    ),
                },
            )
        } else {
            Some(
                RecordView {
                    status: Status::Missing,
                    observed: Some(
                        "reports will NOT be sent: "@ + text::join(missing, ", "@) + " is missing"@,
                    ),
                },
            )
        }
    }
}

/// The whole verdict on a domain.
pub open spec fn evaluate_spec(e: ExpectedView, o: ObservedView) -> DomainView {
    let spf = check_spf_spec(o.domain_txt, e.spf);
    let dkim = check_dkim_spec(o.dkim_txt, e.dkim_public_key);
    let dmarc = check_dmarc_spec(o.dmarc_txt, o.dmarc_found_at);
    let mx = match e.mx {
        Some(m) => Some(check_mx_spec(o.mx, m)),
        None => None,
    };
    DomainView {
        spf,
        dkim,
        dmarc,
        mx,
        report_auth: check_report_auth_spec(o.report_auth),
        valid: spf.status == Status::Okay && dkim.status == Status::Okay && dmarc.status == Status::Okay
            && match mx {
            Some(m) => m.status == Status::Okay,
            None => true,
        },
    }
}

/// No test of a TXT record can panic: each SPF candidate can be cut
/// after six bytes, and each DMARC candidate up to the first match after
/// eight.
pub open spec fn observed_cuts_ok(o: ObservedView) -> bool {
    &&& forall|i: int|
        0 <= i < o.domain_txt.len() ==> text::cut_ok(
            text::trim_start(#[trigger] o.domain_txt[i]),
            6,
        )
    &&& forall|i: int|
        0 <= i < o.dmarc_txt.len() && (forall|j: int| 0 <= j < i ==> !is_dmarc(o.dmarc_txt[j]))
            ==> text::cut_ok(text::trim_start(#[trigger] o.dmarc_txt[i]), 8)
}


// ------------------------------------------------------------ execution

fn chars_list(v: &[String]) -> (r: Vec<Vec<char>>)
    ensures
        text::views(r@) == strings(v@),
{
    let mut out: Vec<Vec<char>> = Vec::new();
    let mut i: usize = 0;
    while i < v.len()
        invariant
            i <= v@.len(),
            out@.len() == i,
            forall|k: int| 0 <= k < i ==> #[trigger] out@[k]@ == v@[k]@,
        decreases v@.len() - i,
    {
        let c = text::chars_of(v[i].as_str());
        out.push(c);
        i = i + 1;
    }
    assert(text::views(out@) =~= strings(v@));
    out
}

fn check_spf(observed: &[String], expected: &str) -> (r: RecordResult)
    ensures
        r@ == check_spf_spec(strings(observed@), expected@),
{
    let obs = chars_list(observed);
    let ghost ov = strings(observed@);
    let mut found: Vec<Vec<char>> = Vec::new();
    let mut i: usize = 0;
    while i < obs.len()
        invariant
            i <= obs@.len(),
            text::views(obs@) == ov,
            text::views(found@) == spf_records(ov.take(i as int)),
            found@.len() <= i,
        decreases obs@.len() - i,
    {
        let head = text::trimmed_start(&obs[i]);
        proof {
            reveal(Seq::filter);
        }
        assert(ov.take(i + 1).drop_last() =~= ov.take(i as int));
        assert(ov.take(i + 1).last() == obs@[i as int]@);
        if text::starts_with_ci(&head, "v=spf1") {
            let t = text::copy_of(&obs[i]);
            let ghost before = text::views(found@);
            found.push(t);
            assert(text::views(found@) =~= before.push(obs@[i as int]@));
        }
        i = i + 1;
    }
    assert(ov.take(obs@.len() as int) =~= ov);
    let n = found.len();
    if n == 0 {
        return RecordResult { status: Status::Missing, observed: None };
    }
    if n == 1 {
        let seen = text::squashed(&found[0]);
        let want_chars = text::chars_of(expected);
        let want = text::squashed(&want_chars);
        let status = if text::eq_ignore_case(&seen, &want) {
            Status::Okay
        } else {
            Status::Mismatch
        };
        return RecordResult { status, observed: Some(text::string_of(&seen)) };
    }
    let count = text::digits_of(n as u64);
    let tail = text::chars_of(
        " SPF records \u{2014} RFC 7208 PermError; receivers treat the domain as having none",
    );
    let msg = text::concat(&count, &tail);
    RecordResult { status: Status::Mismatch, observed: Some(text::string_of(&msg)) }
}

pub fn key_chars_of(v: &[char]) -> (r: Vec<char>)
    ensures
        r@ == key_chars(v@),
{
    let mut out: Vec<char> = Vec::new();
    let mut i: usize = 0;
    while i < v.len()
        invariant
            i <= v@.len(),
            out@ == key_chars(v@.take(i as int)),
        decreases v@.len() - i,
    {
        let c = v[i];
        proof {
            reveal(Seq::filter);
        }
        assert(v@.take(i + 1).drop_last() =~= v@.take(i as int));
        assert(v@.take(i + 1).last() == c);
        if !text::is_whitespace(c) && c != '"' {
            out.push(c);
        }
        i = i + 1;
    }
    assert(v@.take(v@.len() as int) =~= v@);
    out
}

fn dkim_key_of(record: &[char]) -> (r: Option<Vec<char>>)
    ensures
        match r {
            Some(k) => dkim_key(record@) == Some(k@),
            None => dkim_key(record@) is None,
        },
{
    let tags = text::split_char(record, ';');
    let ghost tv = text::views(tags@);
    let prefix = text::chars_of("p=");
    proof {
        reveal_strlit("p=");
    }
    let mut i: usize = 0;
    assert(tv.skip(0) =~= tv);
    while i < tags.len()
        invariant
            i <= tags@.len(),
            tv == text::views(tags@),
            tv == text::split(record@, ';'),
            prefix@ == "p="@,
            prefix@.len() == 2,
            first_key(tv) == first_key(tv.skip(i as int)),
        decreases tags@.len() - i,
    {
        assert(tv.skip(i as int)[0] == tags@[i as int]@);
        assert(tv.skip(i as int).drop_first() =~= tv.skip(i + 1));
        let t = text::trimmed(&tags[i]);
        if text::starts_with_seq(&t, &prefix) {
            let rest = text::slice_of(&t, 2, t.len());
            assert(rest@ =~= t@.skip(2));
            return Some(key_chars_of(&rest));
        }
        i = i + 1;
    }
    assert(tv.skip(tags@.len() as int) =~= Seq::<Seq<char>>::empty());
    None
}

fn check_dkim(observed: &[String], expected_key: &str) -> (r: RecordResult)
    ensures
        r@ == check_dkim_spec(strings(observed@), expected_key@),
{
    let ghost ov = strings(observed@);
    if observed.len() == 0 {
        return RecordResult { status: Status::Missing, observed: None };
    }
    let raw = text::chars_of(expected_key);
    let expected = key_chars_of(&raw);
    let mut i: usize = 0;
    while i < observed.len()
        invariant
            i <= observed@.len(),
            ov == strings(observed@),
            expected@ == key_chars(expected_key@),
            forall|j: int| 0 <= j < i ==> #[trigger] dkim_key(ov[j]) != Some(expected@),
        decreases observed@.len() - i,
    {
        let record = text::chars_of(observed[i].as_str());
        assert(ov[i as int] == record@);
        match dkim_key_of(&record) {
            Some(k) => {
                if text::seq_eq(&k, &expected) {
                    assert(dkim_key(ov[i as int]) == Some(key_chars(expected_key@)));
                    let m = text::chars_of("published key matches the signing key");
                    return RecordResult { status: Status::Okay, observed: Some(text::string_of(&m)) };
                }
            },
            None => {},
        }
        i = i + 1;
    }
    let m = text::chars_of("a DKIM record exists but its key is NOT the relay's signing key");
    RecordResult { status: Status::Mismatch, observed: Some(text::string_of(&m)) }
}

fn is_dmarc_record(t: &[char]) -> (r: bool)
    ensures
        r == is_dmarc(t@),
{
    let head = text::trimmed_start(t);
    text::starts_with_ci(&head, "v=DMARC1")
}

fn check_dmarc(observed: &[String], found_at: &Option<String>) -> (r: RecordResult)
    ensures
        r@ == check_dmarc_spec(strings(observed@), found_at.deep_view()),
{
    let ghost ov = strings(observed@);
    let mut i: usize = 0;
    while i < observed.len()
        invariant
            i <= observed@.len(),
            ov == strings(observed@),
            first_dmarc(ov, 0) == first_dmarc(ov, i as int),
        decreases observed@.len() - i,
    {
        let record = text::chars_of(observed[i].as_str());
        assert(ov[i as int] == record@);
        if is_dmarc_record(&record) {
            let flat = text::squashed(&record);
            let shown = match found_at {
                Some(name) => {
                    let a = text::chars_of(" (at ");
                    let b = text::concat(&flat, &a);
                    let n = text::chars_of(name.as_str());
                    let c = text::concat(&b, &n);
                    let d = text::chars_of(")");
                    text::concat(&c, &d)
                },
                None => flat,
            };
            return RecordResult { status: Status::Okay, observed: Some(text::string_of(&shown)) };
        }
        i = i + 1;
    }
    RecordResult { status: Status::Missing, observed: None }
}

fn norm_host_of(v: &[char]) -> (r: Vec<char>)
    ensures
        r@ == norm_host(v@),
{
    let t = text::trimmed(v);
    let s = text::stripped_end(&t, '.');
    text::lower_of(&s)
}

fn check_mx(observed: &[String], expected: &str) -> (r: RecordResult)
    ensures
        r@ == check_mx_spec(strings(observed@), expected@),
{
    let ghost ov = strings(observed@);
    if observed.len() == 0 {
        return RecordResult { status: Status::Missing, observed: None };
    }
    let obs = chars_list(observed);
    let sep = text::chars_of(", ");
    let listed = text::join_with(&obs, &sep);
    let e = text::chars_of(expected);
    let want = norm_host_of(&e);
    let mut i: usize = 0;
    while i < obs.len()
        invariant
            i <= obs@.len(),
            text::views(obs@) == ov,
            want@ == norm_host(expected@),
            listed@ == text::join(ov, ", "@),
            ov == strings(observed@),
            ov.len() > 0,
            forall|j: int| 0 <= j < i ==> #[trigger] norm_host(ov[j]) != want@,
        decreases obs@.len() - i,
    {
        let h = norm_host_of(&obs[i]);
        assert(ov[i as int] == obs@[i as int]@);
        if text::seq_eq(&h, &want) {
            assert(norm_host(ov[i as int]) == norm_host(expected@));
            return RecordResult { status: Status::Okay, observed: Some(text::string_of(&listed)) };
        }
        i = i + 1;
    }
    RecordResult { status: Status::Mismatch, observed: Some(text::string_of(&listed)) }
}

/// Does any of these TXT records declare DMARC (`v=DMARC1`, any case,
/// after leading whitespace)?
pub fn declares_dmarc(txt: &[String]) -> (r: bool)
    ensures
        r == authorized(strings(txt@)),
{
    let ghost tv = strings(txt@);
    let mut i: usize = 0;
    while i < txt.len()
        invariant
            i <= txt@.len(),
            tv == strings(txt@),
            forall|j: int| 0 <= j < i ==> !#[trigger] is_dmarc(tv[j]),
        decreases txt@.len() - i,
    {
        let t = text::chars_of(txt[i].as_str());
        assert(tv[i as int] == t@);
        if is_dmarc_record(&t) {
            return true;
        }
        i = i + 1;
    }
    false
}

/// Whether [`evaluate`] may be asked about these observations: the test
/// that holds exactly when no record it reads would be cut inside a
/// character (see [`observed_cuts_ok`]).
pub fn cuts_ok(o: &Observed) -> (r: bool)
    ensures
        r == observed_cuts_ok(o@),
{
    let ghost ov = o@;
    let mut i: usize = 0;
    while i < o.domain_txt.len()
        invariant
            i <= o.domain_txt@.len(),
            ov == o@,
            forall|j: int| 0 <= j < i ==> text::cut_ok(text::trim_start(#[trigger] ov.domain_txt[j]), 6),
        decreases o.domain_txt@.len() - i,
    {
        let t = text::chars_of(o.domain_txt[i].as_str());
        assert(ov.domain_txt[i as int] == t@);
        let h = text::trimmed_start(&t);
        if !text::cut_ok_at(&h, 6) {
            return false;
        }
        i = i + 1;
    }
    let mut k: usize = 0;
    while k < o.dmarc_txt.len()
        invariant
            k <= o.dmarc_txt@.len(),
            ov == o@,
            forall|j: int| 0 <= j < ov.domain_txt.len() ==> text::cut_ok(text::trim_start(#[trigger] ov.domain_txt[j]), 6),
            forall|j: int| 0 <= j < k ==> !is_dmarc(#[trigger] ov.dmarc_txt[j]),
            forall|j: int| 0 <= j < k ==> text::cut_ok(text::trim_start(#[trigger] ov.dmarc_txt[j]), 8),
        decreases o.dmarc_txt@.len() - k,
    {
        let t = text::chars_of(o.dmarc_txt[k].as_str());
        assert(ov.dmarc_txt[k as int] == t@);
        let h = text::trimmed_start(&t);
        if !text::cut_ok_at(&h, 8) {
            return false;
        }
        if is_dmarc_record(&t) {
            assert forall|i2: int|
                0 <= i2 < ov.dmarc_txt.len() && (forall|j: int| 0 <= j < i2 ==> !is_dmarc(ov.dmarc_txt[j]))
                implies text::cut_ok(text::trim_start(#[trigger] ov.dmarc_txt[i2]), 8) by {
                if i2 > k {
                    assert(!is_dmarc(ov.dmarc_txt[k as int]));
                }
            }
            return true;
        }
        k = k + 1;
    }
    true
}

/// Whether every URI of one tag can be cut after seven bytes.
fn uris_cut_ok(uris: &Vec<Vec<char>>) -> (r: bool)
    ensures
        r == (forall|m: int| 0 <= m < uris@.len() ==> text::cut_ok(text::trim(#[trigger] uris@[m]@), 7)),
{
    let mut j: usize = 0;
    while j < uris.len()
        invariant
            j <= uris@.len(),
            forall|m: int| 0 <= m < j ==> text::cut_ok(text::trim(#[trigger] uris@[m]@), 7),
        decreases uris@.len() - j,
    {
        let u = text::trimmed(&uris[j]);
        if !text::cut_ok_at(&u, 7) {
            return false;
        }
        j = j + 1;
    }
    true
}

/// Whether [`rua_domains`] and [`report_auth_names`] may be asked about
/// this record: the test that holds exactly when no `rua` URI would be
/// cut inside a character (see [`rua_cuts_ok`]).
#[verifier::spinoff_prover]
pub fn rua_cuts(record: &str) -> (r: bool)
    ensures
        r == rua_cuts_ok(record@),
{
    let chars = text::chars_of(record);
    let tags = text::split_char(&chars, ';');
    let ghost tv = text::views(tags@);
    let mut i: usize = 0;
    while i < tags.len()
        invariant
            i <= tags@.len(),
            tv == text::views(tags@),
            tv == text::split(record@, ';'),
            forall|m: int| 0 <= m < all_uris(tv.take(i as int)).len()
                ==> text::cut_ok(text::trim(#[trigger] all_uris(tv.take(i as int))[m]), 7),
        decreases tags@.len() - i,
    {
        let uris = uris_of(&tags[i]);
        let ghost uv = text::views(uris@);
        let ghost acc = all_uris(tv.take(i as int));
        proof {
            assert(tv.take(i + 1).drop_last() =~= tv.take(i as int));
            assert(tv.take(i + 1).last() == tags@[i as int]@);
            assert(all_uris(tv.take(i + 1)) == acc + uv);
        }
        let ok = uris_cut_ok(&uris);
        proof {
            if ok {
                assert forall|m: int| 0 <= m < (acc + uv).len() implies text::cut_ok(
                    text::trim(#[trigger] (acc + uv)[m]),
                    7,
                ) by {
                    if m >= acc.len() {
                        assert((acc + uv)[m] == uv[m - acc.len()]);
                        assert(uv[m - acc.len()] == uris@[m - acc.len()]@);
                    } else {
                        assert((acc + uv)[m] == acc[m]);
                    }
                }
            } else {
                let j = choose|j: int| 0 <= j < uris@.len() && !text::cut_ok(text::trim(#[trigger] uris@[j]@), 7);
                lemma_all_uris_prefix(tv, i as int + 1);
                assert((acc + uv)[acc.len() + j] == uv[j]);
                assert(all_uris(tv)[acc.len() + j] == uv[j]);
                assert(tv =~= text::split(record@, ';'));
            }
        }
        if !ok {
            return false;
        }
        i = i + 1;
    }
    assert(tv.take(tags@.len() as int) =~= tv);
    true
}

/// The URIs of the first `k` tags come first among those of all tags.
proof fn lemma_all_uris_prefix(tags: Seq<Seq<char>>, k: int)
    requires
        0 <= k <= tags.len(),
    ensures
        all_uris(tags.take(k)).len() <= all_uris(tags).len(),
        forall|m: int| 0 <= m < all_uris(tags.take(k)).len()
            ==> #[trigger] all_uris(tags.take(k))[m] == all_uris(tags)[m],
    decreases tags.len() - k,
{
    if k == tags.len() {
        assert(tags.take(k) =~= tags);
    } else {
        lemma_all_uris_prefix(tags, k + 1);
        assert(tags.take(k + 1).drop_last() =~= tags.take(k));
        let a = all_uris(tags.take(k));
        let b = all_uris(tags.take(k + 1));
        assert(b == a + tag_uris(tags.take(k + 1).last()));
        assert forall|m: int| 0 <= m < a.len() implies #[trigger] a[m] == all_uris(tags)[m] by {
            assert(b[m] == a[m]);
        }
    }
}

/// Which resolvers the checks ask. The verdict must not depend on the
/// resolver the host happens to be configured with: the question is what
/// the world's receivers see.
#[derive(Debug, Clone, PartialEq, Eq)]
pub enum Resolvers {
    /// Public resolvers: Cloudflare, then Google. The default.
    Public,
    /// The host's own configuration.
    System,
    /// These addresses, as given.
    Listed(Vec<String>),
}

/// A resolver setting as a value.
pub enum ResolversView {
    Public,
    System,
    Listed(Seq<Seq<char>>),
}

impl View for Resolvers {
    type V = ResolversView;

    open spec fn view(&self) -> ResolversView {
        match self {
            Resolvers::Public => ResolversView::Public,
            Resolvers::System => ResolversView::System,
            Resolvers::Listed(v) => ResolversView::Listed(strings(v@)),
        }
    }
}

/// The addresses a `DNS_RESOLVERS` value lists: comma-separated, each
/// trimmed, blanks dropped.
pub open spec fn listed_spec(raw: Seq<char>) -> Seq<Seq<char>> {
    text::comma_list_spec(raw)
}

/// `DNS_RESOLVERS`: unset (or listing nothing) means the public
/// resolvers; `system` (any case) the host's own; anything else a list of
/// addresses.
pub open spec fn resolvers_spec(raw: Option<Seq<char>>) -> ResolversView {
    match raw {
        None => ResolversView::Public,
        Some(v) => if text::lower_seq(text::trim(v)) == "system"@ {
            ResolversView::System
        } else if listed_spec(v).len() == 0 {
            ResolversView::Public
        } else {
            ResolversView::Listed(listed_spec(v))
        },
    }
}

/// The resolvers a `DNS_RESOLVERS` setting asks for, as
/// [`resolvers_spec`] says.
pub fn resolvers(raw: Option<&str>) -> (r: Resolvers)
    ensures
        r@ == resolvers_spec(
            match raw {
                Some(v) => Some(v@),
                None => None,
            },
        ),
{
    match raw {
        None => Resolvers::Public,
        Some(v) => {
            let c = text::chars_of(v);
            let t = text::trimmed(&c);
            let l = text::lower_of(&t);
            if text::is_literal(&l, "system") {
                return Resolvers::System;
            }
            let listed = text::comma_list(v);
            if listed.len() == 0 {
                Resolvers::Public
            } else {
                Resolvers::Listed(listed)
            }
        },
    }
}

/// A domain that is not yet valid is re-checked this often: an operator
/// mid-setup should get feedback in minutes.
pub const RECHECK_MINUTES: i64 = 15;

/// A valid domain is re-checked this often: DNS also breaks later, and a
/// green badge that cannot turn red again is a lie.
pub const REVALIDATE_HOURS: i64 = 24;

/// Is a domain due for a check, given its last verdict and that verdict's
/// age in seconds (none when it was never checked)?
pub fn domain_check_due(last: Option<(bool, i64)>) -> (r: bool)
    ensures
        r == crate::ledger::due_spec(last, 900, 86400),
{
    crate::ledger::check_due(last, RECHECK_MINUTES * 60, REVALIDATE_HOURS * 3600)
}

/// The position of the first record that declares DMARC, the one a
/// receiver applies.
pub fn dmarc_record_index(txt: &[String]) -> (r: Option<usize>)
    ensures
        match r {
            Some(i) => first_dmarc(strings(txt@), 0) == Some(i as int) && i < txt@.len(),
            None => first_dmarc(strings(txt@), 0) is None,
        },
{
    let ghost tv = strings(txt@);
    let mut i: usize = 0;
    while i < txt.len()
        invariant
            i <= txt@.len(),
            tv == strings(txt@),
            first_dmarc(tv, 0) == first_dmarc(tv, i as int),
        decreases txt@.len() - i,
    {
        let t = text::chars_of(txt[i].as_str());
        assert(tv[i as int] == t@);
        if is_dmarc_record(&t) {
            return Some(i);
        }
        i = i + 1;
    }
    None
}

fn check_report_auth(observed: &[(String, Vec<String>)]) -> (r: Option<RecordResult>)
    ensures
        opt_record(r) == check_report_auth_spec(auth_view(observed@)),
{
    let ghost ov = auth_view(observed@);
    if observed.len() == 0 {
        return None;
    }
    let mut missing: Vec<Vec<char>> = Vec::new();
    let mut names: Vec<Vec<char>> = Vec::new();
    let mut i: usize = 0;
    while i < observed.len()
        invariant
            i <= observed@.len(),
            ov == auth_view(observed@),
            text::views(missing@) == unauthorized(ov.take(i as int)),
            text::views(names@) == report_names(ov.take(i as int)),
        decreases observed@.len() - i,
    {
        let name = text::chars_of(observed[i].0.as_str());
        let ok = declares_dmarc(observed[i].1.as_slice());
        assert(ov[i as int] == (name@, strings(observed@[i as int].1@)));
        assert(ov.take(i + 1).drop_last() =~= ov.take(i as int));
        assert(ov.take(i + 1).last() == ov[i as int]);
        let ghost before = text::views(missing@);
        if !ok {
            let m = text::copy_of(&name);
            missing.push(m);
            assert(text::views(missing@) =~= before.push(name@));
        }
        let ghost names_before = text::views(names@);
        names.push(name);
        assert(text::views(names@) =~= names_before.push(name@));
        assert(report_names(ov.take(i + 1)) =~= report_names(ov.take(i as int)).push(name@));
        i = i + 1;
    }
    assert(ov.take(observed@.len() as int) =~= ov);
    let sep = text::chars_of(", ");
    if missing.len() == 0 {
        let all = text::join_with(&names, &sep);
        return Some(RecordResult { status: Status::Okay, observed: Some(text::string_of(&all)) });
    }
    let head = text::chars_of("reports will NOT be sent: ");
    let list = text::join_with(&missing, &sep);
    let tail = text::chars_of(" is missing");
    let a = text::concat(&head, &list);
    let msg = text::concat(&a, &tail);
    Some(RecordResult { status: Status::Missing, observed: Some(text::string_of(&msg)) })
}

/// The verdict on one sending domain.
///
/// `valid` needs SPF, DKIM and DMARC all `Okay`, and the MX too where one
/// is expected; report authorization never enters it.
pub fn evaluate(expected: &Expected, observed: &Observed) -> (r: DomainResult)
    requires
        observed_cuts_ok(observed@),
    ensures
        r@ == evaluate_spec(expected@, observed@),
{
    let spf = check_spf(observed.domain_txt.as_slice(), expected.spf.as_str());
    let dkim = check_dkim(observed.dkim_txt.as_slice(), expected.dkim_public_key.as_str());
    let dmarc = check_dmarc(observed.dmarc_txt.as_slice(), &observed.dmarc_found_at);
    let mx = match &expected.mx {
        Some(m) => Some(check_mx(observed.mx.as_slice(), m.as_str())),
        None => None,
    };
    let report_auth = check_report_auth(observed.report_auth.as_slice());
    let mx_ok = match &mx {
        Some(m) => m.status == Status::Okay,
        None => true,
    };
    let valid = spf.status == Status::Okay && dkim.status == Status::Okay && dmarc.status
        == Status::Okay && mx_ok;
    DomainResult { spf, dkim, dmarc, mx, report_auth, valid }
}

// --------------------------------------------------------------- names

/// The registrable domain, approximated as the last two labels (wrong for
/// multi-label suffixes like co.uk, as every caller knows).
pub open spec fn org_domain(d: Seq<char>) -> Seq<char> {
    let labels = text::split(text::strip_end(d, '.'), '.');
    if labels.len() <= 2 {
        text::lower_seq(text::join(labels, "."@))
    } else {
        text::lower_seq(text::join(labels.subrange(labels.len() - 2, labels.len() as int), "."@))
    }
}

/// The registrable domain of a registrable domain is itself: asking twice
/// changes nothing.
pub proof fn org_domain_is_idempotent(d: Seq<char>)
    ensures
        org_domain(org_domain(d)) == org_domain(d),
{
    reveal_strlit(".");
    let dot = "."@;
    assert(dot =~= seq!['.']);
    let s = text::strip_end(d, '.');
    let labels = text::split(s, '.');
    text::lemma_split_pieces(s, '.');
    text::lemma_strip_end_shape(d, '.');
    let t = if labels.len() <= 2 {
        labels
    } else {
        labels.subrange(labels.len() - 2, labels.len() as int)
    };
    assert(1 <= t.len() <= 2);
    assert(t.last() == labels.last());
    assert forall|i: int| 0 <= i < t.len() implies !(#[trigger] t[i]).contains('.') by {
        if labels.len() > 2 {
            assert(t[i] == labels[i + labels.len() - 2]);
        }
    }
    let j = text::join(t, dot);
    let od = text::lower_seq(j);
    assert(org_domain(d) == od);
    if s.len() > 0 {
        text::lemma_join_last(t, dot);
        assert(!t[t.len() - 1].contains('.'));
        assert(t.last()[t.last().len() - 1] != '.');
        assert(od.len() > 0);
        assert(od.last() == text::lower(j.last()));
        assert(od.last() != '.');
    } else {
        assert(labels =~= seq![Seq::<char>::empty()]);
        assert(t =~= seq![Seq::<char>::empty()]);
        assert(j =~= Seq::<char>::empty());
        assert(od =~= Seq::<char>::empty());
    }
    assert(text::strip_end(od, '.') == od);
    text::lemma_split_lower(j, '.');
    text::lemma_split_join(t, '.');
    let tl = t.map_values(|p: Seq<char>| text::lower_seq(p));
    assert(text::split(od, '.') == tl);
    assert(text::lower_seq(dot) =~= dot);
    text::lemma_join_lower(t, dot);
    text::lemma_lower_idempotent(j);
}

/// The URIs of one DMARC tag, when it is `rua` (any case, trimmed).
pub open spec fn tag_uris(tag: Seq<char>) -> Seq<Seq<char>> {
    match text::split_once(tag, '=') {
        Some(kv) => if text::lower_seq(text::trim(kv.0)) == text::lower_seq("rua"@) {
            text::split(kv.1, ',')
        } else {
            Seq::empty()
        },
        None => Seq::empty(),
    }
}

/// The `rua` URIs of a list of tags, in order.
pub open spec fn all_uris(tags: Seq<Seq<char>>) -> Seq<Seq<char>>
    decreases tags.len(),
{
    if tags.len() == 0 {
        Seq::empty()
    } else {
        all_uris(tags.drop_last()) + tag_uris(tags.last())
    }
}

/// The text before the first `c`, or all of it.
pub open spec fn before(s: Seq<char>, c: char) -> Seq<char> {
    match text::split_once(s, c) {
        Some(p) => p.0,
        None => s,
    }
}

/// The mail host of one `rua` URI: `mailto:` (any case) required, the
/// `!size` suffix dropped, the part after the last `@` trimmed, without
/// the root dot, lowercased, and not empty.
pub open spec fn uri_host(raw: Seq<char>) -> Option<Seq<char>> {
    let uri = text::trim(raw);
    if !text::starts_ci(uri, "mailto:"@) {
        None
    } else {
        let addr = before(uri.skip("mailto:"@.len() as int), '!');
        match text::rsplit_once(addr, '@') {
            Some(p) => {
                let h = text::lower_seq(text::strip_end(text::trim(p.1), '.'));
                if h.len() > 0 {
                    Some(h)
                } else {
                    None
                }
            },
            None => None,
        }
    }
}

/// The hosts of `uris`, each once, in order of first appearance.
pub open spec fn collect_hosts(uris: Seq<Seq<char>>) -> Seq<Seq<char>>
    decreases uris.len(),
{
    if uris.len() == 0 {
        Seq::empty()
    } else {
        let out = collect_hosts(uris.drop_last());
        match uri_host(uris.last()) {
            Some(h) => if out.contains(h) {
                out
            } else {
                out.push(h)
            },
            None => out,
        }
    }
}

/// What `rua_domains` reads from a DMARC record.
pub open spec fn rua_spec(record: Seq<char>) -> Seq<Seq<char>> {
    collect_hosts(all_uris(text::split(record, ';')))
}

/// No `rua` URI test can panic: each URI can be cut after seven bytes.
pub open spec fn rua_cuts_ok(record: Seq<char>) -> bool {
    let uris = all_uris(text::split(record, ';'));
    forall|i: int| 0 <= i < uris.len() ==> text::cut_ok(text::trim(#[trigger] uris[i]), 7)
}

/// The authorization names for the hosts outside `org`, in order.
pub open spec fn auth_names(publishing: Seq<char>, org: Seq<char>, hosts: Seq<Seq<char>>) -> Seq<Seq<char>>
    decreases hosts.len(),
{
    if hosts.len() == 0 {
        Seq::empty()
    } else {
        let rest = auth_names(publishing, org, hosts.drop_last());
        if org_domain(hosts.last()) != org {
            rest.push(publishing + "._report._dmarc."@ + hosts.last())
        } else {
            rest
        }
    }
}

/// What `report_auth_names` asks for.
pub open spec fn report_auth_spec(publishing: Seq<char>, record: Seq<char>) -> Seq<Seq<char>> {
    auth_names(publishing, org_domain(publishing), rua_spec(record))
}

/// What `dmarc_names` asks for: the domain, then its organizational domain
/// when that is another, non-empty name.
pub open spec fn dmarc_names_spec(domain: Seq<char>) -> Seq<Seq<char>> {
    let d = text::lower_seq(text::strip_end(domain, '.'));
    let org = org_domain(d);
    if org != d && org.len() > 0 {
        seq!["_dmarc."@ + d, "_dmarc."@ + org]
    } else {
        seq!["_dmarc."@ + d]
    }
}

fn org_of(domain: &[char]) -> (r: Vec<char>)
    ensures
        r@ == org_domain(domain@),
{
    let bare = text::stripped_end(domain, '.');
    let labels = text::split_char(&bare, '.');
    let dot = text::chars_of(".");
    let n = labels.len();
    if n <= 2 {
        let j = text::join_with(&labels, &dot);
        text::lower_of(&j)
    } else {
        let mut last_two: Vec<Vec<char>> = Vec::new();
        last_two.push(text::copy_of(&labels[n - 2]));
        last_two.push(text::copy_of(&labels[n - 1]));
        assert(text::views(last_two@) =~= text::views(labels@).subrange(n - 2, n as int));
        let j = text::join_with(&last_two, &dot);
        text::lower_of(&j)
    }
}

/// The registrable domain, approximated as the last two labels: the same
/// approximation [`dmarc_names`] makes, and wrong in the same way for
/// multi-label suffixes like co.uk.
pub fn organizational_domain(domain: &str) -> (r: String)
    ensures
        r@ == org_domain(domain@),
{
    let d = text::chars_of(domain);
    let o = org_of(&d);
    text::string_of(&o)
}

fn uris_of(tag: &[char]) -> (r: Vec<Vec<char>>)
    ensures
        text::views(r@) == tag_uris(tag@),
{
    match text::split_once_char(tag, '=') {
        Some((key, value)) => {
            let k = text::trimmed(&key);
            let rua = text::chars_of("rua");
            if text::eq_ignore_case(&k, &rua) {
                text::split_char(&value, ',')
            } else {
                let empty: Vec<Vec<char>> = Vec::new();
                assert(text::views(empty@) =~= Seq::<Seq<char>>::empty());
                empty
            }
        },
        None => {
            let empty: Vec<Vec<char>> = Vec::new();
            assert(text::views(empty@) =~= Seq::<Seq<char>>::empty());
            empty
        },
    }
}

fn host_of(raw: &[char]) -> (r: Option<Vec<char>>)
    ensures
        match r {
            Some(h) => uri_host(raw@) == Some(h@),
            None => uri_host(raw@) is None,
        },
{
    let uri = text::trimmed(raw);
    if !text::starts_with_ci(&uri, "mailto:") {
        return None;
    }
    let scheme = text::chars_of("mailto:");
    let rest = text::slice_of(&uri, scheme.len(), uri.len());
    assert(rest@ =~= uri@.skip("mailto:"@.len() as int));
    let addr = match text::split_once_char(&rest, '!') {
        Some((a, _)) => a,
        None => rest,
    };
    match text::rsplit_once_char(&addr, '@') {
        Some((_, host)) => {
            let t = text::trimmed(&host);
            let s = text::stripped_end(&t, '.');
            let h = text::lower_of(&s);
            if h.len() > 0 {
                Some(h)
            } else {
                None
            }
        },
        None => None,
    }
}

fn holds(list: &Vec<Vec<char>>, item: &[char]) -> (r: bool)
    ensures
        r == text::views(list@).contains(item@),
{
    let mut i: usize = 0;
    while i < list.len()
        invariant
            i <= list@.len(),
            forall|j: int| 0 <= j < i ==> list@[j]@ != item@,
        decreases list@.len() - i,
    {
        if text::seq_eq(&list[i], item) {
            assert(text::views(list@)[i as int] == item@);
            return true;
        }
        i = i + 1;
    }
    proof {
        if text::views(list@).contains(item@) {
            let j = choose|j: int| 0 <= j < text::views(list@).len() && text::views(list@)[j] == item@;
            assert(list@[j]@ == item@);
        }
    }
    false
}

fn rua_hosts(record: &[char]) -> (r: Vec<Vec<char>>)
    ensures
        text::views(r@) == rua_spec(record@),
{
    let tags = text::split_char(record, ';');
    let ghost tv = text::views(tags@);
    let mut out: Vec<Vec<char>> = Vec::new();
    let mut i: usize = 0;
    while i < tags.len()
        invariant
            i <= tags@.len(),
            tv == text::views(tags@),
            tv == text::split(record@, ';'),
            text::views(out@) == collect_hosts(all_uris(tv.take(i as int))),
        decreases tags@.len() - i,
    {
        let uris = uris_of(&tags[i]);
        let ghost uv = text::views(uris@);
        let ghost acc = all_uris(tv.take(i as int));
        assert(tv.take(i + 1).drop_last() =~= tv.take(i as int));
        assert(tv.take(i + 1).last() == tags@[i as int]@);
        assert(all_uris(tv.take(i + 1)) == acc + uv);
        let mut j: usize = 0;
        assert(acc + uv.take(0) =~= acc);
        while j < uris.len()
            invariant
                j <= uris@.len(),
                uv == text::views(uris@),
                text::views(out@) == collect_hosts(acc + uv.take(j as int)),
            decreases uris@.len() - j,
        {
            assert((acc + uv.take(j + 1)).drop_last() =~= acc + uv.take(j as int));
            assert((acc + uv.take(j + 1)).last() == uris@[j as int]@);
            match host_of(&uris[j]) {
                Some(h) => {
                    if !holds(&out, &h) {
                        let ghost before_push = text::views(out@);
                        out.push(h);
                        assert(text::views(out@) =~= before_push.push(h@));
                    }
                },
                None => {},
            }
            j = j + 1;
        }
        assert(acc + uv.take(uris@.len() as int) =~= acc + uv);
        i = i + 1;
    }
    assert(tv.take(tags@.len() as int) =~= tv);
    out
}

/// The mail domains named by a DMARC record's `rua=` tag.
///
/// `rua=mailto:a@x.example,mailto:b@y.example!10m` yields `x.example` and
/// `y.example`; the `!size` suffix RFC 7489 §6.2 allows is not part of
/// the address.
pub fn rua_domains(record: &str) -> (r: Vec<String>)
    requires
        rua_cuts_ok(record@),
    ensures
        strings(r@) == rua_spec(record@),
{
    let chars = text::chars_of(record);
    let hosts = rua_hosts(&chars);
    let mut out: Vec<String> = Vec::new();
    let mut i: usize = 0;
    while i < hosts.len()
        invariant
            i <= hosts@.len(),
            out@.len() == i,
            forall|k: int| 0 <= k < i ==> #[trigger] out@[k]@ == hosts@[k]@,
        decreases hosts@.len() - i,
    {
        out.push(text::string_of(&hosts[i]));
        i = i + 1;
    }
    assert(strings(out@) =~= text::views(hosts@));
    out
}

/// The `_report._dmarc` names that must exist for a DMARC record's
/// EXTERNAL report destinations (RFC 7489 §7.1).
///
/// Reports to an address in the record's own organizational domain are a
/// domain consenting to itself and need nothing published. Reports to
/// anywhere else need that host to say so, or receivers silently send
/// nothing. `publishing_domain` is where the record was FOUND: an
/// inherited policy is authorized by the parent that published it.
pub fn report_auth_names(publishing_domain: &str, record: &str) -> (r: Vec<String>)
    requires
        rua_cuts_ok(record@),
    ensures
        strings(r@) == report_auth_spec(publishing_domain@, record@),
{
    let pd = text::chars_of(publishing_domain);
    let org = org_of(&pd);
    let rc = text::chars_of(record);
    let hosts = rua_hosts(&rc);
    let ghost hv = text::views(hosts@);
    let infix = text::chars_of("._report._dmarc.");
    let mut out: Vec<String> = Vec::new();
    let mut i: usize = 0;
    while i < hosts.len()
        invariant
            i <= hosts@.len(),
            hv == text::views(hosts@),
            hv == rua_spec(record@),
            org@ == org_domain(publishing_domain@),
            pd@ == publishing_domain@,
            infix@ == "._report._dmarc."@,
            strings(out@) == auth_names(pd@, org@, hv.take(i as int)),
        decreases hosts@.len() - i,
    {
        let ho = org_of(&hosts[i]);
        assert(hv.take(i + 1).drop_last() =~= hv.take(i as int));
        assert(hv.take(i + 1).last() == hosts@[i as int]@);
        if !text::seq_eq(&ho, &org) {
            let a = text::concat(&pd, &infix);
            let name = text::concat(&a, &hosts[i]);
            let ghost before_push = strings(out@);
            out.push(text::string_of(&name));
            assert(strings(out@) =~= before_push.push(name@));
        }
        i = i + 1;
    }
    assert(hv.take(hosts@.len() as int) =~= hv);
    out
}

/// The `_dmarc.` names a receiver would try, in order.
///
/// RFC 7489 §6.6.3 is exactly two lookups: the domain itself, then its
/// ORGANIZATIONAL domain. Intermediate labels are never consulted.
pub fn dmarc_names(domain: &str) -> (r: Vec<String>)
    ensures
        strings(r@) == dmarc_names_spec(domain@),
{
    let raw = text::chars_of(domain);
    let bare = text::stripped_end(&raw, '.');
    let d = text::lower_of(&bare);
    let org = org_of(&d);
    let prefix = text::chars_of("_dmarc.");
    let first = text::concat(&prefix, &d);
    let mut names: Vec<String> = Vec::new();
    names.push(text::string_of(&first));
    if !text::seq_eq(&org, &d) && org.len() > 0 {
        let second = text::concat(&prefix, &org);
        names.push(text::string_of(&second));
    }
    assert(strings(names@) =~= dmarc_names_spec(domain@));
    names
}

// ------------------------------------------------------------------ laws

/// A domain is valid exactly when SPF, DKIM and DMARC all check out, and
/// the MX too where one is expected.
pub proof fn valid_means_every_record_checks_out(e: ExpectedView, o: ObservedView)
    ensures
        evaluate_spec(e, o).valid <==> (evaluate_spec(e, o).spf.status == Status::Okay
            && evaluate_spec(e, o).dkim.status == Status::Okay && evaluate_spec(e, o).dmarc.status
            == Status::Okay && (e.mx is None || evaluate_spec(e, o).mx->0.status == Status::Okay)),
        e.mx is None <==> evaluate_spec(e, o).mx is None,
{
}

/// Where aggregate reports go says nothing about whether mail
/// authenticates: two observations that differ only in the report
/// authorizations get the same validity.
pub proof fn report_authorization_never_affects_validity(
    e: ExpectedView,
    o1: ObservedView,
    o2: ObservedView,
)
    requires
        o1.domain_txt == o2.domain_txt,
        o1.dkim_txt == o2.dkim_txt,
        o1.dmarc_txt == o2.dmarc_txt,
        o1.dmarc_found_at == o2.dmarc_found_at,
        o1.mx == o2.mx,
    ensures
        evaluate_spec(e, o1).valid == evaluate_spec(e, o2).valid,
{
}

/// Two or more SPF records are a PermError: never `Okay`, even when one of
/// them is exactly right.
pub proof fn duplicate_spf_is_a_mismatch(obs: Seq<Seq<char>>, expected: Seq<char>)
    requires
        spf_records(obs).len() >= 2,
    ensures
        check_spf_spec(obs, expected).status == Status::Mismatch,
{
}

/// TXT records that are not SPF do not disturb the SPF verdict, wherever
/// they stand.
pub proof fn unrelated_txt_records_do_not_disturb_spf(
    obs: Seq<Seq<char>>,
    extra: Seq<char>,
    expected: Seq<char>,
)
    requires
        !is_spf(extra),
    ensures
        check_spf_spec(obs.push(extra), expected) == check_spf_spec(obs, expected),
        check_spf_spec(seq![extra] + obs, expected) == check_spf_spec(obs, expected),
{
    reveal(Seq::filter);
    assert(obs.push(extra).drop_last() =~= obs);
    assert(spf_records(obs.push(extra)) == spf_records(obs));
    lemma_spf_prepend(obs, extra);
}

proof fn lemma_spf_prepend(obs: Seq<Seq<char>>, extra: Seq<char>)
    requires
        !is_spf(extra),
    ensures
        spf_records(seq![extra] + obs) == spf_records(obs),
    decreases obs.len(),
{
    reveal_with_fuel(Seq::filter, 2);
    if obs.len() == 0 {
        assert(seq![extra] + obs =~= seq![extra]);
        assert(seq![extra].drop_last() =~= Seq::<Seq<char>>::empty());
    } else {
        lemma_spf_prepend(obs.drop_last(), extra);
        assert((seq![extra] + obs).drop_last() =~= seq![extra] + obs.drop_last());
        assert((seq![extra] + obs).last() == obs.last());
    }
}

/// A DKIM record is `Okay` exactly when one published key is the signing
/// key once cosmetic characters are dropped; a record with another key is
/// a mismatch, never `Okay`.
pub proof fn dkim_is_okay_only_for_the_signing_key(obs: Seq<Seq<char>>, expected_key: Seq<char>)
    ensures
        check_dkim_spec(obs, expected_key).status == Status::Okay <==> exists|i: int|
            0 <= i < obs.len() && #[trigger] dkim_key(obs[i]) == Some(key_chars(expected_key)),
        obs.len() > 0 ==> check_dkim_spec(obs, expected_key).status != Status::Missing,
{
}

/// The hosts read from a `rua` tag are distinct and never empty.
pub proof fn rua_hosts_are_distinct_and_nonempty(uris: Seq<Seq<char>>)
    ensures
        forall|i: int, j: int|
            0 <= i < j < collect_hosts(uris).len() ==> collect_hosts(uris)[i] != collect_hosts(
                uris,
            )[j],
        forall|i: int|
            0 <= i < collect_hosts(uris).len() ==> #[trigger] collect_hosts(uris)[i].len() > 0,
    decreases uris.len(),
{
    if uris.len() > 0 {
        rua_hosts_are_distinct_and_nonempty(uris.drop_last());
        let out = collect_hosts(uris.drop_last());
        match uri_host(uris.last()) {
            Some(h) => {
                if !out.contains(h) {
                    assert forall|i: int, j: int|
                        0 <= i < j < out.push(h).len() implies out.push(h)[i] != out.push(h)[j] by {
                        if j == out.len() {
                            assert(out[i] != h);
                        }
                    }
                }
            },
            None => {},
        }
    }
}

/// Reporting to your own organizational domain needs nothing published:
/// every name asked for belongs to a host outside the publishing domain's
/// organizational domain, and every such host named by `rua` is asked for.
pub proof fn only_external_destinations_need_authorization(
    publishing: Seq<char>,
    org: Seq<char>,
    hosts: Seq<Seq<char>>,
)
    ensures
        forall|k: int|
            #![trigger auth_names(publishing, org, hosts)[k]]
            0 <= k < auth_names(publishing, org, hosts).len() ==> exists|i: int|
                0 <= i < hosts.len() && org_domain(#[trigger] hosts[i]) != org && auth_names(
                    publishing,
                    org,
                    hosts,
                )[k] == publishing + "._report._dmarc."@ + hosts[i],
        forall|i: int|
            0 <= i < hosts.len() && org_domain(#[trigger] hosts[i]) != org ==> auth_names(
                publishing,
                org,
                hosts,
            ).contains(publishing + "._report._dmarc."@ + hosts[i]),
    decreases hosts.len(),
{
    if hosts.len() > 0 {
        let p = hosts.drop_last();
        only_external_destinations_need_authorization(publishing, org, p);
        let rest = auth_names(publishing, org, p);
        let all = auth_names(publishing, org, hosts);
        assert forall|k: int| #![trigger all[k]] 0 <= k < all.len() implies exists|i: int|
            0 <= i < hosts.len() && org_domain(#[trigger] hosts[i]) != org && all[k] == publishing
                + "._report._dmarc."@ + hosts[i] by {
            if k < rest.len() {
                let i = choose|i: int|
                    0 <= i < p.len() && org_domain(#[trigger] p[i]) != org && rest[k] == publishing
                        + "._report._dmarc."@ + p[i];
                assert(hosts[i] == p[i]);
            } else {
                assert(hosts[hosts.len() - 1] == hosts.last());
            }
        }
        assert forall|i: int| 0 <= i < hosts.len() && org_domain(#[trigger] hosts[i]) != org implies all.contains(
            publishing + "._report._dmarc."@ + hosts[i],
        ) by {
            if i < p.len() {
                assert(p[i] == hosts[i]);
                let k = choose|k: int| 0 <= k < rest.len() && rest[k] == publishing + "._report._dmarc."@ + p[i];
                assert(all[k] == rest[k]);
            } else {
                assert(all[all.len() - 1] == publishing + "._report._dmarc."@ + hosts[i]);
            }
        }
    }
}

/// A DMARC lookup consults at most two names: the domain itself, then its
/// organizational domain; never a label in between.
pub proof fn dmarc_lookup_skips_intermediate_labels(domain: Seq<char>)
    ensures
        ({
            let d = text::lower_seq(text::strip_end(domain, '.'));
            let names = dmarc_names_spec(domain);
            &&& 1 <= names.len() <= 2
            &&& names[0] == "_dmarc."@ + d
            &&& names.len() == 2 ==> names[1] == "_dmarc."@ + org_domain(d)
        }),
{
}

} // verus!
