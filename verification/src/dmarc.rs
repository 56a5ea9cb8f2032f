//! DMARC aggregate report reading (RFC 7489 Appendix C).
//!
//! Aggregate reports are the receiver's side of the story: only these say
//! what a receiver concluded when the mail arrived. A message quarantined
//! at the far end is still a clean `250 Ok: queued as ...` from the relay.
//!
//! Everything here is a byte transform, so the same code serves a file on
//! disk and an IMAP attachment.
//!
//! **Reports are evidence, never instructions.** Anyone can send a report
//! to the address named in a `rua=` tag, claiming whatever they like about
//! any domain. Nothing read here may drive suppression, domain status, or
//! any other automatic action.

use vstd::prelude::*;
use std::io::Read;
use crate::text;

pub mod raw;

verus! {

/// Refuse anything larger than this once decompressed: a "report" that
/// expands to tens of megabytes is a decompression bomb, not a busy day.
pub const MAX_UNCOMPRESSED: usize = 33554432;

/// A zip carrying more than this many members is not a DMARC report.
pub const MAX_ARCHIVE_MEMBERS: usize = 16;

/// Why an attachment yielded no report.
#[derive(Debug)]
pub enum Error {
    TooLarge,
    TooManyMembers,
    Doctype,
    Empty,
    Archive(String),
    Xml(String),
    /// Structurally valid XML that is not an aggregate report.
    NotAReport(&'static str),
}

pub enum ErrorView {
    TooLarge,
    TooManyMembers,
    Doctype,
    Empty,
    Archive(Seq<char>),
    Xml(Seq<char>),
    NotAReport(Seq<char>),
}

impl View for Error {
    type V = ErrorView;

    open spec fn view(&self) -> ErrorView {
        match self {
            Error::TooLarge => ErrorView::TooLarge,
            Error::TooManyMembers => ErrorView::TooManyMembers,
            Error::Doctype => ErrorView::Doctype,
            Error::Empty => ErrorView::Empty,
            Error::Archive(m) => ErrorView::Archive(m@),
            Error::Xml(m) => ErrorView::Xml(m@),
            Error::NotAReport(m) => ErrorView::NotAReport(m@),
        }
    }
}

/// What an error says.
pub open spec fn error_text(e: ErrorView) -> Seq<char> {
    match e {
        ErrorView::TooLarge => "report is larger than 33554432 bytes uncompressed"@,
        ErrorView::TooManyMembers => "archive carries more than 16 members"@,
        ErrorView::Doctype => "document declares a DOCTYPE or ENTITY"@,
        ErrorView::Empty => "no XML document in the attachment"@,
        ErrorView::Archive(m) => "unreadable archive: "@ + m,
        ErrorView::Xml(m) => "unreadable XML: "@ + m,
        ErrorView::NotAReport(m) => "not a DMARC aggregate report: "@ + m,
    }
}

impl Error {
    /// The human-readable reason.
    pub fn message(&self) -> (r: String)
        ensures
            r@ == error_text(self@),
    {
        let t = match self {
            Error::TooLarge => text::chars_of("report is larger than 33554432 bytes uncompressed"),
            Error::TooManyMembers => text::chars_of("archive carries more than 16 members"),
            Error::Doctype => text::chars_of("document declares a DOCTYPE or ENTITY"),
            Error::Empty => text::chars_of("no XML document in the attachment"),
            Error::Archive(m) => {
                let a = text::chars_of("unreadable archive: ");
                let b = text::chars_of(m.as_str());
                text::concat(&a, &b)
            },
            Error::Xml(m) => {
                let a = text::chars_of("unreadable XML: ");
                let b = text::chars_of(m.as_str());
                text::concat(&a, &b)
            },
            Error::NotAReport(m) => {
                let a = text::chars_of("not a DMARC aggregate report: ");
                let b = text::chars_of(m);
                text::concat(&a, &b)
            },
        };
        text::string_of(&t)
    }
}

/// One aggregate report: a single reporter's account of one time window
/// for one policy domain.
#[derive(Debug, Clone, PartialEq, Eq)]
pub struct Report {
    /// The reporting organisation's own name for itself. Untrusted.
    pub org_name: String,
    pub email: Option<String>,
    /// Unique per reporter; with `org_name` the dedupe key.
    pub report_id: String,
    /// Window, as UNIX seconds, exactly as reported.
    pub begin: i64,
    pub end: i64,
    /// The domain whose policy was applied.
    pub domain: String,
    pub p: Option<String>,
    pub sp: Option<String>,
    pub pct: Option<i32>,
    pub adkim: Option<String>,
    pub aspf: Option<String>,
    pub records: Vec<Record>,
}

/// One source's traffic within a report.
#[derive(Debug, Clone, PartialEq, Eq)]
pub struct Record {
    pub source_ip: String,
    pub count: i64,
    pub disposition: String,
    /// The *aligned* DKIM result: the DMARC verdict, not the bare
    /// signature check.
    pub dkim_aligned: String,
    /// The aligned SPF result, with the same caveat.
    pub spf_aligned: String,
    pub header_from: String,
    pub auth: AuthResults,
    pub reasons: Vec<Reason>,
}

/// The raw authentication results, kept for diagnosis: when an aligned
/// result fails while the raw one passed, these name the domain that
/// actually authenticated.
#[derive(Debug, Clone, Default, PartialEq, Eq)]
pub struct AuthResults {
    pub dkim: Vec<DkimAuth>,
    pub spf: Vec<SpfAuth>,
}

#[derive(Debug, Clone, PartialEq, Eq)]
pub struct DkimAuth {
    pub domain: String,
    pub result: String,
    pub selector: Option<String>,
}

#[derive(Debug, Clone, PartialEq, Eq)]
pub struct SpfAuth {
    pub domain: String,
    pub result: String,
}

/// A reporter's note that it applied something other than the published
/// policy. `kind` is the reason's `type`.
#[derive(Debug, Clone, PartialEq, Eq)]
pub struct Reason {
    pub kind: String,
    pub comment: Option<String>,
}

// ------------------------------------------------------------------ views

pub struct DkimView {
    pub domain: Seq<char>,
    pub result: Seq<char>,
    pub selector: Option<Seq<char>>,
}

pub struct SpfView {
    pub domain: Seq<char>,
    pub result: Seq<char>,
}

pub struct ReasonView {
    pub kind: Seq<char>,
    pub comment: Option<Seq<char>>,
}

pub struct RecordView {
    pub source_ip: Seq<char>,
    pub count: i64,
    pub disposition: Seq<char>,
    pub dkim_aligned: Seq<char>,
    pub spf_aligned: Seq<char>,
    pub header_from: Seq<char>,
    pub dkim: Seq<DkimView>,
    pub spf: Seq<SpfView>,
    pub reasons: Seq<ReasonView>,
}

pub struct ReportView {
    pub org_name: Seq<char>,
    pub email: Option<Seq<char>>,
    pub report_id: Seq<char>,
    pub begin: i64,
    pub end: i64,
    pub domain: Seq<char>,
    pub p: Option<Seq<char>>,
    pub sp: Option<Seq<char>>,
    pub pct: Option<i32>,
    pub adkim: Option<Seq<char>>,
    pub aspf: Option<Seq<char>>,
    pub records: Seq<RecordView>,
}

impl View for DkimAuth {
    type V = DkimView;

    open spec fn view(&self) -> DkimView {
        DkimView { domain: self.domain@, result: self.result@, selector: self.selector.deep_view() }
    }
}

impl View for SpfAuth {
    type V = SpfView;

    open spec fn view(&self) -> SpfView {
        SpfView { domain: self.domain@, result: self.result@ }
    }
}

impl View for Reason {
    type V = ReasonView;

    open spec fn view(&self) -> ReasonView {
        ReasonView { kind: self.kind@, comment: self.comment.deep_view() }
    }
}

pub open spec fn dkim_views(v: Seq<DkimAuth>) -> Seq<DkimView> {
    v.map_values(|d: DkimAuth| d@)
}

pub open spec fn spf_views(v: Seq<SpfAuth>) -> Seq<SpfView> {
    v.map_values(|s: SpfAuth| s@)
}

pub open spec fn reason_views(v: Seq<Reason>) -> Seq<ReasonView> {
    v.map_values(|r: Reason| r@)
}

impl View for Record {
    type V = RecordView;

    open spec fn view(&self) -> RecordView {
        RecordView {
            source_ip: self.source_ip@,
            count: self.count,
            disposition: self.disposition@,
            dkim_aligned: self.dkim_aligned@,
            spf_aligned: self.spf_aligned@,
            header_from: self.header_from@,
            dkim: dkim_views(self.auth.dkim@),
            spf: spf_views(self.auth.spf@),
            reasons: reason_views(self.reasons@),
        }
    }
}

pub open spec fn record_views(v: Seq<Record>) -> Seq<RecordView> {
    v.map_values(|r: Record| r@)
}

impl View for Report {
    type V = ReportView;

    open spec fn view(&self) -> ReportView {
        ReportView {
            org_name: self.org_name@,
            email: self.email.deep_view(),
            report_id: self.report_id@,
            begin: self.begin,
            end: self.end,
            domain: self.domain@,
            p: self.p.deep_view(),
            sp: self.sp.deep_view(),
            pct: self.pct,
            adkim: self.adkim.deep_view(),
            aspf: self.aspf.deep_view(),
            records: record_views(self.records@),
        }
    }
}

impl Record {
    /// DMARC passes on either aligned mechanism; one is enough.
    pub fn passed(&self) -> (r: bool)
        ensures
            r == (self.dkim_aligned@ == "pass"@ || self.spf_aligned@ == "pass"@),
    {
        let d = text::chars_of(self.dkim_aligned.as_str());
        let s = text::chars_of(self.spf_aligned.as_str());
        text::is_literal(&d, "pass") || text::is_literal(&s, "pass")
    }
}

// ------------------------------------------------------------ field text

/// A text that is present and not blank, trimmed.
pub open spec fn trimmed(v: Option<Seq<char>>) -> Option<Seq<char>> {
    match v {
        Some(s) => if text::trim(s).len() > 0 {
            Some(text::trim(s))
        } else {
            None
        },
        None => None,
    }
}

/// A verdict word: trimmed and lowercased, `unknown` when absent. An
/// absent verdict is reported as unknown rather than guessed at.
pub open spec fn lowered(v: Option<Seq<char>>) -> Seq<char> {
    match trimmed(v) {
        Some(s) => text::lower_seq(s),
        None => "unknown"@,
    }
}

/// A number, which arrives as text and padded. A value that cannot be
/// read is absent rather than zero by accident.
pub open spec fn number(v: Option<Seq<char>>) -> Option<i64> {
    match trimmed(v) {
        Some(s) => text::parse_int(s),
        None => None,
    }
}

/// A domain: trimmed and lowercased, empty when absent.
pub open spec fn domain_text(v: Option<Seq<char>>) -> Seq<char> {
    match trimmed(v) {
        Some(s) => text::lower_seq(s),
        None => Seq::empty(),
    }
}

fn trimmed_of(v: &Option<String>) -> (r: Option<String>)
    ensures
        r.deep_view() == trimmed(v.deep_view()),
{
    match v {
        Some(s) => {
            let c = text::chars_of(s.as_str());
            let t = text::trimmed(&c);
            if t.len() > 0 {
                Some(text::string_of(&t))
            } else {
                None
            }
        },
        None => None,
    }
}

fn lowered_of(v: &Option<String>) -> (r: String)
    ensures
        r@ == lowered(v.deep_view()),
{
    match trimmed_of(v) {
        Some(s) => {
            let c = text::chars_of(s.as_str());
            let l = text::lower_of(&c);
            text::string_of(&l)
        },
        None => {
            let u = text::chars_of("unknown");
            text::string_of(&u)
        },
    }
}

fn number_of(v: &Option<String>) -> (r: Option<i64>)
    ensures
        r == number(v.deep_view()),
{
    match trimmed_of(v) {
        Some(s) => {
            let c = text::chars_of(s.as_str());
            text::parse_i64(&c)
        },
        None => None,
    }
}

fn domain_of(v: &Option<String>) -> (r: String)
    ensures
        r@ == domain_text(v.deep_view()),
{
    match trimmed_of(v) {
        Some(s) => {
            let c = text::chars_of(s.as_str());
            let l = text::lower_of(&c);
            text::string_of(&l)
        },
        None => String::new(),
    }
}

// ---------------------------------------------------------- the report

pub open spec fn text_or_empty(v: Option<Seq<char>>) -> Seq<char> {
    match v {
        Some(s) => s,
        None => Seq::empty(),
    }
}

pub open spec fn dkim_spec(d: raw::DkimAuth) -> DkimView {
    DkimView {
        domain: domain_text(d.domain.deep_view()),
        result: lowered(d.result.deep_view()),
        selector: trimmed(d.selector.deep_view()),
    }
}

pub open spec fn spf_spec(s: raw::SpfAuth) -> SpfView {
    SpfView { domain: domain_text(s.domain.deep_view()), result: lowered(s.result.deep_view()) }
}

pub open spec fn reason_spec(r: raw::Reason) -> ReasonView {
    ReasonView { kind: lowered(r.kind.deep_view()), comment: trimmed(r.comment.deep_view()) }
}

pub open spec fn dkim_specs(v: Seq<raw::DkimAuth>) -> Seq<DkimView> {
    v.map_values(|d: raw::DkimAuth| dkim_spec(d))
}

pub open spec fn spf_specs(v: Seq<raw::SpfAuth>) -> Seq<SpfView> {
    v.map_values(|s: raw::SpfAuth| spf_spec(s))
}

pub open spec fn reason_specs(v: Seq<raw::Reason>) -> Seq<ReasonView> {
    v.map_values(|r: raw::Reason| reason_spec(r))
}

/// The policy evaluation of a record, when it has one.
pub open spec fn evaluated(rec: raw::Record) -> Option<raw::PolicyEvaluated> {
    match rec.row {
        Some(row) => row.policy_evaluated,
        None => None,
    }
}

/// One field of a record's policy evaluation.
pub open spec fn verdict(rec: raw::Record, which: int) -> Option<Seq<char>> {
    match evaluated(rec) {
        Some(e) => if which == 0 {
            e.disposition.deep_view()
        } else if which == 1 {
            e.dkim.deep_view()
        } else {
            e.spf.deep_view()
        },
        None => None,
    }
}

/// What one `<record>` says.
pub open spec fn record_spec(rec: raw::Record) -> RecordView {
    let source_ip = match rec.row {
        Some(row) => row.source_ip.deep_view(),
        None => None,
    };
    let count = match rec.row {
        Some(row) => row.count.deep_view(),
        None => None,
    };
    let header_from = match rec.identifiers {
        Some(i) => i.header_from.deep_view(),
        None => None,
    };
    RecordView {
        source_ip: text_or_empty(trimmed(source_ip)),
        count: match number(count) {
            Some(n) => n,
            None => 0,
        },
        disposition: lowered(verdict(rec, 0)),
        dkim_aligned: lowered(verdict(rec, 1)),
        spf_aligned: lowered(verdict(rec, 2)),
        header_from: domain_text(header_from),
        dkim: match rec.auth_results {
            Some(a) => dkim_specs(a.dkim@),
            None => Seq::empty(),
        },
        spf: match rec.auth_results {
            Some(a) => spf_specs(a.spf@),
            None => Seq::empty(),
        },
        reasons: match evaluated(rec) {
            Some(e) => reason_specs(e.reason@),
            None => Seq::empty(),
        },
    }
}

pub open spec fn record_specs(v: Seq<raw::Record>) -> Seq<RecordView> {
    v.map_values(|r: raw::Record| record_spec(r))
}

/// What a document's fields make of a report: refused as `NotAReport`
/// without metadata, a published policy, a report id or a policy domain
/// (checked in that order); every other field optional.
pub open spec fn report_spec(f: raw::Feedback) -> Result<ReportView, ErrorView> {
    match f.report_metadata {
        None => Err(ErrorView::NotAReport("no report_metadata"@)),
        Some(meta) => match f.policy_published {
            None => Err(ErrorView::NotAReport("no policy_published"@)),
            Some(policy) => match trimmed(meta.report_id.deep_view()) {
                None => Err(ErrorView::NotAReport("no report_id"@)),
                Some(id) => match trimmed(policy.domain.deep_view()) {
                    None => Err(ErrorView::NotAReport("no policy domain"@)),
                    Some(d) => {
                        let begin = match meta.date_range {
                            Some(r) => r.begin.deep_view(),
                            None => None,
                        };
                        let end = match meta.date_range {
                            Some(r) => r.end.deep_view(),
                            None => None,
                        };
                        Ok(
                            ReportView {
                                org_name: match trimmed(meta.org_name.deep_view()) {
                                    Some(o) => o,
                                    None => "unknown"@,
                                },
                                email: trimmed(meta.email.deep_view()),
                                report_id: id,
                                begin: match number(begin) {
                                    Some(n) => n,
                                    None => 0,
                                },
                                end: match number(end) {
                                    Some(n) => n,
                                    None => 0,
                                },
                                domain: text::lower_seq(d),
                                p: trimmed(policy.p.deep_view()),
                                sp: trimmed(policy.sp.deep_view()),
                                pct: match number(policy.pct.deep_view()) {
                                    Some(n) => Some(n as i32),
                                    None => None,
                                },
                                adkim: trimmed(policy.adkim.deep_view()),
                                aspf: trimmed(policy.aspf.deep_view()),
                                records: record_specs(f.records@),
                            },
                        )
                    },
                },
            },
        },
    }
}

/// The report window is read field by field, as reported: its start is
/// the number in `begin` and its end the number in `end`, each 0 when the
/// range, or that element of it, is absent or not a number.
pub proof fn the_window_is_read_as_reported(f: raw::Feedback)
    ensures
        report_spec(f) matches Ok(r) ==> {
            let range = f.report_metadata->0.date_range;
            &&& r.begin == match range {
                Some(d) => match number(d.begin.deep_view()) {
                    Some(n) => n,
                    None => 0,
                },
                None => 0,
            }
            &&& r.end == match range {
                Some(d) => match number(d.end.deep_view()) {
                    Some(n) => n,
                    None => 0,
                },
                None => 0,
            }
        },
{
}

fn dkim_of(v: &Vec<raw::DkimAuth>) -> (r: Vec<DkimAuth>)
    ensures
        dkim_views(r@) == dkim_specs(v@),
{
    let mut out: Vec<DkimAuth> = Vec::new();
    let mut i: usize = 0;
    while i < v.len()
        invariant
            i <= v@.len(),
            out@.len() == i,
            forall|k: int| 0 <= k < i ==> #[trigger] out@[k]@ == dkim_spec(v@[k]),
        decreases v@.len() - i,
    {
        let d = &v[i];
        out.push(
            DkimAuth {
                domain: domain_of(&d.domain),
                result: lowered_of(&d.result),
                selector: trimmed_of(&d.selector),
            },
        );
        i = i + 1;
    }
    assert(dkim_views(out@) =~= dkim_specs(v@));
    out
}

fn spf_of(v: &Vec<raw::SpfAuth>) -> (r: Vec<SpfAuth>)
    ensures
        spf_views(r@) == spf_specs(v@),
{
    let mut out: Vec<SpfAuth> = Vec::new();
    let mut i: usize = 0;
    while i < v.len()
        invariant
            i <= v@.len(),
            out@.len() == i,
            forall|k: int| 0 <= k < i ==> #[trigger] out@[k]@ == spf_spec(v@[k]),
        decreases v@.len() - i,
    {
        let s = &v[i];
        out.push(SpfAuth { domain: domain_of(&s.domain), result: lowered_of(&s.result) });
        i = i + 1;
    }
    assert(spf_views(out@) =~= spf_specs(v@));
    out
}

fn reasons_of(v: &Vec<raw::Reason>) -> (r: Vec<Reason>)
    ensures
        reason_views(r@) == reason_specs(v@),
{
    let mut out: Vec<Reason> = Vec::new();
    let mut i: usize = 0;
    while i < v.len()
        invariant
            i <= v@.len(),
            out@.len() == i,
            forall|k: int| 0 <= k < i ==> #[trigger] out@[k]@ == reason_spec(v@[k]),
        decreases v@.len() - i,
    {
        let r = &v[i];
        out.push(Reason { kind: lowered_of(&r.kind), comment: trimmed_of(&r.comment) });
        i = i + 1;
    }
    assert(reason_views(out@) =~= reason_specs(v@));
    out
}

fn record_of(rec: &raw::Record) -> (r: Record)
    ensures
        r@ == record_spec(*rec),
{
    let none: Option<String> = None;
    let (source_ip, count) = match &rec.row {
        Some(row) => (trimmed_of(&row.source_ip), number_of(&row.count)),
        None => (trimmed_of(&none), number_of(&none)),
    };
    let (disposition, dkim_aligned, spf_aligned, reasons) = match &rec.row {
        Some(row) => match &row.policy_evaluated {
            Some(e) => (
                lowered_of(&e.disposition),
                lowered_of(&e.dkim),
                lowered_of(&e.spf),
                reasons_of(&e.reason),
            ),
            None => {
                let empty: Vec<Reason> = Vec::new();
                assert(reason_views(empty@) =~= Seq::<ReasonView>::empty());
                (lowered_of(&none), lowered_of(&none), lowered_of(&none), empty)
            },
        },
        None => {
            let empty: Vec<Reason> = Vec::new();
            assert(reason_views(empty@) =~= Seq::<ReasonView>::empty());
            (lowered_of(&none), lowered_of(&none), lowered_of(&none), empty)
        },
    };
    let header_from = match &rec.identifiers {
        Some(i) => domain_of(&i.header_from),
        None => domain_of(&none),
    };
    let auth = match &rec.auth_results {
        Some(a) => AuthResults { dkim: dkim_of(&a.dkim), spf: spf_of(&a.spf) },
        None => {
            let dkim: Vec<DkimAuth> = Vec::new();
            let spf: Vec<SpfAuth> = Vec::new();
            assert(dkim_views(dkim@) =~= Seq::<DkimView>::empty());
            assert(spf_views(spf@) =~= Seq::<SpfView>::empty());
            AuthResults { dkim, spf }
        },
    };
    Record {
        source_ip: match source_ip {
            Some(s) => s,
            None => String::new(),
        },
        count: match count {
            Some(n) => n,
            None => 0,
        },
        disposition,
        dkim_aligned,
        spf_aligned,
        header_from,
        auth,
        reasons,
    }
}

/// Read a report out of a document's fields.
///
/// Refused as `NotAReport` without metadata, a published policy, a report
/// id or a policy domain; everything else is optional and normalized:
/// texts trimmed, verdicts and domains lowercased, numbers read as
/// integers (`0` for an unreadable window bound).
pub fn report_from(f: &raw::Feedback) -> (r: Result<Report, Error>)
    ensures
        match r {
            Ok(rep) => report_spec(*f) == Ok::<ReportView, ErrorView>(rep@),
            Err(e) => report_spec(*f) == Err::<ReportView, ErrorView>(e@),
        },
{
    let meta = match &f.report_metadata {
        Some(m) => m,
        None => {
            return Err(Error::NotAReport("no report_metadata"));
        },
    };
    let policy = match &f.policy_published {
        Some(p) => p,
        None => {
            return Err(Error::NotAReport("no policy_published"));
        },
    };
    let report_id = match trimmed_of(&meta.report_id) {
        Some(id) => id,
        None => {
            return Err(Error::NotAReport("no report_id"));
        },
    };
    let domain = match trimmed_of(&policy.domain) {
        Some(d) => {
            let c = text::chars_of(d.as_str());
            let l = text::lower_of(&c);
            text::string_of(&l)
        },
        None => {
            return Err(Error::NotAReport("no policy domain"));
        },
    };
    let none: Option<String> = None;
    let (begin, end) = match &meta.date_range {
        Some(range) => (number_of(&range.begin), number_of(&range.end)),
        None => (number_of(&none), number_of(&none)),
    };
    let org_name = match trimmed_of(&meta.org_name) {
        Some(o) => o,
        None => {
            let u = text::chars_of("unknown");
            text::string_of(&u)
        },
    };
    let pct = match number_of(&policy.pct) {
        Some(n) => Some(#[verifier::truncate] (n as i32)),
        None => None,
    };
    let mut records: Vec<Record> = Vec::new();
    let mut i: usize = 0;
    while i < f.records.len()
        invariant
            i <= f.records@.len(),
            records@.len() == i,
            forall|k: int| 0 <= k < i ==> #[trigger] records@[k]@ == record_spec(f.records@[k]),
        decreases f.records@.len() - i,
    {
        records.push(record_of(&f.records[i]));
        i = i + 1;
    }
    assert(record_views(records@) =~= record_specs(f.records@));
    Ok(
        Report {
            org_name,
            email: trimmed_of(&meta.email),
            report_id,
            begin: match begin {
                Some(n) => n,
                None => 0,
            },
            end: match end {
                Some(n) => n,
                None => 0,
            },
            domain,
            p: trimmed_of(&policy.p),
            sp: trimmed_of(&policy.sp),
            pct,
            adkim: trimmed_of(&policy.adkim),
            aspf: trimmed_of(&policy.aspf),
            records,
        },
    )
}

// ----------------------------------------------------- failure messages

/// Control characters as spaces.
pub open spec fn flatten_controls(s: Seq<char>) -> Seq<char> {
    s.map_values(|c: char| if text::is_ctrl(c) { ' ' } else { c })
}

/// What a failure message is cut down to: control characters made
/// spaces, whitespace collapsed, and at most 160 characters kept, with
/// `...` marking a cut.
pub open spec fn clipped_spec(m: Seq<char>) -> Seq<char> {
    let flat = text::squash(flatten_controls(m));
    if flat.len() > 160 {
        flat.take(160) + "..."@
    } else {
        flat
    }
}

/// Bound what a parser failure is allowed to say.
///
/// Deserialisers quote the input they choked on, and this runs unattended
/// against a mailbox anyone can write to: an unbounded error message is a
/// way to fill a disk. One clipped line on one line.
pub fn clipped(message: &str) -> (r: String)
    ensures
        r@ == clipped_spec(message@),
{
    let raw = text::chars_of(message);
    let mut flat: Vec<char> = Vec::new();
    let mut i: usize = 0;
    while i < raw.len()
        invariant
            i <= raw@.len(),
            flat@ == flatten_controls(raw@.take(i as int)),
        decreases raw@.len() - i,
    {
        let c = raw[i];
        let d = if text::is_control(c) {
            ' '
        } else {
            c
        };
        flat.push(d);
        assert(flat@ =~= flatten_controls(raw@.take(i + 1)));
        i = i + 1;
    }
    assert(raw@.take(raw@.len() as int) =~= raw@);
    let squashed = text::squashed(&flat);
    if squashed.len() > 160 {
        let head = text::slice_of(&squashed, 0, 160);
        let dots = text::chars_of("...");
        let cut = text::concat(&head, &dots);
        assert(head@ =~= squashed@.take(160));
        text::string_of(&cut)
    } else {
        text::string_of(&squashed)
    }
}

/// The error for a document the XML reader refused, with its message
/// clipped.
pub fn xml_error(message: &str) -> (r: Error)
    ensures
        r@ == ErrorView::Xml(clipped_spec(message@)),
{
    Error::Xml(clipped(message))
}

/// A failure message never runs away: at most 163 characters.
pub proof fn a_failure_message_is_bounded(m: Seq<char>)
    ensures
        clipped_spec(m).len() <= 163,
{
    reveal_strlit("...");
}

// ----------------------------------------------------------- screening

/// `s` without any leading `c`.
pub open spec fn strip_start(s: Seq<char>, c: char) -> Seq<char>
    decreases s.len(),
{
    if s.len() > 0 && s[0] == c {
        strip_start(s.drop_first(), c)
    } else {
        s
    }
}

/// How many leading characters of `t` take exactly `n` bytes, if any do.
pub open spec fn cut_index(t: Seq<char>, n: int) -> Option<int>
    decreases t.len(),
{
    if n == 0 {
        Some(0)
    } else if n < 0 || t.len() == 0 {
        None
    } else {
        match cut_index(t.drop_first(), n - text::utf8_width(t[0])) {
            Some(k) => Some(k + 1),
            None => None,
        }
    }
}

/// The first 4096 bytes of `t` when that is a whole number of characters,
/// else all of `t` (`t.get(..4096).unwrap_or(t)`).
pub open spec fn head(t: Seq<char>) -> Seq<char> {
    match cut_index(t, 4096) {
        Some(k) => t.take(k),
        None => t,
    }
}

/// The document as text: decoded leniently (a report with one bad byte in
/// a comment is still a report), any leading byte-order marks dropped,
/// and trimmed.
pub open spec fn document_text(xml: Seq<u8>) -> Seq<char> {
    text::trim(strip_start(text::utf8_lossy(xml), '\u{feff}'))
}

/// What `screened_text` decides: a document whose head declares a DOCTYPE
/// or an ENTITY (any case) is refused; no DMARC report has one.
pub open spec fn screened_spec(xml: Seq<u8>) -> Result<Seq<char>, ErrorView> {
    let t = document_text(xml);
    let h = text::lower_seq(head(t));
    if text::contains(h, "<!doctype"@) || text::contains(h, "<!entity"@) {
        Err(ErrorView::Doctype)
    } else {
        Ok(t)
    }
}

fn head_of(t: &[char]) -> (r: Vec<char>)
    ensures
        r@ == head(t@),
{
    let mut acc: u64 = 0;
    let mut i: usize = 0;
    assert(t@.skip(0) =~= t@);
    while i < t.len() && acc < 4096
        invariant
            i <= t@.len(),
            acc <= 4100,
            match cut_index(t@.skip(i as int), 4096 - acc) {
                Some(k) => cut_index(t@, 4096) == Some(k + i),
                None => cut_index(t@, 4096) is None,
            },
        decreases t@.len() - i,
    {
        let w = text::utf8_width_of(t[i]);
        assert(t@.skip(i as int)[0] == t@[i as int]);
        assert(t@.skip(i as int).drop_first() =~= t@.skip(i + 1));
        acc = acc + w;
        i = i + 1;
    }
    if acc == 4096 {
        text::slice_of(t, 0, i)
    } else {
        if i == t.len() && acc < 4096 {
            assert(t@.skip(i as int) =~= Seq::<char>::empty());
        }
        text::copy_of(t)
    }
}

fn strip_boms(v: &[char]) -> (r: Vec<char>)
    ensures
        r@ == strip_start(v@, '\u{feff}'),
{
    let n = v.len();
    let mut i: usize = 0;
    assert(v@.subrange(0, n as int) =~= v@);
    while i < n && v[i] == '\u{feff}'
        invariant
            i <= n == v@.len(),
            strip_start(v@, '\u{feff}') == strip_start(v@.subrange(i as int, n as int), '\u{feff}'),
        decreases n - i,
    {
        assert(v@.subrange(i as int, n as int).drop_first() =~= v@.subrange(i + 1, n as int));
        i = i + 1;
    }
    slice_of_rest(v, i)
}

fn slice_of_rest(v: &[char], from: usize) -> (r: Vec<char>)
    requires
        from <= v@.len(),
    ensures
        r@ == v@.subrange(from as int, v@.len() as int),
{
    text::slice_of(v, from, v.len())
}

/// The text of an attachment, screened before any XML reader sees it.
pub fn screened_text(xml: &[u8]) -> (r: Result<String, Error>)
    ensures
        match r {
            Ok(t) => screened_spec(xml@) == Ok::<Seq<char>, ErrorView>(t@),
            Err(e) => screened_spec(xml@) == Err::<Seq<char>, ErrorView>(e@),
        },
{
    let decoded = text::lossy_chars(xml);
    let bare = strip_boms(&decoded);
    let t = text::trimmed(&bare);
    let h = head_of(&t);
    let lh = text::lower_of(&h);
    let doctype = text::chars_of("<!doctype");
    let entity = text::chars_of("<!entity");
    if text::contains_seq(&lh, &doctype) || text::contains_seq(&lh, &entity) {
        return Err(Error::Doctype);
    }
    Ok(text::string_of(&t))
}

// ----------------------------------------------------------- unwrapping

/// What a gzip stream inflates to, read up to `limit` bytes, or the
/// reader's error message.
pub uninterp spec fn gunzip(blob: Seq<u8>, limit: u64) -> Result<Seq<u8>, Seq<char>>;

/// `flate2::read::GzDecoder` read through `Read::take(limit)` to the end:
/// the inflated bytes, never more than `limit` of them, or the error the
/// reader gave. What it inflates to depends on the bytes and the limit
/// alone and is named rather than stated.
#[verifier::external_body]
fn gunzip_capped(blob: &[u8], limit: u64) -> (r: Result<Vec<u8>, String>)
    ensures
        match r {
            Ok(v) => gunzip(blob@, limit) == Ok::<Seq<u8>, Seq<char>>(v@) && v@.len() <= limit,
            Err(e) => gunzip(blob@, limit) == Err::<Seq<u8>, Seq<char>>(e@),
        },
{
    let mut out = Vec::new();
    match flate2::read::GzDecoder::new(blob).take(limit).read_to_end(&mut out) {
        Ok(_) => Ok(out),
        Err(e) => Err(e.to_string()),
    }
}

/// How many members a zip archive lists, or the reader's error message.
pub uninterp spec fn zip_count(blob: Seq<u8>) -> Result<usize, Seq<char>>;

/// `zip::ZipArchive::new` then `len`: the number of members, or the error
/// opening the archive gave.
#[verifier::external_body]
fn zip_members(blob: &[u8]) -> (r: Result<usize, String>)
    ensures
        match r {
            Ok(n) => zip_count(blob@) == Ok::<usize, Seq<char>>(n),
            Err(e) => zip_count(blob@) == Err::<usize, Seq<char>>(e@),
        },
{
    match zip::ZipArchive::new(std::io::Cursor::new(blob)) {
        Ok(z) => Ok(z.len()),
        Err(e) => Err(e.to_string()),
    }
}

/// Whether member `i` is a plain file, and the size it claims.
pub uninterp spec fn zip_entry(blob: Seq<u8>, i: usize) -> Result<(bool, u64), Seq<char>>;

/// `zip::ZipArchive::by_index(i)` then `is_file` and `size`: whether the
/// member is a plain file (not a directory or a link) and its declared
/// uncompressed size, or the error the archive gave.
#[verifier::external_body]
fn zip_entry_info(blob: &[u8], i: usize) -> (r: Result<(bool, u64), String>)
    ensures
        match r {
            Ok(p) => zip_entry(blob@, i) == Ok::<(bool, u64), Seq<char>>(p),
            Err(e) => zip_entry(blob@, i) == Err::<(bool, u64), Seq<char>>(e@),
        },
{
    let mut z = zip::ZipArchive::new(std::io::Cursor::new(blob)).map_err(|e| e.to_string())?;
    let entry = z.by_index(i).map_err(|e| e.to_string())?;
    Ok((entry.is_file(), entry.size()))
}

/// What member `i` decompresses to, read up to `limit` bytes.
pub uninterp spec fn zip_read(blob: Seq<u8>, i: usize, limit: u64) -> Result<Seq<u8>, Seq<char>>;

/// `zip::ZipArchive::by_index(i)` read through `Read::take(limit)` to the
/// end: the member's bytes, never more than `limit` of them, or the error
/// the archive gave.
#[verifier::external_body]
fn zip_entry_read(blob: &[u8], i: usize, limit: u64) -> (r: Result<Vec<u8>, String>)
    ensures
        match r {
            Ok(v) => zip_read(blob@, i, limit) == Ok::<Seq<u8>, Seq<char>>(v@) && v@.len() <= limit,
            Err(e) => zip_read(blob@, i, limit) == Err::<Seq<u8>, Seq<char>>(e@),
        },
{
    let mut z = zip::ZipArchive::new(std::io::Cursor::new(blob)).map_err(|e| e.to_string())?;
    let entry = z.by_index(i).map_err(|e| e.to_string())?;
    let mut out = Vec::new();
    entry.take(limit).read_to_end(&mut out).map_err(|e| e.to_string())?;
    Ok(out)
}

/// The cap on a read: one byte over the limit is enough to know.
pub open spec fn read_cap() -> u64 {
    (MAX_UNCOMPRESSED + 1) as u64
}

/// What a gzip attachment yields.
pub open spec fn gzip_spec(blob: Seq<u8>) -> Result<Seq<Seq<u8>>, ErrorView> {
    match gunzip(blob, read_cap()) {
        Err(m) => Err(ErrorView::Archive(clipped_spec(m))),
        Ok(out) => if out.len() > MAX_UNCOMPRESSED {
            Err(ErrorView::TooLarge)
        } else {
            Ok(seq![out])
        },
    }
}

/// The members of a zip from member `i` on, after `out` was collected:
/// directories and links are skipped; a member that claims, or turns out,
/// to be over the limit refuses the whole archive.
pub open spec fn unzip_from(blob: Seq<u8>, i: int, n: int, out: Seq<Seq<u8>>) -> Result<Seq<Seq<u8>>, ErrorView>
    decreases n - i,
{
    if i >= n || i < 0 {
        if out.len() == 0 {
            Err(ErrorView::Empty)
        } else {
            Ok(out)
        }
    } else {
        match zip_entry(blob, i as usize) {
            Err(m) => Err(ErrorView::Archive(clipped_spec(m))),
            Ok(info) => if !info.0 {
                unzip_from(blob, i + 1, n, out)
            } else if info.1 > MAX_UNCOMPRESSED {
                Err(ErrorView::TooLarge)
            } else {
                match zip_read(blob, i as usize, read_cap()) {
                    Err(m) => Err(ErrorView::Archive(clipped_spec(m))),
                    Ok(data) => if data.len() > MAX_UNCOMPRESSED {
                        Err(ErrorView::TooLarge)
                    } else {
                        unzip_from(blob, i + 1, n, out.push(data))
                    },
                }
            },
        }
    }
}

/// What a zip attachment yields.
pub open spec fn zip_spec(blob: Seq<u8>) -> Result<Seq<Seq<u8>>, ErrorView> {
    match zip_count(blob) {
        Err(m) => Err(ErrorView::Archive(clipped_spec(m))),
        Ok(n) => if n > MAX_ARCHIVE_MEMBERS {
            Err(ErrorView::TooManyMembers)
        } else {
            unzip_from(blob, 0, n as int, Seq::empty())
        },
    }
}

/// `blob` begins with `magic`.
pub open spec fn has_magic(blob: Seq<u8>, magic: Seq<u8>) -> bool {
    blob.len() >= magic.len() && blob.take(magic.len() as int) == magic
}

/// What `extract` yields: gzip and zip by their magic bytes, anything
/// else as the bare document.
pub open spec fn extract_spec(blob: Seq<u8>) -> Result<Seq<Seq<u8>>, ErrorView> {
    if has_magic(blob, seq![0x1fu8, 0x8bu8]) {
        gzip_spec(blob)
    } else if has_magic(blob, seq![0x50u8, 0x4bu8, 0x03u8, 0x04u8]) {
        zip_spec(blob)
    } else if blob.len() > MAX_UNCOMPRESSED {
        Err(ErrorView::TooLarge)
    } else {
        Ok(seq![blob])
    }
}

/// Byte views of a list of byte vectors.
pub open spec fn blobs(v: Seq<Vec<u8>>) -> Seq<Seq<u8>> {
    v.map_values(|b: Vec<u8>| b@)
}

fn archive_error(message: &str) -> (r: Error)
    ensures
        r@ == ErrorView::Archive(clipped_spec(message@)),
{
    Error::Archive(clipped(message))
}

fn copy_bytes(b: &[u8]) -> (r: Vec<u8>)
    ensures
        r@ == b@,
{
    let mut out: Vec<u8> = Vec::new();
    let mut i: usize = 0;
    while i < b.len()
        invariant
            i <= b@.len(),
            out@ == b@.take(i as int),
        decreases b@.len() - i,
    {
        out.push(b[i]);
        assert(out@ =~= b@.take(i + 1));
        i = i + 1;
    }
    assert(b@.take(b@.len() as int) =~= b@);
    out
}

fn inflate_gzip(blob: &[u8]) -> (r: Result<Vec<u8>, Error>)
    ensures
        match r {
            Ok(v) => gzip_spec(blob@) == Ok::<Seq<Seq<u8>>, ErrorView>(seq![v@]),
            Err(e) => gzip_spec(blob@) == Err::<Seq<Seq<u8>>, ErrorView>(e@),
        },
{
    let out = match gunzip_capped(blob, (MAX_UNCOMPRESSED as u64) + 1) {
        Ok(v) => v,
        Err(m) => {
            return Err(archive_error(m.as_str()));
        },
    };
    if out.len() > MAX_UNCOMPRESSED {
        return Err(Error::TooLarge);
    }
    Ok(out)
}

fn unzip(blob: &[u8]) -> (r: Result<Vec<Vec<u8>>, Error>)
    ensures
        match r {
            Ok(v) => zip_spec(blob@) == Ok::<Seq<Seq<u8>>, ErrorView>(blobs(v@)),
            Err(e) => zip_spec(blob@) == Err::<Seq<Seq<u8>>, ErrorView>(e@),
        },
{
    let n = match zip_members(blob) {
        Ok(n) => n,
        Err(m) => {
            return Err(archive_error(m.as_str()));
        },
    };
    if n > MAX_ARCHIVE_MEMBERS {
        return Err(Error::TooManyMembers);
    }
    let mut out: Vec<Vec<u8>> = Vec::new();
    let mut i: usize = 0;
    assert(blobs(out@) =~= Seq::<Seq<u8>>::empty());
    while i < n
        invariant
            i <= n <= MAX_ARCHIVE_MEMBERS,
            zip_count(blob@) == Ok::<usize, Seq<char>>(n),
            zip_spec(blob@) == unzip_from(blob@, i as int, n as int, blobs(out@)),
        decreases n - i,
    {
        let (is_file, size) = match zip_entry_info(blob, i) {
            Ok(p) => p,
            Err(m) => {
                return Err(archive_error(m.as_str()));
            },
        };
        if is_file {
            if size > (MAX_UNCOMPRESSED as u64) {
                return Err(Error::TooLarge);
            }
            let data = match zip_entry_read(blob, i, (MAX_UNCOMPRESSED as u64) + 1) {
                Ok(d) => d,
                Err(m) => {
                    return Err(archive_error(m.as_str()));
                },
            };
            if data.len() > MAX_UNCOMPRESSED {
                return Err(Error::TooLarge);
            }
            let ghost before = blobs(out@);
            out.push(data);
            assert(blobs(out@) =~= before.push(data@));
        }
        i = i + 1;
    }
    if out.len() == 0 {
        return Err(Error::Empty);
    }
    Ok(out)
}

/// Unwrap an attachment into the XML documents it carries.
///
/// Reporters disagree about packaging: some send `.xml.gz`, some `.zip`,
/// some the bare document. The magic bytes decide, not a filename or a
/// declared content type. Nothing larger than `MAX_UNCOMPRESSED` comes
/// out, and a zip may hold at most `MAX_ARCHIVE_MEMBERS` members.
pub fn extract(blob: &[u8]) -> (r: Result<Vec<Vec<u8>>, Error>)
    ensures
        match r {
            Ok(v) => extract_spec(blob@) == Ok::<Seq<Seq<u8>>, ErrorView>(blobs(v@)),
            Err(e) => extract_spec(blob@) == Err::<Seq<Seq<u8>>, ErrorView>(e@),
        },
{
    if blob.len() >= 2 && blob[0] == 0x1f && blob[1] == 0x8b {
        assert(has_magic(blob@, seq![0x1fu8, 0x8bu8])) by {
            assert(blob@.take(2) =~= seq![0x1fu8, 0x8bu8]);
        }
        let doc = inflate_gzip(blob)?;
        let mut out: Vec<Vec<u8>> = Vec::new();
        out.push(doc);
        assert(blobs(out@) =~= seq![out@[0]@]);
        return Ok(out);
    }
    assert(!has_magic(blob@, seq![0x1fu8, 0x8bu8])) by {
        if has_magic(blob@, seq![0x1fu8, 0x8bu8]) {
            assert(blob@.take(2)[0] == 0x1f && blob@.take(2)[1] == 0x8b);
        }
    }
    if blob.len() >= 4 && blob[0] == 0x50 && blob[1] == 0x4b && blob[2] == 0x03 && blob[3] == 0x04 {
        assert(blob@.take(4) =~= seq![0x50u8, 0x4bu8, 0x03u8, 0x04u8]);
        return unzip(blob);
    }
    assert(!has_magic(blob@, seq![0x50u8, 0x4bu8, 0x03u8, 0x04u8])) by {
        if has_magic(blob@, seq![0x50u8, 0x4bu8, 0x03u8, 0x04u8]) {
            assert(blob@.take(4)[0] == 0x50 && blob@.take(4)[1] == 0x4b);
            assert(blob@.take(4)[2] == 0x03 && blob@.take(4)[3] == 0x04);
        }
    }
    if blob.len() > MAX_UNCOMPRESSED {
        return Err(Error::TooLarge);
    }
    let mut out: Vec<Vec<u8>> = Vec::new();
    out.push(copy_bytes(blob));
    assert(blobs(out@) =~= seq![blob@]);
    Ok(out)
}

/// Nothing over the limit ever comes out of an attachment, whatever its
/// packaging.
pub proof fn nothing_over_the_limit_comes_out(blob: Seq<u8>)
    ensures
        extract_spec(blob) matches Ok(docs) ==> forall|i: int|
            0 <= i < docs.len() ==> #[trigger] docs[i].len() <= MAX_UNCOMPRESSED,
{
    if has_magic(blob, seq![0x1fu8, 0x8bu8]) {
    } else if has_magic(blob, seq![0x50u8, 0x4bu8, 0x03u8, 0x04u8]) {
        match zip_count(blob) {
            Ok(n) => if n <= MAX_ARCHIVE_MEMBERS {
                lemma_unzip_bounded(blob, 0, n as int, Seq::empty());
            },
            Err(_) => {},
        }
    }
}

proof fn lemma_unzip_bounded(blob: Seq<u8>, i: int, n: int, out: Seq<Seq<u8>>)
    requires
        forall|k: int| 0 <= k < out.len() ==> #[trigger] out[k].len() <= MAX_UNCOMPRESSED,
    ensures
        unzip_from(blob, i, n, out) matches Ok(docs) ==> forall|k: int|
            0 <= k < docs.len() ==> #[trigger] docs[k].len() <= MAX_UNCOMPRESSED,
    decreases n - i,
{
    if i < n && i >= 0 {
        match zip_entry(blob, i as usize) {
            Ok(info) => if !info.0 {
                lemma_unzip_bounded(blob, i + 1, n, out);
            } else if info.1 <= MAX_UNCOMPRESSED {
                match zip_read(blob, i as usize, read_cap()) {
                    Ok(data) => if data.len() <= MAX_UNCOMPRESSED {
                        assert forall|k: int| 0 <= k < out.push(data).len() implies #[trigger] out.push(
                            data,
                        )[k].len() <= MAX_UNCOMPRESSED by {
                            if k < out.len() {
                                assert(out.push(data)[k] == out[k]);
                            }
                        }
                        lemma_unzip_bounded(blob, i + 1, n, out.push(data));
                    },
                    Err(_) => {},
                }
            },
            Err(_) => {},
        }
    }
}

/// A file an import reads as a report: by its name, ignoring ASCII case,
/// XML, gzip or zip.
pub open spec fn report_file_name(name: Seq<char>) -> bool {
    let l = text::lower_seq(name);
    text::ends_with(l, ".xml"@) || text::ends_with(l, ".xml.gz"@) || text::ends_with(l, ".gz"@)
        || text::ends_with(l, ".zip"@)
}

/// Whether a file found in a directory walk is read as a report, as
/// [`report_file_name`] says. A file named explicitly is read whatever
/// it is called.
pub fn is_report_file_name(name: &str) -> (r: bool)
    ensures
        r == report_file_name(name@),
{
    let c = text::chars_of(name);
    let l = text::lower_of(&c);
    text::ends_with_seq(&l, &text::chars_of(".xml")) || text::ends_with_seq(
        &l,
        &text::chars_of(".xml.gz"),
    ) || text::ends_with_seq(&l, &text::chars_of(".gz")) || text::ends_with_seq(
        &l,
        &text::chars_of(".zip"),
    )
}

/// What one import did. "Nothing new" and "nothing found" are different
/// answers, and only one of them is a problem.
#[derive(Debug, Default, Clone, Copy, PartialEq, Eq)]
pub struct Ingested {
    pub stored: usize,
    pub duplicates: usize,
    pub records: usize,
}

impl Ingested {
    /// An import that has read nothing yet.
    pub fn new() -> (r: Ingested)
        ensures
            r.stored == 0 && r.duplicates == 0 && r.records == 0,
    {
        Ingested { stored: 0, duplicates: 0, records: 0 }
    }

    /// Count one report: newly stored with its `records` records, or a
    /// duplicate of one already held, which adds no records.
    pub fn count(&mut self, stored: bool, records: usize)
        requires
            stored ==> old(self).stored < usize::MAX && old(self).records + records <= usize::MAX,
            !stored ==> old(self).duplicates < usize::MAX,
        ensures
            stored ==> final(self).stored == old(self).stored + 1
                && final(self).records == old(self).records + records
                && final(self).duplicates == old(self).duplicates,
            !stored ==> final(self).duplicates == old(self).duplicates + 1
                && final(self).stored == old(self).stored
                && final(self).records == old(self).records,
    {
        if stored {
            self.stored = self.stored + 1;
            self.records = self.records + records;
        } else {
            self.duplicates = self.duplicates + 1;
        }
    }
}

} // verus!
