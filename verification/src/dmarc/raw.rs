//! The wire shapes of an aggregate report, as read from the XML.
//!
//! Every field is optional because the schema is advisory in practice:
//! reporters omit `sp`, omit `pct`, and occasionally omit things RFC 7489
//! calls required. A report that is mostly there is worth more than a
//! parse error. Every text is kept exactly as it stood in the document;
//! [`super::report_from`] decides what each one means.

use vstd::prelude::*;

verus! {

#[derive(Debug, Clone, Default)]
pub struct Feedback {
    pub report_metadata: Option<ReportMetadata>,
    pub policy_published: Option<PolicyPublished>,
    /// The `<record>` elements, in document order.
    pub records: Vec<Record>,
}

#[derive(Debug, Clone, Default)]
pub struct ReportMetadata {
    pub org_name: Option<String>,
    pub email: Option<String>,
    pub report_id: Option<String>,
    pub date_range: Option<DateRange>,
}

#[derive(Debug, Clone, Default)]
pub struct DateRange {
    pub begin: Option<String>,
    pub end: Option<String>,
}

#[derive(Debug, Clone, Default)]
pub struct PolicyPublished {
    pub domain: Option<String>,
    pub adkim: Option<String>,
    pub aspf: Option<String>,
    pub p: Option<String>,
    pub sp: Option<String>,
    pub pct: Option<String>,
}

#[derive(Debug, Clone, Default)]
pub struct Record {
    pub row: Option<Row>,
    pub identifiers: Option<Identifiers>,
    pub auth_results: Option<AuthResults>,
}

#[derive(Debug, Clone, Default)]
pub struct Row {
    pub source_ip: Option<String>,
    pub count: Option<String>,
    pub policy_evaluated: Option<PolicyEvaluated>,
}

#[derive(Debug, Clone, Default)]
pub struct PolicyEvaluated {
    pub disposition: Option<String>,
    pub dkim: Option<String>,
    pub spf: Option<String>,
    pub reason: Vec<Reason>,
}

/// The `<type>` element is held in `kind`.
#[derive(Debug, Clone, Default)]
pub struct Reason {
    pub kind: Option<String>,
    pub comment: Option<String>,
}

#[derive(Debug, Clone, Default)]
pub struct Identifiers {
    pub header_from: Option<String>,
}

#[derive(Debug, Clone, Default)]
pub struct AuthResults {
    pub dkim: Vec<DkimAuth>,
    pub spf: Vec<SpfAuth>,
}

#[derive(Debug, Clone, Default)]
pub struct DkimAuth {
    pub domain: Option<String>,
    pub result: Option<String>,
    pub selector: Option<String>,
}

#[derive(Debug, Clone, Default)]
pub struct SpfAuth {
    pub domain: Option<String>,
    pub result: Option<String>,
}

} // verus!
