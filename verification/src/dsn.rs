//! Delivery Status Notification parsing (RFC 3464).
//!
//! Tolerant on purpose: a bounce that cannot be read yields no reports and
//! is stored raw by the caller, never discarded and never guessed at.
//!
//! `X-Postfix-Queue-ID` in the delivery-status part is the queue id of the
//! ORIGINAL message — the value the relay handed back when it accepted it —
//! which is what joins a bounce to the message it is about.

use vstd::prelude::*;
use crate::classification::{self, Classification};
use crate::text;

verus! {

/// One recipient's outcome within a DSN. A single bounce may carry several.
#[derive(Debug, Clone, PartialEq, Eq)]
pub struct Report {
    /// The queue id of the message that failed, if the DSN carried one.
    pub relay_queue_id: Option<String>,
    /// `Final-Recipient`, with the `rfc822;` prefix stripped.
    pub final_recipient: Option<String>,
    /// `Status`, e.g. `5.1.1`.
    pub status: Option<String>,
    /// `Diagnostic-Code`, the remote MTA's own words.
    pub diagnostic: Option<String>,
    pub classification: Classification,
}

/// A report as plain values.
pub struct ReportModel {
    pub relay_queue_id: Option<Seq<char>>,
    pub final_recipient: Option<Seq<char>>,
    pub status: Option<Seq<char>>,
    pub diagnostic: Option<Seq<char>>,
    pub classification: Classification,
}

impl View for Report {
    type V = ReportModel;

    open spec fn view(&self) -> ReportModel {
        ReportModel {
            relay_queue_id: self.relay_queue_id.deep_view(),
            final_recipient: self.final_recipient.deep_view(),
            status: self.status.deep_view(),
            diagnostic: self.diagnostic.deep_view(),
            classification: self.classification,
        }
    }
}

// ------------------------------------------------------------------ spec

/// Does an enhanced status blame the recipient's address? Only the
/// subject/detail codes naming a missing or unusable mailbox qualify:
/// `x.1.1`, `x.1.2`, `x.1.3`, `x.1.6`, `x.1.10` and `x.2.1`.
pub open spec fn blames_recipient(status: Seq<char>) -> bool {
    match text::split_once(text::trim(status), '.') {
        Some(parts) => {
            let rest = parts.1;
            ||| rest == "1.1"@
            ||| rest == "1.2"@
            ||| rest == "1.3"@
            ||| rest == "1.6"@
            ||| rest == "1.10"@
            ||| rest == "2.1"@
        },
        None => false,
    }
}

/// Does a diagnostic say, in the receiver's own words, that the mailbox is
/// not there? Matched case-insensitively with whitespace runs collapsed.
pub open spec fn says_mailbox_missing(diagnostic: Seq<char>) -> bool {
    let flat = text::squash(text::lower_seq(diagnostic));
    ||| text::contains(flat, "no such user"@)
    ||| text::contains(flat, "user unknown"@)
    ||| text::contains(flat, "recipient not found"@)
    ||| text::contains(flat, "mailbox not found"@)
    ||| text::contains(flat, "no mailbox here"@)
}

/// Only a permanent failure about this recipient suppresses.
pub open spec fn suppresses(r: ReportModel) -> bool {
    &&& r.classification == Classification::Permanent
    &&& {
        ||| (r.status matches Some(s) && blames_recipient(s))
        ||| (r.diagnostic matches Some(d) && says_mailbox_missing(d))
    }
}

/// A line that continues the one before it (RFC 5322 folding).
pub open spec fn continues(line: Seq<char>) -> bool {
    line.len() > 0 && (line[0] == ' ' || line[0] == '\t')
}

/// Folded continuation lines joined to the line they continue.
pub open spec fn unfold(ls: Seq<Seq<char>>) -> Seq<Seq<char>>
    decreases ls.len(),
{
    if ls.len() == 0 {
        Seq::empty()
    } else {
        let o = unfold(ls.drop_last());
        let l = ls.last();
        if continues(l) && o.len() > 0 {
            o.update(o.len() - 1, o.last() + seq![' '] + text::trim(l))
        } else {
            o.push(l)
        }
    }
}

/// `rfc822; user@example.com` and `smtp; 550 ...` without the type prefix.
pub open spec fn strip_type(value: Seq<char>) -> Seq<char> {
    match text::split_once(value, ';') {
        Some(parts) => text::trim(parts.1),
        None => text::trim(value),
    }
}

/// A header line as (lowercased trimmed name, trimmed value).
pub open spec fn field(line: Seq<char>) -> Option<(Seq<char>, Seq<char>)> {
    match text::split_once(line, ':') {
        Some(parts) => Some((text::lower_seq(text::trim(parts.0)), text::trim(parts.1))),
        None => None,
    }
}

/// What the reader holds between lines.
pub struct Scan {
    pub reports: Seq<ReportModel>,
    pub queue_id: Option<Seq<char>>,
    pub current: Option<ReportModel>,
}

pub open spec fn fresh_report(queue_id: Option<Seq<char>>, value: Seq<char>) -> ReportModel {
    ReportModel {
        relay_queue_id: queue_id,
        final_recipient: Some(strip_type(value)),
        status: None,
        diagnostic: None,
        classification: Classification::Unknown,
    }
}

pub open spec fn closed(st: Scan) -> Seq<ReportModel> {
    match st.current {
        Some(c) => st.reports.push(c),
        None => st.reports,
    }
}

/// One unfolded line read into the scan. `Final-Recipient` opens a new
/// recipient block; `Status` and `Diagnostic-Code` fill the open one;
/// `X-Postfix-Queue-ID` is per message.
pub open spec fn step(st: Scan, line: Seq<char>) -> Scan {
    match field(line) {
        None => st,
        Some(f) => {
            let name = f.0;
            let value = f.1;
            if value.len() == 0 {
                st
            } else if name == "x-postfix-queue-id"@ {
                Scan { reports: st.reports, queue_id: Some(value), current: st.current }
            } else if name == "final-recipient"@ {
                Scan {
                    reports: closed(st),
                    queue_id: st.queue_id,
                    current: Some(fresh_report(st.queue_id, value)),
                }
            } else if name == "status"@ {
                match st.current {
                    Some(c) => Scan {
                        reports: st.reports,
                        queue_id: st.queue_id,
                        current: Some(
                            ReportModel {
                                relay_queue_id: c.relay_queue_id,
                                final_recipient: c.final_recipient,
                                status: Some(value),
                                diagnostic: c.diagnostic,
                                classification: classification::status_class(value),
                            },
                        ),
                    },
                    None => st,
                }
            } else if name == "diagnostic-code"@ {
                match st.current {
                    Some(c) => Scan {
                        reports: st.reports,
                        queue_id: st.queue_id,
                        current: Some(
                            ReportModel {
                                relay_queue_id: c.relay_queue_id,
                                final_recipient: c.final_recipient,
                                status: c.status,
                                diagnostic: Some(strip_type(value)),
                                classification: c.classification,
                            },
                        ),
                    },
                    None => st,
                }
            } else {
                st
            }
        },
    }
}

pub open spec fn initial_scan() -> Scan {
    Scan { reports: Seq::empty(), queue_id: None, current: None }
}

pub open spec fn scan(ls: Seq<Seq<char>>) -> Scan
    decreases ls.len(),
{
    if ls.len() == 0 {
        initial_scan()
    } else {
        step(scan(ls.drop_last()), ls.last())
    }
}

/// A report that lacks a queue id takes the message's, wherever in the
/// DSN that appeared.
pub open spec fn backfill(r: ReportModel, id: Option<Seq<char>>) -> ReportModel {
    if r.relay_queue_id is None && id is Some {
        ReportModel {
            relay_queue_id: id,
            final_recipient: r.final_recipient,
            status: r.status,
            diagnostic: r.diagnostic,
            classification: r.classification,
        }
    } else {
        r
    }
}

/// The reports a raw DSN carries, one per recipient block.
pub open spec fn parse_spec(raw: Seq<char>) -> Seq<ReportModel> {
    let st = scan(unfold(text::lines(raw)));
    closed(st).map_values(|r: ReportModel| backfill(r, st.queue_id))
}

// ------------------------------------------------------------------ exec

impl Report {
    /// Only a permanent failure *about this recipient* may suppress an
    /// address: the status code first (an allowlist), the receiver's own
    /// words second. Anything else — including a bounce that could not be
    /// classified — leaves the address alone.
    pub fn should_suppress(&self) -> (r: bool)
        ensures
            r == suppresses(self@),
    {
        if self.classification != Classification::Permanent {
            return false;
        }
        let by_status = match &self.status {
            Some(s) => recipient_is_the_problem(s.as_str()),
            None => false,
        };
        if by_status {
            return true;
        }
        match &self.diagnostic {
            Some(d) => names_a_missing_mailbox(d.as_str()),
            None => false,
        }
    }
}


/// Does an RFC 3463 enhanced status blame the recipient's address?
pub fn recipient_is_the_problem(status: &str) -> (r: bool)
    ensures
        r == blames_recipient(status@),
{
    let chars = text::chars_of(status);
    let t = text::trimmed(&chars);
    match text::split_once_char(&t, '.') {
        Some((_, rest)) => {
            text::is_literal(&rest, "1.1") || text::is_literal(&rest, "1.2") || text::is_literal(&rest, "1.3")
                || text::is_literal(&rest, "1.6") || text::is_literal(&rest, "1.10") || text::is_literal(&rest, "2.1")
        },
        None => false,
    }
}

fn has_phrase(flat: &[char], phrase: &str) -> (r: bool)
    ensures
        r == text::contains(flat@, phrase@),
{
    let p = text::chars_of(phrase);
    text::contains_seq(flat, &p)
}

/// Does the receiver say, in its own words, that the mailbox is missing?
pub fn names_a_missing_mailbox(diagnostic: &str) -> (r: bool)
    ensures
        r == says_mailbox_missing(diagnostic@),
{
    let chars = text::chars_of(diagnostic);
    let lowered = text::lower_of(&chars);
    let flat = text::squashed(&lowered);
    has_phrase(&flat, "no such user") || has_phrase(&flat, "user unknown") || has_phrase(
        &flat,
        "recipient not found",
    ) || has_phrase(&flat, "mailbox not found") || has_phrase(&flat, "no mailbox here")
}

/// Join folded continuation lines to the line they continue.
pub fn unfold_lines(ls: &Vec<Vec<char>>) -> (r: Vec<Vec<char>>)
    ensures
        r.deep_view() == unfold(ls.deep_view()),
{
    let mut out: Vec<Vec<char>> = Vec::new();
    let mut i: usize = 0;
    while i < ls.len()
        invariant
            i <= ls.deep_view().len(),
            out.deep_view() == unfold(ls.deep_view().subrange(0, i as int)),
        decreases ls.deep_view().len() - i,
    {
        let line = &ls[i];
        let ghost pre = ls.deep_view().subrange(0, i as int);
        let ghost now = ls.deep_view().subrange(0, i + 1);
        assert(now.drop_last() =~= pre);
        assert(now.last() == line@);
        let cont = line.len() > 0 && (line[0] == ' ' || line[0] == '\t');
        if cont && out.len() > 0 {
            let n = out.len();
            let ghost o = out.deep_view();
            let last = out.pop().unwrap();
            assert(out.deep_view() =~= o.drop_last());
            assert(last@ == o.last());
            let t = text::trimmed(line);
            let sp: Vec<char> = vec![' '];
            assert(sp@ =~= seq![' ']);
            let mut joined = text::concat(&last, &sp);
            joined = text::concat(&joined, &t);
            let ghost jv = joined@;
            out.push(joined);
            proof {
                assert(out.deep_view()[n - 1] == jv);
                assert(out.deep_view() =~= o.drop_last().push(jv));
                assert(out.deep_view() =~= o.update(n - 1, o.last() + seq![' '] + text::trim(line@)));
            }
        } else {
            out.push(text::slice_of(line, 0, line.len()));
            proof {
                assert(line@.subrange(0, line@.len() as int) =~= line@);
                assert(out.deep_view() =~= unfold(pre).push(line@));
            }
        }
        i = i + 1;
    }
    assert(ls.deep_view().subrange(0, i as int) =~= ls.deep_view());
    out
}

fn strip_type_prefix(value: &[char]) -> (r: Vec<char>)
    ensures
        r@ == strip_type(value@),
{
    match text::split_once_char(value, ';') {
        Some((_, rest)) => text::trimmed(&rest),
        None => text::trimmed(value),
    }
}

pub open spec fn opt_report(o: Option<Report>) -> Option<ReportModel> {
    match o {
        Some(r) => Some(r@),
        None => None,
    }
}

/// The reader's state while scanning lines.
struct ScanState {
    reports: Vec<Report>,
    queue_id: Option<Vec<char>>,
    current: Option<Report>,
}

impl View for ScanState {
    type V = Scan;

    closed spec fn view(&self) -> Scan {
        Scan {
            reports: self.reports@.map_values(|r: Report| r@),
            queue_id: self.queue_id.deep_view(),
            current: opt_report(self.current),
        }
    }
}

fn opt_string(v: &Option<Vec<char>>) -> (r: Option<String>)
    ensures
        r.deep_view() == v.deep_view(),
{
    match v {
        Some(c) => Some(text::string_of(c)),
        None => None,
    }
}

fn take_current(st: &mut ScanState) -> (r: Option<Report>)
    ensures
        opt_report(r) == old(st)@.current,
        final(st)@.current is None,
        final(st)@.reports == old(st)@.reports,
        final(st)@.queue_id == old(st)@.queue_id,
{
    let r = st.current.take();
    proof {
        assert(st.reports@.map_values(|r: Report| r@) == old(st).reports@.map_values(
            |r: Report| r@,
        ));
    }
    r
}

fn scan_line(st: &mut ScanState, line: &[char])
    ensures
        final(st)@ == step(old(st)@, line@),
{
    let parts = match text::split_once_char(line, ':') {
        Some(p) => p,
        None => {
            return;
        },
    };
    let name_t = text::trimmed(&parts.0);
    let name = text::lower_of(&name_t);
    let value = text::trimmed(&parts.1);
    assert(field(line@) == Some((name@, value@)));
    if value.len() == 0 {
        return;
    }
    if text::is_literal(&name, "x-postfix-queue-id") {
        st.queue_id = Some(value);
        proof {
            assert(st.reports@.map_values(|r: Report| r@) == old(st).reports@.map_values(
                |r: Report| r@,
            ));
            assert(st@.queue_id == Some(value@));
            assert(st@.reports == old(st)@.reports);
            assert(st@.current == old(st)@.current);
        }
        return;
    }
    if text::is_literal(&name, "final-recipient") {
        let ghost before = st@;
        let cur = take_current(st);
        let ghost mid = st@;
        match cur {
            Some(r) => {
                st.reports.push(r);
                proof {
                    assert(st@.reports =~= before.reports.push(r@));
                }
            },
            None => {},
        }
        let fresh = Report {
            relay_queue_id: opt_string(&st.queue_id),
            final_recipient: Some(text::string_of(&strip_type_prefix(&value))),
            status: None,
            diagnostic: None,
            classification: Classification::Unknown,
        };
        st.current = Some(fresh);
        proof {
            assert(st@.reports == closed(before));
            assert(st@.current == Some(fresh_report(before.queue_id, value@)));
        }
        return;
    }
    if text::is_literal(&name, "status") {
        let ghost before = st@;
        match take_current(st) {
            Some(mut r) => {
                r.classification = classification::classify_status(&value);
                r.status = Some(text::string_of(&value));
                st.current = Some(r);
                proof {
                    assert(st@.reports == before.reports);
                }
            },
            None => {},
        }
        return;
    }
    if text::is_literal(&name, "diagnostic-code") {
        let ghost before = st@;
        match take_current(st) {
            Some(mut r) => {
                r.diagnostic = Some(text::string_of(&strip_type_prefix(&value)));
                st.current = Some(r);
                proof {
                    assert(st@.reports == before.reports);
                }
            },
            None => {},
        }
    }
}

/// Parse a raw DSN. Returns one [`Report`] per recipient block found.
///
/// An empty result means "this could not be read", which the caller stores
/// as an unparsed bounce rather than treating as "nothing was wrong".
pub fn parse(raw: &str) -> (reports: Vec<Report>)
    ensures
        reports@.map_values(|r: Report| r@) == parse_spec(raw@),
{
    let chars = text::chars_of(raw);
    let ls = text::lines_of(&chars);
    let unfolded = unfold_lines(&ls);
    let mut st = ScanState { reports: Vec::new(), queue_id: None, current: None };
    assert(st@.reports =~= initial_scan().reports);
    let mut i: usize = 0;
    while i < unfolded.len()
        invariant
            i <= unfolded.deep_view().len(),
            st@ == scan(unfolded.deep_view().subrange(0, i as int)),
        decreases unfolded.deep_view().len() - i,
    {
        let ghost pre = unfolded.deep_view().subrange(0, i as int);
        let ghost now = unfolded.deep_view().subrange(0, i + 1);
        assert(now.drop_last() =~= pre);
        assert(now.last() == unfolded[i as int]@);
        assert(scan(now) == step(scan(pre), unfolded[i as int]@));
        scan_line(&mut st, &unfolded[i]);
        i = i + 1;
    }
    assert(unfolded.deep_view().subrange(0, i as int) =~= unfolded.deep_view());
    let ghost fin = st@;
    let cur = take_current(&mut st);
    match cur {
        Some(r) => {
            st.reports.push(r);
        },
        None => {},
    }
    let ghost all = st.reports@.map_values(|r: Report| r@);
    assert(all =~= closed(fin));
    let mut out: Vec<Report> = Vec::new();
    let mut k: usize = 0;
    while k < st.reports.len()
        invariant
            k <= st.reports@.len(),
            all == st.reports@.map_values(|r: Report| r@),
            out@.map_values(|r: Report| r@) == all.subrange(0, k as int).map_values(
                |r: ReportModel| backfill(r, fin.queue_id),
            ),
            st@.queue_id == fin.queue_id,
        decreases st.reports@.len() - k,
    {
        let r = &st.reports[k];
        let rq = if r.relay_queue_id.is_none() {
            opt_string(&st.queue_id)
        } else {
            text::clone_opt(&r.relay_queue_id)
        };
        let filled = Report {
            relay_queue_id: rq,
            final_recipient: text::clone_opt(&r.final_recipient),
            status: text::clone_opt(&r.status),
            diagnostic: text::clone_opt(&r.diagnostic),
            classification: r.classification,
        };
        proof {
            assert(all[k as int] == r@);
            assert(filled@ == backfill(r@, fin.queue_id));
        }
        let ghost before = out@.map_values(|r: Report| r@);
        out.push(filled);
        k = k + 1;
        proof {
            assert(out@.map_values(|r: Report| r@) =~= before.push(filled@));
            assert(all.subrange(0, k as int).map_values(|r: ReportModel| backfill(r, fin.queue_id))
                =~= all.subrange(0, k - 1).map_values(|r: ReportModel| backfill(r, fin.queue_id)).push(
                backfill(all[k - 1], fin.queue_id),
            ));
        }
    }
    assert(all.subrange(0, k as int) =~= all);
    out
}

// ------------------------------------------------------------------ laws

/// A report reads consistently: its classification is the one its status
/// code names, and unknown when it carried none.
pub open spec fn consistent(r: ReportModel) -> bool {
    match r.status {
        Some(s) => r.classification == classification::status_class(s),
        None => r.classification == Classification::Unknown,
    }
}

pub open spec fn scan_consistent(st: Scan) -> bool {
    &&& forall|i: int| 0 <= i < st.reports.len() ==> #[trigger] consistent(st.reports[i])
    &&& (st.current matches Some(c) ==> consistent(c))
}

proof fn lemma_scan_consistent(ls: Seq<Seq<char>>)
    ensures
        scan_consistent(scan(ls)),
    decreases ls.len(),
{
    if ls.len() > 0 {
        lemma_scan_consistent(ls.drop_last());
        let st = scan(ls.drop_last());
        let st2 = step(st, ls.last());
        assert forall|i: int| 0 <= i < st2.reports.len() implies #[trigger] consistent(
            st2.reports[i],
        ) by {
            if i < st.reports.len() {
                assert(st2.reports[i] == st.reports[i]);
            }
        }
    }
}

/// Every report `parse` returns is classified by its own status code, and
/// is unknown when it has none: the `Action:` line never decides.
pub proof fn parsed_classification_follows_status(raw: Seq<char>)
    ensures
        forall|i: int| 0 <= i < parse_spec(raw).len() ==> #[trigger] consistent(parse_spec(raw)[i]),
{
    let st = scan(unfold(text::lines(raw)));
    lemma_scan_consistent(unfold(text::lines(raw)));
    let c = closed(st);
    assert forall|i: int| 0 <= i < parse_spec(raw).len() implies #[trigger] consistent(
        parse_spec(raw)[i],
    ) by {
        assert(parse_spec(raw)[i] == backfill(c[i], st.queue_id));
        if i < st.reports.len() {
            assert(c[i] == st.reports[i]);
            assert(consistent(st.reports[i]));
        } else {
            assert(c[i] == st.current->0);
        }
    }
}

/// A line that names a recipient: a `Final-Recipient` field (any case)
/// with a value.
pub open spec fn names_recipient(line: Seq<char>) -> bool {
    field(line) matches Some(f) && f.0 == "final-recipient"@ && f.1.len() > 0
}

/// The values of the recipient lines, in order.
pub open spec fn recipient_values(ls: Seq<Seq<char>>) -> Seq<Seq<char>>
    decreases ls.len(),
{
    if ls.len() == 0 {
        Seq::empty()
    } else if names_recipient(ls.last()) {
        recipient_values(ls.drop_last()).push((field(ls.last())->0).1)
    } else {
        recipient_values(ls.drop_last())
    }
}

proof fn lemma_scan_recipients(ls: Seq<Seq<char>>)
    ensures
        closed(scan(ls)).len() == recipient_values(ls).len(),
        forall|k: int|
            0 <= k < recipient_values(ls).len() ==> (#[trigger] closed(scan(ls))[k]).final_recipient
                == Some(strip_type(recipient_values(ls)[k])),
    decreases ls.len(),
{
    reveal_strlit("x-postfix-queue-id");
    reveal_strlit("final-recipient");
    reveal_strlit("status");
    reveal_strlit("diagnostic-code");
    if ls.len() > 0 {
        let p = ls.drop_last();
        lemma_scan_recipients(p);
        let st = scan(p);
        let l = ls.last();
        let st2 = scan(ls);
        assert(st2 == step(st, l));
        let c1 = closed(st);
        let c2 = closed(st2);
        let r1 = recipient_values(p);
        let r2 = recipient_values(ls);
        if names_recipient(l) {
            let v = (field(l)->0).1;
            let name = (field(l)->0).0;
            assert("final-recipient"@.len() == 15);
            assert("x-postfix-queue-id"@.len() == 18);
            assert(name != "x-postfix-queue-id"@);
            assert(st2.reports == c1);
            assert(st2.current == Some(fresh_report(st.queue_id, v)));
            assert(c2 == c1.push(fresh_report(st.queue_id, v)));
            assert(r2 == r1.push(v));
            assert forall|k: int| 0 <= k < r2.len() implies (#[trigger] c2[k]).final_recipient
                == Some(strip_type(r2[k])) by {
                if k < r1.len() {
                    assert(c2[k] == c1[k]);
                    assert(r2[k] == r1[k]);
                }
            }
        } else {
            assert(r2 == r1);
            assert(c2.len() == c1.len());
            assert forall|k: int| 0 <= k < r2.len() implies (#[trigger] c2[k]).final_recipient
                == Some(strip_type(r2[k])) by {
                assert(c1[k].final_recipient == Some(strip_type(r1[k])));
                if k < st.reports.len() {
                    assert(c2[k] == c1[k]);
                } else {
                    assert(c1[k] == st.current->0);
                    assert(c2[k] == st2.current->0);
                }
            }
        }
    }
}

/// Every report names the recipient of its own block: there is one report
/// per `Final-Recipient` line of the unfolded DSN, in order, and the k-th
/// report's recipient is the k-th such line's value without its type
/// prefix. No report takes another block's recipient.
pub proof fn each_report_names_its_own_recipient(raw: Seq<char>)
    ensures
        parse_spec(raw).len() == recipient_values(unfold(text::lines(raw))).len(),
        forall|k: int|
            0 <= k < parse_spec(raw).len() ==> (#[trigger] parse_spec(raw)[k]).final_recipient
                == Some(strip_type(recipient_values(unfold(text::lines(raw)))[k])),
{
    let ls = unfold(text::lines(raw));
    lemma_scan_recipients(ls);
    let st = scan(ls);
    assert forall|k: int| 0 <= k < parse_spec(raw).len() implies (#[trigger] parse_spec(
        raw,
    )[k]).final_recipient == Some(strip_type(recipient_values(ls)[k])) by {
        assert(parse_spec(raw)[k] == backfill(closed(st)[k], st.queue_id));
        assert(closed(st)[k].final_recipient == Some(strip_type(recipient_values(ls)[k])));
    }
}

/// The value of the last `name` field (lowercased name, nonempty value)
/// since the last recipient line; `None` when there is none.
pub open spec fn since_recipient(ls: Seq<Seq<char>>, name: Seq<char>) -> Option<Seq<char>>
    decreases ls.len(),
{
    if ls.len() == 0 {
        None
    } else if names_recipient(ls.last()) {
        None
    } else {
        match field(ls.last()) {
            Some(f) => if f.0 == name && f.1.len() > 0 {
                Some(f.1)
            } else {
                since_recipient(ls.drop_last(), name)
            },
            None => since_recipient(ls.drop_last(), name),
        }
    }
}

/// A diagnostic as a report carries it: without its type prefix.
pub open spec fn stripped(v: Option<Seq<char>>) -> Option<Seq<char>> {
    match v {
        Some(d) => Some(strip_type(d)),
        None => None,
    }
}

proof fn lemma_names_differ()
    ensures
        "final-recipient"@ != "x-postfix-queue-id"@,
        "final-recipient"@ != "status"@,
        "final-recipient"@ != "diagnostic-code"@,
        "status"@ != "x-postfix-queue-id"@,
        "status"@ != "diagnostic-code"@,
        "diagnostic-code"@ != "x-postfix-queue-id"@,
{
    reveal_strlit("x-postfix-queue-id");
    reveal_strlit("final-recipient");
    reveal_strlit("status");
    reveal_strlit("diagnostic-code");
    assert("final-recipient"@[0] != "diagnostic-code"@[0]);
    assert("status"@.len() != "x-postfix-queue-id"@.len());
    assert("status"@.len() != "diagnostic-code"@.len());
    assert("final-recipient"@.len() != "x-postfix-queue-id"@.len());
    assert("diagnostic-code"@.len() != "x-postfix-queue-id"@.len());
    assert("final-recipient"@.len() != "status"@.len());
}

proof fn lemma_scan_current(ls: Seq<Seq<char>>)
    ensures
        scan(ls).current is Some <==> recipient_values(ls).len() > 0,
        scan(ls).current matches Some(c) ==> c.status == since_recipient(ls, "status"@)
            && c.diagnostic == stripped(since_recipient(ls, "diagnostic-code"@)),
    decreases ls.len(),
{
    lemma_names_differ();
    if ls.len() > 0 {
        let p = ls.drop_last();
        lemma_scan_current(p);
        let st = scan(p);
        let l = ls.last();
        assert(scan(ls) == step(st, l));
    }
}

proof fn lemma_step_reports(st: Scan, l: Seq<char>)
    ensures
        step(st, l).reports == st.reports || step(st, l).reports == closed(st),
{
}

proof fn lemma_reports_grow(ls: Seq<Seq<char>>, m: int)
    requires
        0 <= m <= ls.len(),
    ensures
        scan(ls.take(m)).reports.len() <= scan(ls).reports.len(),
        forall|j: int|
            0 <= j < scan(ls.take(m)).reports.len() ==> scan(ls).reports[j] == #[trigger] scan(
                ls.take(m),
            ).reports[j],
    decreases ls.len(),
{
    if m == ls.len() {
        assert(ls.take(m) =~= ls);
    } else {
        let p = ls.drop_last();
        lemma_reports_grow(p, m);
        assert(p.take(m) =~= ls.take(m));
        lemma_step_reports(scan(p), ls.last());
        assert(scan(ls) == step(scan(p), ls.last()));
    }
}

/// Every report carries its own block's fields: the report of the k-th
/// recipient has the last `Status` and `Diagnostic-Code` values written
/// after that recipient line and before the next one (or the end), and
/// none when its block has none. Nothing leaks in from another block.
pub proof fn each_report_keeps_its_own_status(raw: Seq<char>, n: int)
    requires
        0 < n <= unfold(text::lines(raw)).len(),
        n == unfold(text::lines(raw)).len() || names_recipient(unfold(text::lines(raw))[n]),
        recipient_values(unfold(text::lines(raw)).take(n)).len() > 0,
    ensures
        ({
            let ls = unfold(text::lines(raw));
            let k = recipient_values(ls.take(n)).len() - 1;
            &&& k < parse_spec(raw).len()
            &&& parse_spec(raw)[k].status == since_recipient(ls.take(n), "status"@)
            &&& parse_spec(raw)[k].diagnostic == stripped(
                since_recipient(ls.take(n), "diagnostic-code"@),
            )
        }),
{
    let ls = unfold(text::lines(raw));
    let pre = ls.take(n);
    let k = recipient_values(pre).len() - 1;
    lemma_scan_recipients(pre);
    lemma_scan_current(pre);
    lemma_scan_recipients(ls);
    let sp = scan(pre);
    let c = sp.current->0;
    assert(closed(sp).len() == k + 1);
    assert(sp.reports.len() == k);
    assert(closed(sp)[k] == c);
    let st = scan(ls);
    if n == ls.len() {
        assert(pre =~= ls);
    } else {
        let pre1 = ls.take(n + 1);
        assert(pre1.drop_last() =~= pre);
        assert(pre1.last() == ls[n]);
        assert(scan(pre1) == step(sp, ls[n]));
        lemma_names_differ();
        assert(scan(pre1).reports == closed(sp));
        lemma_reports_grow(ls, n + 1);
        assert(scan(pre1).reports[k] == c);
        assert(st.reports[k] == c);
        assert(closed(st)[k] == c);
    }
    assert(closed(st)[k] == c);
    assert(parse_spec(raw)[k] == backfill(closed(st)[k], st.queue_id));
}

/// Only a permanent failure ever suppresses an address.
pub proof fn only_permanent_suppresses(r: ReportModel)
    requires
        suppresses(r),
    ensures
        r.classification == Classification::Permanent,
{
}

/// A parsed report whose status is transient never suppresses, whatever
/// its diagnostic says.
pub proof fn transient_status_never_suppresses(raw: Seq<char>, i: int)
    requires
        0 <= i < parse_spec(raw).len(),
        parse_spec(raw)[i].status matches Some(s) && classification::status_class(s)
            == Classification::Transient,
    ensures
        !suppresses(parse_spec(raw)[i]),
{
    parsed_classification_follows_status(raw);
    assert(consistent(parse_spec(raw)[i]));
}

/// When the DSN names the original message's queue id anywhere, every
/// report carries a queue id.
pub proof fn every_report_carries_the_queue_id(raw: Seq<char>)
    requires
        scan(unfold(text::lines(raw))).queue_id is Some,
    ensures
        forall|i: int|
            0 <= i < parse_spec(raw).len() ==> (#[trigger] parse_spec(raw)[i]).relay_queue_id is Some,
{
}

} // verus!
