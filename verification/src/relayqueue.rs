//! Reading Postfix's queue, so a message that never left it stops looking
//! like a delivered one.
//!
//! postbud hands a message to the smarthost, records the queue id, and by
//! design learns nothing more: Postfix owns delivery. What this closes is
//! the reporting gap that boundary leaves: a destination blocked for hours
//! produces no bounce (a 4xx never does), so a message can sit in the
//! relay's deferred queue while everything else shows a clean handoff.

use vstd::prelude::*;
use crate::text;

verus! {

/// Seconds of slack between `postqueue` running on the relay and its
/// report landing: a message handed over inside that window may be
/// missing from the snapshot and must not be read as delivered.
pub const GRACE_SECS: i64 = 15;

/// One message still sitting in the relay's queue.
#[derive(Debug, Clone, PartialEq, Eq)]
pub struct Queued {
    /// Postfix's queue id: the same value stored on the message when the
    /// relay accepted it, and the only thing that joins the two.
    pub queue_id: String,
    /// `deferred`, `active`, `hold`, `incoming`, `maildrop`.
    pub queue_name: String,
    /// Why it is still here, in the receiver's own words. None while a
    /// message is merely active and has not failed yet.
    pub reason: Option<String>,
}

/// A queue entry as text.
pub struct QueuedView {
    pub queue_id: Seq<char>,
    pub queue_name: Seq<char>,
    pub reason: Option<Seq<char>>,
}

impl View for Queued {
    type V = QueuedView;

    open spec fn view(&self) -> QueuedView {
        QueuedView {
            queue_id: self.queue_id@,
            queue_name: self.queue_name@,
            reason: self.reason.deep_view(),
        }
    }
}

/// A list of entries as text.
pub open spec fn entries(v: Seq<Queued>) -> Seq<QueuedView> {
    v.map_values(|q: Queued| q@)
}

/// `Some` only for a non-empty text: an empty reason is no reason.
pub open spec fn nonempty(r: Option<Seq<char>>) -> Option<Seq<char>> {
    match r {
        Some(s) => if s.len() > 0 {
            Some(s)
        } else {
            None
        },
        None => None,
    }
}

/// Drop an empty reason.
pub fn keep_nonempty(r: Option<String>) -> (out: Option<String>)
    ensures
        out.deep_view() == nonempty(r.deep_view()),
{
    match r {
        Some(s) => if s.as_str().is_empty() {
            None
        } else {
            Some(s)
        },
        None => None,
    }
}

// ------------------------------------------------- `postqueue -j` lines

/// One line of `postqueue -j` output, as decoded from its JSON object.
#[derive(Debug, Clone)]
pub struct RawEntry {
    pub queue_id: String,
    pub queue_name: String,
    /// Absent in the object means none.
    pub recipients: Vec<RawRecipient>,
}

/// One recipient of a queued message.
#[derive(Debug, Clone)]
pub struct RawRecipient {
    pub delay_reason: Option<String>,
}

/// The first delay reason any recipient carries.
pub open spec fn first_reason(rs: Seq<RawRecipient>) -> Option<Seq<char>>
    decreases rs.len(),
{
    if rs.len() == 0 {
        None
    } else {
        match rs[0].delay_reason {
            Some(r) => Some(r@),
            None => first_reason(rs.drop_first()),
        }
    }
}

/// What one decoded line says: the queue id and name as given, and the
/// first recipient's delay reason, trimmed, when that is not blank.
pub open spec fn queued_spec(e: RawEntry) -> QueuedView {
    QueuedView {
        queue_id: e.queue_id@,
        queue_name: e.queue_name@,
        reason: match first_reason(e.recipients@) {
            Some(r) => nonempty(Some(text::trim(r))),
            None => None,
        },
    }
}

/// The lines worth decoding: every line (as `str::lines` splits them) that
/// is not blank.
pub open spec fn report_lines_spec(raw: Seq<char>) -> Seq<Seq<char>> {
    text::lines(raw).filter(|l: Seq<char>| text::trim(l).len() > 0)
}

/// The queue entries among the decoded lines; a line that did not decode
/// is skipped.
pub open spec fn assemble_spec(decoded: Seq<Option<RawEntry>>) -> Seq<QueuedView>
    decreases decoded.len(),
{
    if decoded.len() == 0 {
        Seq::empty()
    } else {
        let rest = assemble_spec(decoded.drop_last());
        match decoded.last() {
            Some(e) => rest.push(queued_spec(e)),
            None => rest,
        }
    }
}

/// The non-blank lines of a `postqueue -j` report, each to be decoded as
/// one JSON object.
pub fn report_lines(raw: &str) -> (r: Vec<String>)
    ensures
        r@.map_values(|s: String| s@) == report_lines_spec(raw@),
{
    let chars = text::chars_of(raw);
    let all = text::lines_of(&chars);
    let ghost lv = text::lines(raw@);
    assert(all.deep_view() == lv);
    let mut out: Vec<String> = Vec::new();
    let mut i: usize = 0;
    while i < all.len()
        invariant
            i <= all@.len(),
            all.deep_view() == lv,
            lv == text::lines(raw@),
            out@.map_values(|s: String| s@) == lv.take(i as int).filter(
                |l: Seq<char>| text::trim(l).len() > 0,
            ),
        decreases all@.len() - i,
    {
        proof {
            reveal(Seq::filter);
        }
        assert(lv.take(i + 1).drop_last() =~= lv.take(i as int));
        assert(all.deep_view()[i as int] == all@[i as int]@);
        assert(lv.take(i + 1).last() == all@[i as int]@);
        let t = text::trimmed(&all[i]);
        if t.len() > 0 {
            let ghost before = out@.map_values(|s: String| s@);
            out.push(text::string_of(&all[i]));
            assert(out@.map_values(|s: String| s@) =~= before.push(all@[i as int]@));
        }
        i = i + 1;
    }
    assert(lv.take(all@.len() as int) =~= lv);
    out
}

fn first_reason_of(rs: &Vec<RawRecipient>) -> (r: Option<String>)
    ensures
        r.deep_view() == first_reason(rs@),
{
    let mut i: usize = 0;
    assert(rs@.skip(0) =~= rs@);
    while i < rs.len()
        invariant
            i <= rs@.len(),
            first_reason(rs@) == first_reason(rs@.skip(i as int)),
        decreases rs@.len() - i,
    {
        assert(rs@.skip(i as int)[0] == rs@[i as int]);
        assert(rs@.skip(i as int).drop_first() =~= rs@.skip(i + 1));
        match &rs[i].delay_reason {
            Some(r) => {
                return Some(r.clone());
            },
            None => {},
        }
        i = i + 1;
    }
    assert(rs@.skip(rs@.len() as int) =~= Seq::<RawRecipient>::empty());
    None
}

/// The queue entry a decoded line describes.
pub fn queued_from(e: &RawEntry) -> (r: Queued)
    ensures
        r@ == queued_spec(*e),
{
    let reason = match first_reason_of(&e.recipients) {
        Some(r) => {
            let c = text::chars_of(r.as_str());
            let t = text::trimmed(&c);
            keep_nonempty(Some(text::string_of(&t)))
        },
        None => None,
    };
    Queued { queue_id: e.queue_id.clone(), queue_name: e.queue_name.clone(), reason }
}

/// The queue entries of a report whose lines were decoded one by one;
/// lines that did not decode are skipped rather than failing the batch.
pub fn assemble(decoded: &[Option<RawEntry>]) -> (r: Vec<Queued>)
    ensures
        entries(r@) == assemble_spec(decoded@),
{
    let mut out: Vec<Queued> = Vec::new();
    let mut i: usize = 0;
    assert(entries(out@) =~= Seq::<QueuedView>::empty());
    while i < decoded.len()
        invariant
            i <= decoded@.len(),
            entries(out@) == assemble_spec(decoded@.take(i as int)),
        decreases decoded@.len() - i,
    {
        assert(decoded@.take(i + 1).drop_last() =~= decoded@.take(i as int));
        assert(decoded@.take(i + 1).last() == decoded@[i as int]);
        match &decoded[i] {
            Some(e) => {
                let ghost before = entries(out@);
                out.push(queued_from(e));
                assert(entries(out@) =~= before.push(queued_spec(*e)));
            },
            None => {},
        }
        i = i + 1;
    }
    assert(decoded@.take(decoded@.len() as int) =~= decoded@);
    out
}

// ------------------------------------------------------------------ laws

/// One bad line never costs the rest of the snapshot: a line that did not
/// decode, wherever it stands, changes nothing.
pub proof fn a_malformed_line_costs_nothing(a: Seq<Option<RawEntry>>, b: Seq<Option<RawEntry>>)
    ensures
        assemble_spec(a + seq![None] + b) == assemble_spec(a + b),
    decreases b.len(),
{
    if b.len() == 0 {
        assert(a + seq![None] + b =~= a.push(None));
        assert(a.push(None).drop_last() =~= a);
        assert(a + b =~= a);
    } else {
        a_malformed_line_costs_nothing(a, b.drop_last());
        assert((a + seq![None] + b).drop_last() =~= a + seq![None] + b.drop_last());
        assert((a + b).drop_last() =~= a + b.drop_last());
        assert((a + seq![None] + b).last() == b.last());
        assert((a + b).last() == b.last());
    }
}

/// A message no recipient of which has a delay reason is shown with none:
/// being attempted is not a failure.
pub proof fn no_delay_reason_means_no_reason(e: RawEntry)
    requires
        forall|i: int| 0 <= i < e.recipients@.len() ==> (#[trigger] e.recipients@[i]).delay_reason is None,
    ensures
        queued_spec(e).reason is None,
{
    lemma_first_reason_none(e.recipients@);
}

proof fn lemma_first_reason_none(rs: Seq<RawRecipient>)
    requires
        forall|i: int| 0 <= i < rs.len() ==> (#[trigger] rs[i]).delay_reason is None,
    ensures
        first_reason(rs) is None,
    decreases rs.len(),
{
    if rs.len() > 0 {
        assert(rs[0].delay_reason is None);
        assert forall|i: int| 0 <= i < rs.drop_first().len() implies (#[trigger] rs.drop_first()[i]).delay_reason is None by {
            assert(rs.drop_first()[i] == rs[i + 1]);
        }
        lemma_first_reason_none(rs.drop_first());
    }
}

} // verus!
