//! Postfix's `showq` protocol, read directly.
//!
//! The framing is NUL-separated `name\0value\0` pairs; an EMPTY name ends
//! a record. The stream opens with a `protocol` record naming itself and
//! closes when the far end hangs up:
//!
//! ```text
//! protocol\0mail_queue_list_protocol\0\0
//! queue_name\0deferred\0queue_id\0004E6F5409\0time\0...\0size\0...\0
//! sender\0...\0recipient\0...\0reason\0host mx.example[..] said: 451 ...\0\0
//! ```
//!
//! This is a private Postfix protocol with no stability promise; a change
//! in framing must fail loudly in tests rather than read as an empty
//! queue, since an empty queue is what concludes that every outstanding
//! message was delivered.

use vstd::prelude::*;
use crate::relayqueue::{self, Queued, QueuedView};
use crate::text;

verus! {

/// `<[u8]>::split` on NUL: the runs between NUL bytes, so `n` NULs give
/// `n + 1` fields (an empty input is one empty field).
pub open spec fn fields(b: Seq<u8>) -> Seq<Seq<u8>>
    decreases b.len(),
{
    if b.len() == 0 {
        seq![Seq::empty()]
    } else {
        let f = fields(b.drop_last());
        if b.last() == 0 {
            f.push(Seq::empty())
        } else {
            f.update(f.len() - 1, f.last().push(b.last()))
        }
    }
}

/// What the reader holds between fields: the entries so far and the
/// fields of the record being read.
pub struct Walk {
    pub out: Seq<QueuedView>,
    pub queue_id: Option<Seq<char>>,
    pub queue_name: Option<Seq<char>>,
    pub reason: Option<Seq<char>>,
}

/// A reader with no record open.
pub open spec fn fresh(out: Seq<QueuedView>) -> Walk {
    Walk { out, queue_id: None, queue_name: None, reason: None }
}

/// The end of a record: it becomes an entry when it named both a queue id
/// and a queue; everything read for it is then forgotten.
pub open spec fn close(w: Walk) -> Walk {
    match (w.queue_id, w.queue_name) {
        (Some(id), Some(qn)) => fresh(
            w.out.push(
                QueuedView { queue_id: id, queue_name: qn, reason: relayqueue::nonempty(w.reason) },
            ),
        ),
        _ => fresh(w.out),
    }
}

/// A value as text: decoded leniently and trimmed.
pub open spec fn value_text(b: Seq<u8>) -> Seq<char> {
    text::trim(text::utf8_lossy(b))
}

/// One `name`/`value` pair. Only the first `reason` of a record counts:
/// it is the one shown against the message.
pub open spec fn assign(w: Walk, name: Seq<u8>, value: Seq<u8>) -> Walk {
    let n = text::utf8_lossy(name);
    let v = value_text(value);
    if n == "queue_id"@ {
        Walk { out: w.out, queue_id: Some(v), queue_name: w.queue_name, reason: w.reason }
    } else if n == "queue_name"@ {
        Walk { out: w.out, queue_id: w.queue_id, queue_name: Some(v), reason: w.reason }
    } else if n == "reason"@ && w.reason is None {
        Walk { out: w.out, queue_id: w.queue_id, queue_name: w.queue_name, reason: Some(v) }
    } else {
        w
    }
}

/// The entries read from field `k` on. An empty name closes a record; a
/// name with no value after it ends the stream.
pub open spec fn walk(fs: Seq<Seq<u8>>, k: nat, w: Walk) -> Seq<QueuedView>
    decreases fs.len() - k,
{
    if k >= fs.len() {
        w.out
    } else if fs[k as int].len() == 0 {
        walk(fs, k + 1, close(w))
    } else if k + 1 >= fs.len() {
        w.out
    } else {
        walk(fs, k + 2, assign(w, fs[k as int], fs[k + 1int]))
    }
}

/// What `parse` reads from a showq response.
pub open spec fn parse_spec(bytes: Seq<u8>) -> Seq<QueuedView> {
    walk(fields(bytes), 0, fresh(Seq::empty()))
}

fn split_fields(bytes: &[u8]) -> (r: Vec<Vec<u8>>)
    ensures
        r@.map_values(|v: Vec<u8>| v@) == fields(bytes@),
{
    let mut out: Vec<Vec<u8>> = Vec::new();
    let mut cur: Vec<u8> = Vec::new();
    let mut i: usize = 0;
    while i < bytes.len()
        invariant
            i <= bytes@.len(),
            out@.map_values(|v: Vec<u8>| v@).push(cur@) == fields(bytes@.subrange(0, i as int)),
        decreases bytes@.len() - i,
    {
        let b = bytes[i];
        let ghost prev = out@.map_values(|v: Vec<u8>| v@).push(cur@);
        assert(bytes@.subrange(0, i + 1).drop_last() =~= bytes@.subrange(0, i as int));
        if b == 0 {
            let done = cur;
            out.push(done);
            cur = Vec::new();
            assert(out@.map_values(|v: Vec<u8>| v@).push(cur@) =~= prev.push(Seq::empty()));
        } else {
            cur.push(b);
            assert(out@.map_values(|v: Vec<u8>| v@).push(cur@) =~= prev.update(
                prev.len() - 1,
                prev.last().push(b),
            ));
        }
        i = i + 1;
    }
    assert(bytes@.subrange(0, bytes@.len() as int) =~= bytes@);
    out.push(cur);
    out
}

fn value_string(b: &[u8]) -> (r: String)
    ensures
        r@ == value_text(b@),
{
    let chars = text::lossy_chars(b);
    let t = text::trimmed(&chars);
    text::string_of(&t)
}

/// Parse one complete showq response.
///
/// A record without a `queue_id` is not a queue entry (the opening
/// `protocol` record is one such) and is skipped. Several recipients
/// produce repeated `recipient`/`reason` pairs; the first reason is kept.
pub fn parse(bytes: &[u8]) -> (r: Vec<Queued>)
    ensures
        relayqueue::entries(r@) == parse_spec(bytes@),
{
    let fs = split_fields(bytes);
    let ghost gfs = fields(bytes@);
    let mut out: Vec<Queued> = Vec::new();
    let mut queue_id: Option<String> = None;
    let mut queue_name: Option<String> = None;
    let mut reason: Option<String> = None;
    let mut k: usize = 0;
    assert(relayqueue::entries(out@) =~= Seq::<QueuedView>::empty());
    while k < fs.len()
        invariant
            gfs == fs@.map_values(|v: Vec<u8>| v@),
            gfs == fields(bytes@),
            k <= fs@.len(),
            walk(
                gfs,
                k as nat,
                Walk {
                    out: relayqueue::entries(out@),
                    queue_id: queue_id.deep_view(),
                    queue_name: queue_name.deep_view(),
                    reason: reason.deep_view(),
                },
            ) == parse_spec(bytes@),
        decreases fs@.len() - k,
    {
        let ghost w = Walk {
            out: relayqueue::entries(out@),
            queue_id: queue_id.deep_view(),
            queue_name: queue_name.deep_view(),
            reason: reason.deep_view(),
        };
        assert(gfs[k as int] == fs@[k as int]@);
        if fs[k].len() == 0 {
            let id = queue_id;
            let qn = queue_name;
            let rs = reason;
            match (id, qn) {
                (Some(i), Some(q)) => {
                    let entry = Queued { queue_id: i, queue_name: q, reason: relayqueue::keep_nonempty(rs) };
                    out.push(entry);
                },
                _ => {},
            }
            queue_id = None;
            queue_name = None;
            reason = None;
            assert(relayqueue::entries(out@) =~= close(w).out);
            k = k + 1;
        } else {
            if k + 1 >= fs.len() {
                return out;
            }
            assert(gfs[k + 1] == fs@[k + 1]@);
            let name = text::lossy_chars(&fs[k]);
            let value = value_string(&fs[k + 1]);
            if text::is_literal(&name, "queue_id") {
                queue_id = Some(value);
            } else if text::is_literal(&name, "queue_name") {
                queue_name = Some(value);
            } else if text::is_literal(&name, "reason") && reason.is_none() {
                reason = Some(value);
            }
            k = k + 2;
        }
    }
    out
}

// ------------------------------------------------------------------ laws

/// Every record starts afresh: whatever the record before it said, a
/// record boundary forgets it, so an entry never inherits another's queue,
/// id or reason. A record that named no queue id (the opening `protocol`
/// record is one) adds no entry.
pub proof fn records_never_inherit(w: Walk)
    ensures
        close(w).queue_id is None,
        close(w).queue_name is None,
        close(w).reason is None,
        w.queue_id is None ==> close(w).out == w.out,
        w.queue_name is None ==> close(w).out == w.out,
{
}

/// Only the first reason of a record is kept.
pub proof fn the_first_reason_is_kept(w: Walk, name: Seq<u8>, value: Seq<u8>)
    requires
        w.reason is Some,
    ensures
        assign(w, name, value).reason == w.reason,
{
}

} // verus!
