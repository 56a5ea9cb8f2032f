//! Telling "nothing happened" apart from "nothing works".
//!
//! These checks ask whether something that should have happened is
//! missing. An empty table is what a healthy quiet week looks like, and
//! also what a broken pipe looks like; so "we cannot tell" is a first
//! class answer here, kept distinct from "healthy".

use vstd::prelude::*;
use crate::text;

verus! {

/// How many sends must have happened before zero bounces means anything.
/// Even a half-percent bounce rate makes zero bounces in 500 messages a
/// one-in-twelve coincidence; in 65 it is entirely ordinary.
pub const BOUNCE_EVIDENCE_SENDS: i64 = 500;

/// Aggregate reports arrive daily, per receiver, whatever the volume. One
/// missed day is a slow receiver; three is the mailbox, the credentials or
/// the poller.
pub const DMARC_STALE_DAYS: i64 = 3;

/// What the evidence supports.
#[derive(Debug, Clone, PartialEq, Eq)]
pub enum Signal {
    /// Evidence arrived: the path works.
    Healthy { detail: String },
    /// Not enough has happened to distinguish working from broken. Not a
    /// problem, and deliberately not folded into `Healthy`.
    Inconclusive { detail: String },
    /// Silence where there should have been noise.
    Silent { detail: String },
}

/// A signal as its verdict and its text.
pub enum SignalView {
    Healthy(Seq<char>),
    Inconclusive(Seq<char>),
    Silent(Seq<char>),
}

impl View for Signal {
    type V = SignalView;

    open spec fn view(&self) -> SignalView {
        match self {
            Signal::Healthy { detail } => SignalView::Healthy(detail@),
            Signal::Inconclusive { detail } => SignalView::Inconclusive(detail@),
            Signal::Silent { detail } => SignalView::Silent(detail@),
        }
    }
}

impl Signal {
    /// Is this the alarm?
    pub fn is_silent(&self) -> (r: bool)
        ensures
            r == (self@ is Silent),
    {
        match self {
            Signal::Silent { .. } => true,
            _ => false,
        }
    }
}

/// What `bounce_signal` says.
pub open spec fn bounce_spec(sent: int, bounces: int) -> SignalView {
    if bounces > 0 {
        SignalView::Healthy(text::decimal(bounces) + " recorded \u{2014} the DSN path is carrying"@)
    } else if sent < BOUNCE_EVIDENCE_SENDS {
        SignalView::Inconclusive(
            text::decimal(sent) + " sent; below "@ + text::decimal(BOUNCE_EVIDENCE_SENDS as int)
                + " a clean sheet is ordinary, so this cannot yet tell a working path from a broken one"@,
        )
    } else {
        SignalView::Silent(
            text::decimal(sent)
                + " sent and not one bounce recorded. At this volume that is far more likely to be a broken return path than perfect addresses \u{2014} check that the envelope sender resolves to a mailbox routed into the bounce pipe"@,
        )
    }
}

/// What `dmarc_signal` says.
pub open spec fn dmarc_spec(newest_age_days: Option<i64>) -> SignalView {
    match newest_age_days {
        None => SignalView::Inconclusive(
            "no reports have ever arrived; the mailbox poller may not be configured, or no receiver has been asked to report yet"@,
        ),
        Some(age) => if age <= DMARC_STALE_DAYS {
            SignalView::Healthy(
                if age == 0 {
                    "newest report arrived today"@
                } else if age == 1 {
                    "newest report arrived yesterday"@
                } else {
                    "newest report is "@ + text::decimal(age as int) + " days old"@
                },
            )
        } else {
            SignalView::Silent(
                "newest report is "@ + text::decimal(age as int)
                    + " days old. Receivers send daily, so a gap this long is the mailbox, the credentials or the poller rather than the receivers"@,
            )
        },
    }
}

fn cat(a: &[char], b: &str) -> (r: Vec<char>)
    ensures
        r@ == a@ + b@,
{
    let bc = text::chars_of(b);
    text::concat(a, &bc)
}

/// Is the bounce path carrying anything?
///
/// A single bounce proves the whole chain (envelope sender, relay routing,
/// the pipe, ingestion), so any bounce at all is health. Zero means
/// something only once enough has been sent.
pub fn bounce_signal(sent: i64, bounces: i64) -> (r: Signal)
    ensures
        r@ == bounce_spec(sent as int, bounces as int),
{
    if bounces > 0 {
        let d = text::decimal_of(bounces);
        let t = cat(&d, " recorded \u{2014} the DSN path is carrying");
        return Signal::Healthy { detail: text::string_of(&t) };
    }
    if sent < BOUNCE_EVIDENCE_SENDS {
        let a = text::decimal_of(sent);
        let b = cat(&a, " sent; below ");
        let n = text::decimal_of(BOUNCE_EVIDENCE_SENDS);
        let c = text::concat(&b, &n);
        let t = cat(
            &c,
            " a clean sheet is ordinary, so this cannot yet tell a working path from a broken one",
        );
        return Signal::Inconclusive { detail: text::string_of(&t) };
    }
    let a = text::decimal_of(sent);
    let t = cat(
        &a,
        " sent and not one bounce recorded. At this volume that is far more likely to be a broken return path than perfect addresses \u{2014} check that the envelope sender resolves to a mailbox routed into the bounce pipe",
    );
    Signal::Silent { detail: text::string_of(&t) }
}

/// Are aggregate reports still arriving?
///
/// `newest_age_days` is the age of the most recent report held, which is
/// the only thing that tells "the poller stopped" from "nobody has written
/// to us yet".
pub fn dmarc_signal(newest_age_days: Option<i64>) -> (r: Signal)
    ensures
        r@ == dmarc_spec(newest_age_days),
{
    let age = match newest_age_days {
        None => {
            let t = text::chars_of(
                "no reports have ever arrived; the mailbox poller may not be configured, or no receiver has been asked to report yet",
            );
            return Signal::Inconclusive { detail: text::string_of(&t) };
        },
        Some(age) => age,
    };
    if age <= DMARC_STALE_DAYS {
        let t = if age == 0 {
            text::chars_of("newest report arrived today")
        } else if age == 1 {
            text::chars_of("newest report arrived yesterday")
        } else {
            let a = text::chars_of("newest report is ");
            let n = text::decimal_of(age);
            let b = text::concat(&a, &n);
            cat(&b, " days old")
        };
        return Signal::Healthy { detail: text::string_of(&t) };
    }
    let a = text::chars_of("newest report is ");
    let n = text::decimal_of(age);
    let b = text::concat(&a, &n);
    let t = cat(
        &b,
        " days old. Receivers send daily, so a gap this long is the mailbox, the credentials or the poller rather than the receivers",
    );
    Signal::Silent { detail: text::string_of(&t) }
}

// ------------------------------------------------------------------ laws

/// One bounce proves the chain: with any bounce recorded the path is
/// healthy, whatever the volume.
pub proof fn any_bounce_is_health(sent: i64, bounces: i64)
    requires
        bounces > 0,
    ensures
        bounce_spec(sent as int, bounces as int) is Healthy,
{
}

/// The alarm sounds exactly when nothing bounced out of at least
/// `BOUNCE_EVIDENCE_SENDS` sends; below that, zero bounces is
/// inconclusive, never an accusation.
pub proof fn bounce_alarm_needs_evidence(sent: i64, bounces: i64)
    ensures
        (bounce_spec(sent as int, bounces as int) is Silent) <==> (bounces <= 0 && sent
            >= BOUNCE_EVIDENCE_SENDS),
        (bounces <= 0 && sent < BOUNCE_EVIDENCE_SENDS) ==> bounce_spec(
            sent as int,
            bounces as int,
        ) is Inconclusive,
{
}

/// Once the alarm sounds, more sends never quiet it.
pub proof fn more_sends_never_quiet_the_alarm(sent: i64, more: i64, bounces: i64)
    requires
        sent <= more,
        bounce_spec(sent as int, bounces as int) is Silent,
    ensures
        bounce_spec(more as int, bounces as int) is Silent,
{
}

/// Never having had a report is not the alarm; a gap is the alarm exactly
/// when the newest report is older than `DMARC_STALE_DAYS`.
pub proof fn dmarc_alarm_is_a_gap(newest_age_days: Option<i64>)
    ensures
        newest_age_days is None ==> dmarc_spec(newest_age_days) is Inconclusive,
        (dmarc_spec(newest_age_days) is Silent) <==> (newest_age_days matches Some(a) && a
            > DMARC_STALE_DAYS),
        (newest_age_days matches Some(a) && a <= DMARC_STALE_DAYS) ==> dmarc_spec(
            newest_age_days,
        ) is Healthy,
{
}

} // verus!
