//! Noticing that a tenant's sending changed shape.
//!
//! Transactional senders are bursty by nature: an invoicing system is
//! quiet for a month and then sends a month's invoices in an hour. So the
//! same discipline as [`crate::silence`]: an absolute floor before a ratio
//! is allowed to mean anything, and "not enough evidence" as a real
//! answer. The floor is decided here; the ratio against a typical day,
//! which is a fractional median, is taken by the caller.

use vstd::prelude::*;
use crate::text;

verus! {

/// Messages in a day below which no multiple is interesting. This one gate
/// also disposes of a brand new tenant and a baseline of zero.
pub const MIN_DAILY: i64 = 50;

/// Days of history before a typical day means anything.
pub const MIN_HISTORY_DAYS: i64 = 7;

#[derive(Debug, Clone, PartialEq, Eq)]
pub enum Volume {
    Normal { detail: String },
    Inconclusive { detail: String },
    Unusual { detail: String },
}

/// A verdict as its kind and its text.
pub enum VolumeView {
    Normal(Seq<char>),
    Inconclusive(Seq<char>),
    Unusual(Seq<char>),
}

impl View for Volume {
    type V = VolumeView;

    open spec fn view(&self) -> VolumeView {
        match self {
            Volume::Normal { detail } => VolumeView::Normal(detail@),
            Volume::Inconclusive { detail } => VolumeView::Inconclusive(detail@),
            Volume::Unusual { detail } => VolumeView::Unusual(detail@),
        }
    }
}

impl Volume {
    pub fn is_unusual(&self) -> (r: bool)
        ensures
            r == (self@ is Unusual),
    {
        match self {
            Volume::Unusual { .. } => true,
            _ => false,
        }
    }
}

/// The verdict the evidence floor gives on its own, or `None` when there
/// is enough evidence to compare against the typical day.
pub open spec fn floor_spec(recent_24h: int, history_days: int) -> Option<VolumeView> {
    if recent_24h < MIN_DAILY {
        Some(
            VolumeView::Inconclusive(
                text::decimal(recent_24h) + " in the last day; under "@ + text::decimal(
                    MIN_DAILY as int,
                ) + " no multiple of a typical day is worth reporting"@,
            ),
        )
    } else if history_days < MIN_HISTORY_DAYS {
        Some(
            VolumeView::Inconclusive(
                text::decimal(recent_24h) + " in the last day, but only "@ + text::decimal(
                    history_days,
                ) + " day(s) of history \u{2014} there is no typical day to compare against yet"@,
            ),
        )
    } else {
        None
    }
}

/// The floor, taken first and on its own: below it, or without a week of
/// history, nothing else is worth computing.
pub fn evidence_floor(recent_24h: i64, history_days: i64) -> (r: Option<Volume>)
    ensures
        match r {
            Some(v) => floor_spec(recent_24h as int, history_days as int) == Some(v@),
            None => floor_spec(recent_24h as int, history_days as int) is None,
        },
{
    if recent_24h < MIN_DAILY {
        let a = text::decimal_of(recent_24h);
        let b = text::chars_of(" in the last day; under ");
        let c = text::decimal_of(MIN_DAILY);
        let d = text::chars_of(" no multiple of a typical day is worth reporting");
        let ab = text::concat(&a, &b);
        let abc = text::concat(&ab, &c);
        let all = text::concat(&abc, &d);
        return Some(Volume::Inconclusive { detail: text::string_of(&all) });
    }
    if history_days < MIN_HISTORY_DAYS {
        let a = text::decimal_of(recent_24h);
        let b = text::chars_of(" in the last day, but only ");
        let c = text::decimal_of(history_days);
        let d = text::chars_of(
            " day(s) of history \u{2014} there is no typical day to compare against yet",
        );
        let ab = text::concat(&a, &b);
        let abc = text::concat(&ab, &c);
        let all = text::concat(&abc, &d);
        return Some(Volume::Inconclusive { detail: text::string_of(&all) });
    }
    None
}

/// Small traffic is never an incident, and neither is a tenant too new to
/// have a typical day: below either floor the answer is inconclusive.
pub proof fn below_the_floor_is_never_unusual(recent_24h: int, history_days: int)
    ensures
        (recent_24h < MIN_DAILY || history_days < MIN_HISTORY_DAYS) ==> (floor_spec(
            recent_24h,
            history_days,
        ) matches Some(v) && v is Inconclusive),
        (recent_24h >= MIN_DAILY && history_days >= MIN_HISTORY_DAYS) ==> floor_spec(
            recent_24h,
            history_days,
        ) is None,
{
}

} // verus!
