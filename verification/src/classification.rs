//! What a delivery attempt or a bounce means for the message.
//!
//! The distinction that matters is permanent versus transient: only a
//! permanent failure may add an address to the suppression list.

use vstd::prelude::*;
use crate::text;

verus! {

/// The outcome class of an SMTP reply or an enhanced status code.
#[derive(Debug, Clone, Copy, PartialEq, Eq, Structural)]
pub enum Classification {
    /// 2xx — the relay accepted the message.
    Accepted,
    /// 4xx, a connection failure, or a timeout. Try again later.
    Transient,
    /// 5xx. Never try again. Whether the address is also suppressed is a
    /// narrower question, see `dsn::Report::should_suppress`.
    Permanent,
    /// A bounce that could not be read. Never acted on automatically.
    Unknown,
}

/// The class named by a leading digit.
pub open spec fn class_of_digit(d: Seq<char>) -> Classification {
    if d == seq!['2'] {
        Classification::Accepted
    } else if d == seq!['4'] {
        Classification::Transient
    } else if d == seq!['5'] {
        Classification::Permanent
    } else {
        Classification::Unknown
    }
}

/// The part of a trimmed status before its first `.`, or all of it.
pub open spec fn status_head(status: Seq<char>) -> Seq<char> {
    match text::split_once(text::trim(status), '.') {
        Some(parts) => parts.0,
        None => text::trim(status),
    }
}

/// The classification of an RFC 3463 enhanced status code such as `5.1.1`.
pub open spec fn status_class(status: Seq<char>) -> Classification {
    class_of_digit(status_head(status))
}

/// The classification of a bare SMTP reply code.
pub open spec fn code_class(code: u16) -> Classification {
    if code / 100 == 2 {
        Classification::Accepted
    } else if code / 100 == 4 {
        Classification::Transient
    } else if code / 100 == 5 {
        Classification::Permanent
    } else {
        Classification::Unknown
    }
}

fn digit_class(d: &[char]) -> (r: Classification)
    ensures
        r == class_of_digit(d@),
{
    if d.len() == 1 && d[0] == '2' {
        assert(d@ =~= seq!['2']);
        Classification::Accepted
    } else if d.len() == 1 && d[0] == '4' {
        assert(d@ =~= seq!['4']);
        Classification::Transient
    } else if d.len() == 1 && d[0] == '5' {
        assert(d@ =~= seq!['5']);
        Classification::Permanent
    } else {
        proof {
            if d@.len() == 1 {
                assert(d@ != seq!['2'] ==> true);
                assert(seq!['2'][0] == '2');
                assert(seq!['4'][0] == '4');
                assert(seq!['5'][0] == '5');
            }
        }
        Classification::Unknown
    }
}

/// `from_status` over characters.
pub fn classify_status(status: &[char]) -> (r: Classification)
    ensures
        r == status_class(status@),
{
    let t = text::trimmed(status);
    match text::split_once_char(&t, '.') {
        Some((head, _)) => digit_class(&head),
        None => digit_class(&t),
    }
}

impl Classification {
    /// Classify a bare SMTP reply code by its leading digit.
    pub fn from_smtp_code(code: u16) -> (r: Classification)
        ensures
            r == code_class(code),
    {
        let class = code / 100;
        if class == 2 {
            Classification::Accepted
        } else if class == 4 {
            Classification::Transient
        } else if class == 5 {
            Classification::Permanent
        } else {
            Classification::Unknown
        }
    }

    /// Classify an RFC 3463 enhanced status code such as `5.1.1`: the
    /// digit before the first `.` of the trimmed code decides.
    pub fn from_status(status: &str) -> (r: Classification)
        ensures
            r == status_class(status@),
    {
        let chars = text::chars_of(status);
        classify_status(&chars)
    }
}

} // verus!
