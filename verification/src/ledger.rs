//! The decisions the store takes around its writes: what a bounce report
//! is filed as, what the relay's queue says of a message, who may lose
//! the admin role, and when a check is due again.

use vstd::prelude::*;
use crate::classification::Classification;
use crate::dsn;
use crate::settings;
use crate::text;

verus! {

/// What one bounce ingestion did.
#[derive(Debug, Clone, Default)]
pub struct Ingested {
    pub reports: usize,
    pub suppressed: usize,
    /// Reports whose queue id matched no message we hold. A persistently
    /// high count means queue ids are not captured on the way out.
    pub unmatched: usize,
}

impl Ingested {
    /// Count one report read from a bounce: whether its queue id matched a
    /// message we hold, and whether it suppressed an address.
    pub fn count(&mut self, matched: bool, suppressed: bool)
        requires
            old(self).reports < usize::MAX,
            old(self).unmatched < usize::MAX,
            old(self).suppressed < usize::MAX,
        ensures
            final(self).reports == old(self).reports + 1,
            final(self).unmatched == old(self).unmatched + if matched { 0int } else { 1int },
            final(self).suppressed == old(self).suppressed + if suppressed { 1int } else { 0int },
    {
        self.reports = self.reports + 1;
        if !matched {
            self.unmatched = self.unmatched + 1;
        }
        if suppressed {
            self.suppressed = self.suppressed + 1;
        }
    }
}

/// What one queue report changed.
#[derive(Debug, Default, PartialEq, Eq)]
pub struct Reconciled {
    pub queued: usize,
    pub delivered: usize,
    pub unmatched: usize,
}

impl Reconciled {
    /// Count one entry of the snapshot: whether its queue id names a
    /// message we hold.
    pub fn count(&mut self, known: bool)
        requires
            old(self).queued < usize::MAX,
            old(self).unmatched < usize::MAX,
        ensures
            final(self).queued == old(self).queued + 1,
            final(self).unmatched == old(self).unmatched + if known { 0int } else { 1int },
            final(self).delivered == old(self).delivered,
    {
        self.queued = self.queued + 1;
        if !known {
            self.unmatched = self.unmatched + 1;
        }
    }
}

/// The status a submission is stored with: a suppressed recipient is
/// recorded, not refused, and the message goes no further.
pub fn accepted_status(suppressed: bool) -> (r: &'static str)
    ensures
        r@ == (if suppressed { "suppressed"@ } else { "queued"@ }),
{
    if suppressed {
        "suppressed"
    } else {
        "queued"
    }
}

/// Whether accepting a submission wakes the delivery workers: only when
/// it queued new work. A deduplicated resubmission queues nothing, and a
/// suppressed recipient is finished on the spot.
pub fn wakes_workers(suppressed: bool, deduplicated: bool) -> (r: bool)
    ensures
        r == (!suppressed && !deduplicated),
{
    !suppressed && !deduplicated
}

/// How a bounce report is filed.
pub open spec fn bounce_label(c: Classification) -> Seq<char> {
    match c {
        Classification::Permanent => "permanent"@,
        Classification::Transient => "transient"@,
        _ => "unknown"@,
    }
}

pub fn bounce_label_of(c: Classification) -> (r: &'static str)
    ensures
        r@ == bounce_label(c),
{
    match c {
        Classification::Permanent => "permanent",
        Classification::Transient => "transient",
        _ => "unknown",
    }
}

/// The address a bounce report suppresses, if any: only a report that
/// warrants suppression AND names its final recipient.
pub fn suppression_target(report: &dsn::Report) -> (r: Option<String>)
    ensures
        match r {
            Some(a) => dsn::suppresses(report@) && report@.final_recipient == Some(a@),
            None => !dsn::suppresses(report@) || report@.final_recipient is None,
        },
{
    if report.should_suppress() {
        match &report.final_recipient {
            Some(a) => Some(a.clone()),
            None => None,
        }
    } else {
        None
    }
}

/// A transient bounce never suppresses anything.
pub proof fn a_transient_bounce_suppresses_nothing(r: dsn::ReportModel)
    requires
        r.classification != Classification::Permanent,
    ensures
        !dsn::suppresses(r),
{
}

/// The state the relay's queue gives a message: being attempted right now
/// (`active`, `incoming`, `maildrop`), or waiting after a failure.
pub open spec fn relay_state(queue_name: Seq<char>) -> Seq<char> {
    if queue_name == "active"@ || queue_name == "incoming"@ || queue_name == "maildrop"@ {
        "active"@
    } else {
        "deferred"@
    }
}

pub fn relay_state_of(queue_name: &str) -> (r: &'static str)
    ensures
        r@ == relay_state(queue_name@),
{
    let c = text::chars_of(queue_name);
    if text::is_literal(&c, "active") || text::is_literal(&c, "incoming") || text::is_literal(
        &c,
        "maildrop",
    ) {
        "active"
    } else {
        "deferred"
    }
}

// ---------------------------------------------------------------- grants

/// What may happen to an active grant.
#[derive(Debug, Clone, Copy, PartialEq, Eq, Structural)]
pub enum GrantChange {
    /// No active grant has this id.
    NotFound,
    /// The grant already has this role; nothing to do.
    Unchanged,
    /// Go ahead.
    Proceed,
}

/// The number of active admin grants among `roles`.
pub open spec fn admins(roles: Seq<Seq<char>>) -> nat
    decreases roles.len(),
{
    if roles.len() == 0 {
        0
    } else {
        admins(roles.drop_last()) + if roles.last() == "admin"@ {
            1nat
        } else {
            0nat
        }
    }
}

/// Whether an active grant may be ended: the last admin may not, so the
/// surface can never lock everyone out.
pub open spec fn end_spec(target_role: Option<Seq<char>>, active_admins: i64) -> Result<GrantChange, Seq<char>> {
    match target_role {
        None => Ok(GrantChange::NotFound),
        Some(r) => if r == "admin"@ && active_admins <= 1 {
            Err("cannot remove the last admin \u{2014} grant someone else the admin role first"@)
        } else {
            Ok(GrantChange::Proceed)
        },
    }
}

/// Whether an active grant may change role: the last admin may not be
/// demoted.
pub open spec fn set_role_spec(old_role: Option<Seq<char>>, new_role: Seq<char>, active_admins: i64) -> Result<GrantChange, Seq<char>> {
    match old_role {
        None => Ok(GrantChange::NotFound),
        Some(r) => if r == new_role {
            Ok(GrantChange::Unchanged)
        } else if r == "admin"@ && active_admins <= 1 {
            Err("cannot demote the last admin \u{2014} grant someone else the admin role first"@)
        } else {
            Ok(GrantChange::Proceed)
        },
    }
}

fn refusal(m: &str) -> (r: String)
    ensures
        r@ == m@,
{
    let c = text::chars_of(m);
    text::string_of(&c)
}

/// May this grant end? `target_role` is the grant's role when it is
/// active; `active_admins` counts the active admin grants.
pub fn end_grant(target_role: Option<&str>, active_admins: i64) -> (r: Result<GrantChange, String>)
    ensures
        match r {
            Ok(c) => end_spec(
                match target_role {
                    Some(x) => Some(x@),
                    None => None,
                },
                active_admins,
            ) == Ok::<GrantChange, Seq<char>>(c),
            Err(m) => end_spec(
                match target_role {
                    Some(x) => Some(x@),
                    None => None,
                },
                active_admins,
            ) == Err::<GrantChange, Seq<char>>(m@),
        },
{
    match target_role {
        None => Ok(GrantChange::NotFound),
        Some(role) => {
            let c = text::chars_of(role);
            if text::is_literal(&c, "admin") && active_admins <= 1 {
                Err(
                    refusal(
                        "cannot remove the last admin \u{2014} grant someone else the admin role first",
                    ),
                )
            } else {
                Ok(GrantChange::Proceed)
            }
        },
    }
}

/// May this grant change to `new_role`?
pub fn change_role(old_role: Option<&str>, new_role: &str, active_admins: i64) -> (r: Result<GrantChange, String>)
    ensures
        match r {
            Ok(c) => set_role_spec(
                match old_role {
                    Some(x) => Some(x@),
                    None => None,
                },
                new_role@,
                active_admins,
            ) == Ok::<GrantChange, Seq<char>>(c),
            Err(m) => set_role_spec(
                match old_role {
                    Some(x) => Some(x@),
                    None => None,
                },
                new_role@,
                active_admins,
            ) == Err::<GrantChange, Seq<char>>(m@),
        },
{
    match old_role {
        None => Ok(GrantChange::NotFound),
        Some(role) => {
            let old = text::chars_of(role);
            let new = text::chars_of(new_role);
            if text::seq_eq(&old, &new) {
                Ok(GrantChange::Unchanged)
            } else if text::is_literal(&old, "admin") && active_admins <= 1 {
                Err(
                    refusal(
                        "cannot demote the last admin \u{2014} grant someone else the admin role first",
                    ),
                )
            } else {
                Ok(GrantChange::Proceed)
            }
        },
    }
}

proof fn lemma_admins_remove(roles: Seq<Seq<char>>, i: int)
    requires
        0 <= i < roles.len(),
    ensures
        admins(roles) == admins(roles.remove(i)) + if roles[i] == "admin"@ {
            1nat
        } else {
            0nat
        },
    decreases roles.len(),
{
    if i == roles.len() - 1 {
        assert(roles.remove(i) =~= roles.drop_last());
    } else {
        lemma_admins_remove(roles.drop_last(), i);
        assert(roles.remove(i).drop_last() =~= roles.drop_last().remove(i));
        assert(roles.remove(i).last() == roles.last());
    }
}

/// The last admin stays: over the active grants `roles`, where at least
/// one is an admin, ending grant `i` as the rule allows, or moving it to
/// another role, leaves at least one admin.
pub proof fn the_last_admin_stays(roles: Seq<Seq<char>>, i: int, new_role: Seq<char>)
    requires
        0 <= i < roles.len(),
        admins(roles) >= 1,
        admins(roles) <= i64::MAX,
    ensures
        end_spec(Some(roles[i]), admins(roles) as i64) == Ok::<GrantChange, Seq<char>>(
            GrantChange::Proceed,
        ) ==> admins(roles.remove(i)) >= 1,
        set_role_spec(Some(roles[i]), new_role, admins(roles) as i64) == Ok::<
            GrantChange,
            Seq<char>,
        >(GrantChange::Proceed) ==> admins(roles.update(i, new_role)) >= 1,
{
    lemma_admins_remove(roles, i);
    lemma_admins_remove(roles.update(i, new_role), i);
    assert(roles.update(i, new_role).remove(i) =~= roles.remove(i));
}

// --------------------------------------------------------------- cadence

/// Whether a check is due: never checked, or older than its window, which
/// is the long revalidation window while the last check passed and the
/// short recheck window while it failed.
pub open spec fn due_spec(last: Option<(bool, i64)>, recheck_secs: i64, revalidate_secs: i64) -> bool {
    match last {
        None => true,
        Some(c) => if c.0 {
            c.1 > revalidate_secs
        } else {
            c.1 > recheck_secs
        },
    }
}

/// Is a check due? `last` is the last check's verdict and its age in
/// seconds.
pub fn check_due(last: Option<(bool, i64)>, recheck_secs: i64, revalidate_secs: i64) -> (r: bool)
    ensures
        r == due_spec(last, recheck_secs, revalidate_secs),
{
    match last {
        None => true,
        Some((valid, age)) => if valid {
            age > revalidate_secs
        } else {
            age > recheck_secs
        },
    }
}

/// A change of a tenant's domains that changes nothing is no change: it is
/// not recorded in the history.
pub fn domains_changed(before: &[String], after: &[String]) -> (r: bool)
    ensures
        r == (before@.map_values(|s: String| s@) != after@.map_values(|s: String| s@)),
{
    if before.len() != after.len() {
        assert(before@.map_values(|s: String| s@).len() != after@.map_values(|s: String| s@).len());
        return true;
    }
    let mut i: usize = 0;
    while i < before.len()
        invariant
            i <= before@.len() == after@.len(),
            forall|k: int| 0 <= k < i ==> before@[k]@ == after@[k]@,
        decreases before@.len() - i,
    {
        let a = text::chars_of(before[i].as_str());
        let b = text::chars_of(after[i].as_str());
        if !text::seq_eq(&a, &b) {
            assert(before@.map_values(|s: String| s@)[i as int] != after@.map_values(
                |s: String| s@,
            )[i as int]);
            return true;
        }
        i = i + 1;
    }
    assert(before@.map_values(|s: String| s@) =~= after@.map_values(|s: String| s@));
    false
}

/// The connection pool's ceiling: `DATABASE_MAX_CONNECTIONS` when it
/// reads as a positive number, eight otherwise.
pub open spec fn pool_size_spec(raw: Option<Seq<char>>) -> int {
    match raw {
        Some(v) => match text::parse_uint(v, u32::MAX as int) {
            Some(n) => if n > 0 {
                n
            } else {
                8
            },
            None => 8,
        },
        None => 8,
    }
}

/// The connection pool's ceiling, as [`pool_size_spec`] says. It must
/// clear the worker's concurrency by one: a worker holds one connection
/// for queue notifications.
pub fn pool_size(raw: Option<&str>) -> (r: u32)
    ensures
        r as int == pool_size_spec(settings::opt_chars(raw)),
{
    match raw {
        Some(v) => match text::parse_u64(&text::chars_of(v)) {
            Some(n) => if 0 < n && n <= 0xffff_ffff {
                n as u32
            } else {
                8
            },
            None => 8,
        },
        None => 8,
    }
}

/// How many days of message bodies are kept: `BODY_RETENTION_DAYS` as
/// written, thirty when unset.
pub open spec fn retention_days_spec(raw: Option<Seq<char>>) -> Result<i64, Seq<char>> {
    match text::parse_int(settings::given_or(raw, "30"@)) {
        Some(n) => Ok(n),
        None => Err("BODY_RETENTION_DAYS must be a number"@),
    }
}

/// The retention period, as [`retention_days_spec`] says.
pub fn retention_days(raw: Option<&str>) -> (r: Result<i64, String>)
    ensures
        match (r, retention_days_spec(settings::opt_chars(raw))) {
            (Ok(n), Ok(m)) => n == m,
            (Err(e), Err(m)) => e@ == m,
            _ => false,
        },
{
    let v = settings::given_or_chars(raw, "30");
    match text::parse_i64(&v) {
        Some(n) => Ok(n),
        None => Err(text::string_of(&text::chars_of("BODY_RETENTION_DAYS must be a number"))),
    }
}

} // verus!
