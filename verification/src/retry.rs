//! The retry schedule.
//!
//! Front-loaded — most relay failures are a restart that resolves in
//! seconds — and then spread out, for a total of just over two days, so
//! that an overnight relay outage never destroys mail.

use vstd::prelude::*;
use core::time::Duration;

verus! {

/// Delay in seconds before attempt N+1, indexed by the number of attempts
/// already made: 1 min, 5 min, 15 min, 1 h, 3 h, 6 h, 12 h, 12 h, 15 h,
/// about 49 hours in all.
pub const SCHEDULE: [u64; 9] = [60, 300, 900, 3600, 10800, 21600, 43200, 43200, 54000];

/// The schedule as a sequence.
pub open spec fn schedule() -> Seq<u64> {
    seq![60u64, 300, 900, 3600, 10800, 21600, 43200, 43200, 54000]
}

/// The sum of the first `n` delays.
pub open spec fn schedule_sum(n: nat) -> nat
    decreases n,
{
    if n == 0 || n > schedule().len() {
        0
    } else {
        (schedule_sum((n - 1) as nat) + schedule()[n - 1]) as nat
    }
}

/// The duration `Duration::from_secs` makes of a number of seconds.
pub uninterp spec fn seconds(secs: u64) -> Duration;

/// `core::time::Duration::from_secs`: a duration of exactly `secs` whole
/// seconds. Total, and deterministic in its argument.
pub assume_specification[ core::time::Duration::from_secs ](secs: u64) -> (d: Duration)
    ensures
        d == seconds(secs),
;

/// The delay before the next attempt, in seconds, or `None` once the
/// schedule has run out.
pub open spec fn backoff_secs(attempts_made: u32) -> Option<u64> {
    if attempts_made < schedule().len() {
        Some(schedule()[attempts_made as int])
    } else {
        None
    }
}

/// How long to wait before the next attempt, given how many attempts have
/// already been made. `None` means the message is dead: no attempt is
/// scheduled, and the failure becomes visible rather than silent.
pub fn backoff(attempts_made: u32) -> (r: Option<Duration>)
    ensures
        match backoff_secs(attempts_made) {
            Some(s) => r == Some(seconds(s)) && 60 <= s <= 54000,
            None => r is None,
        },
{
    let delays = SCHEDULE;
    assert(delays@ =~= schedule());
    if (attempts_made as usize) < delays.len() {
        Some(Duration::from_secs(delays[attempts_made as usize]))
    } else {
        None
    }
}

/// Total time a message may spend trying before it is given up on.
pub fn total_window() -> (r: Duration)
    ensures
        r == seconds(schedule_sum(9) as u64),
        48 * 3600 < schedule_sum(9) <= 50 * 3600,
{
    let delays = SCHEDULE;
    assert(delays@ =~= schedule());
    let mut total: u64 = 0;
    let mut i: usize = 0;
    while i < delays.len()
        invariant
            delays@ == schedule(),
            i <= 9,
            total == schedule_sum(i as nat),
            total <= 54000 * i,
        decreases 9 - i,
    {
        total = total + delays[i];
        i = i + 1;
    }
    proof {
        window_is_just_over_two_days();
    }
    Duration::from_secs(total)
}

// ------------------------------------------------------------------ laws

/// The schedule never shrinks: a later attempt never waits less.
pub proof fn backoff_never_shrinks(i: u32, j: u32)
    requires
        i <= j,
        backoff_secs(j) is Some,
    ensures
        backoff_secs(i)->0 <= backoff_secs(j)->0,
{
}

/// The schedule ends: after nine attempts nothing more is scheduled.
pub proof fn backoff_ends(attempts_made: u32)
    ensures
        backoff_secs(attempts_made) is None <==> attempts_made >= 9,
{
}

/// The whole window outlasts an overnight outage: more than a day.
pub proof fn window_survives_an_overnight_outage()
    ensures
        schedule_sum(9) >= 86400,
{
    window_is_just_over_two_days();
}

/// The whole window is just over two days: more than 48 hours and at most
/// 50 (it is 177,660 seconds, about 49 hours).
pub proof fn window_is_just_over_two_days()
    ensures
        schedule_sum(9) == 177660,
        48 * 3600 < schedule_sum(9) <= 50 * 3600,
{
    let d = schedule();
    assert(d.len() == 9);
    assert(d[0] == 60 && d[1] == 300 && d[2] == 900 && d[3] == 3600 && d[4] == 10800);
    assert(d[5] == 21600 && d[6] == 43200 && d[7] == 43200 && d[8] == 54000);
    assert(schedule_sum(0) == 0);
    assert(schedule_sum(1) == 60);
    assert(schedule_sum(2) == 360);
    assert(schedule_sum(3) == 1260);
    assert(schedule_sum(4) == 4860);
    assert(schedule_sum(5) == 15660);
    assert(schedule_sum(6) == 37260);
    assert(schedule_sum(7) == 80460);
    assert(schedule_sum(8) == 123660);
    assert(schedule_sum(9) == 177660);
}

} // verus!
