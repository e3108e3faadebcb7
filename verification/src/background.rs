//! The decision logic of the background health-check loop: what one wake-up
//! does, given the clock, the schedule, the configured interval and the
//! shutdown signal. A driver owns the actual timer and signal; it feeds each
//! wake-up through [`loop_step`] and performs what the step decides.
use vstd::prelude::*;

verus! {

/// The re-check delay used when no interval is configured: far enough away
/// that the loop never wakes for it.
pub const NEVER_MS: u64 = 4294967295u64 * 1000;

/// What one wake-up of the loop decided.
#[derive(Clone, Copy, PartialEq, Eq, Structural, Debug)]
pub struct LoopStep {
    /// Run one health check now.
    pub run_check: bool,
    /// Leave the loop without any further check.
    pub exit: bool,
    /// When the next check is due; the driver sleeps until then.
    pub next_check: u64,
}

/// The configured interval, or the never-due delay without one.
pub open spec fn spec_interval_or_never(interval: Option<u64>) -> u64 {
    match interval {
        Some(ms) => ms,
        None => NEVER_MS,
    }
}

/// Addition on the clock, saturating at the end of time.
pub open spec fn spec_sat_add(a: u64, b: u64) -> u64 {
    if a + b > u64::MAX {
        u64::MAX
    } else {
        (a + b) as u64
    }
}

/// One wake-up of the loop: a raised shutdown signal exits before any
/// check; otherwise a due schedule runs one check and schedules the next one
/// interval later, and a loop with no interval exits after its single check.
pub open spec fn spec_loop_step(
    shutdown: bool,
    now: u64,
    next_check: u64,
    interval: Option<u64>,
) -> LoopStep {
    if shutdown {
        LoopStep { run_check: false, exit: true, next_check }
    } else {
        let due = next_check <= now;
        LoopStep {
            run_check: due,
            exit: interval is None,
            next_check: if due {
                spec_sat_add(now, spec_interval_or_never(interval))
            } else {
                next_check
            },
        }
    }
}

/// Decide one wake-up of the background loop. All times are in milliseconds
/// on the driver's clock.
pub fn loop_step(shutdown: bool, now: u64, next_check: u64, interval: Option<u64>) -> (r: LoopStep)
    ensures
        r == spec_loop_step(shutdown, now, next_check, interval),
{
    if shutdown {
        LoopStep { run_check: false, exit: true, next_check }
    } else {
        let due = next_check <= now;
        let delay = match interval {
            Some(ms) => ms,
            None => NEVER_MS,
        };
        LoopStep {
            run_check: due,
            exit: interval.is_none(),
            next_check: if due {
                now.saturating_add(delay)
            } else {
                next_check
            },
        }
    }
}

/// Law: the loop runs a health check immediately upon start — the first
/// wake-up, with the first check due at startup and no shutdown yet, runs
/// one check; and with no interval configured it exits right after it, so
/// such a loop performs exactly one check.
pub proof fn lemma_first_wake_checks(now: u64, interval: Option<u64>)
    ensures
        spec_loop_step(false, now, now, interval).run_check,
        interval is None ==> spec_loop_step(false, now, now, interval).exit,
        interval is Some ==> !spec_loop_step(false, now, now, interval).exit,
{
}

/// Law: with an interval configured and the shutdown signal raised right
/// after the first check, the loop performs exactly one check — the first
/// wake-up runs it and stays alive, and the following wake-up, whenever it
/// comes, sees the signal and exits without checking again.
pub proof fn lemma_shutdown_after_first_check(now: u64, interval: u64, wake: u64)
    ensures
        ({
            let first = spec_loop_step(false, now, now, Some(interval));
            let second = spec_loop_step(true, wake, first.next_check, Some(interval));
            first.run_check && !first.exit && !second.run_check && second.exit
        }),
{
}

/// Law: a raised shutdown signal is honored at the very next wake-up — no
/// further check runs, whatever the schedule says.
pub proof fn lemma_shutdown_never_checks(now: u64, next_check: u64, interval: Option<u64>)
    ensures
        !spec_loop_step(true, now, next_check, interval).run_check,
        spec_loop_step(true, now, next_check, interval).exit,
{
}

} // verus!
