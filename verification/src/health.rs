//! Hysteresis-based health tracking: a per-backend record that flips its
//! healthy flag only after enough consecutive disagreeing observations.
use vstd::prelude::*;

use crate::backend::Backend;

verus! {

/// What one probe of a backend must provide: the probe itself and the number
/// of consecutive observations required to flip a backend's health in each
/// direction.
pub trait HealthCheck {
    /// Probe the given backend; `Ok(())` if the probe passed, otherwise the
    /// failure reason.
    fn check(&self, target: &Backend) -> (r: Result<(), String>);

    /// How many consecutive observations flip a backend's health: with
    /// `success` true, the count needed to flip unhealthy to healthy; with
    /// `success` false, the count needed to flip healthy to unhealthy.
    fn health_threshold(&self, success: bool) -> (r: usize)
        ensures
            r >= 1,
    ;
}

/// Whether an HTTP status code counts as a passed probe: exactly the
/// successful class, 200 through 299.
pub fn status_is_success(status: u16) -> (r: bool)
    ensures
        r <==> 200 <= status <= 299,
{
    200 <= status && status <= 299
}

/// A health check for pools that configure no probing; it reports every
/// backend healthy.
pub struct NoHealthCheck;

impl HealthCheck for NoHealthCheck {
    fn check(&self, _target: &Backend) -> (r: Result<(), String>)
        ensures
            r is Ok,
    {
        Ok(())
    }

    fn health_threshold(&self, _success: bool) -> (r: usize) {
        1
    }
}

/// The health record of one backend: whether it may serve traffic, and how
/// many consecutive observations have disagreed with that flag. The counter
/// is reset to 0 whenever an observation agrees with the flag, and whenever
/// the flag flips.
#[derive(Clone, Copy)]
pub struct Health {
    pub healthy: bool,
    pub consecutive_count: usize,
}

impl Default for Health {
    /// A fresh record: healthy, with no disagreeing observations.
    fn default() -> (r: Self)
        ensures
            r.healthy,
            r.consecutive_count == 0,
    {
        Health { healthy: true, consecutive_count: 0 }
    }
}

/// The record after one observation: a disagreeing observation increments the
/// counter and, once the counter would reach the flip threshold, flips the
/// flag and resets the counter; an agreeing observation resets the counter.
pub open spec fn spec_observe(h: Health, observed: bool, flip_threshold: usize) -> Health {
    if h.healthy != observed {
        if h.consecutive_count + 1 >= flip_threshold {
            Health { healthy: observed, consecutive_count: 0 }
        } else {
            Health { healthy: h.healthy, consecutive_count: (h.consecutive_count + 1) as usize }
        }
    } else {
        Health { healthy: h.healthy, consecutive_count: 0 }
    }
}

/// Whether one observation flips the flag.
pub open spec fn spec_flips(h: Health, observed: bool, flip_threshold: usize) -> bool {
    h.healthy != observed && h.consecutive_count + 1 >= flip_threshold
}

impl Health {
    /// Whether the backend may serve traffic.
    pub fn healthy(&self) -> (r: bool)
        ensures
            r == self.healthy,
    {
        self.healthy
    }

    /// Record one observation; returns whether the healthy flag flipped.
    pub fn observe_health(&mut self, observed_healthy: bool, flip_threshold: usize) -> (flipped:
        bool)
        ensures
            *final(self) == spec_observe(*old(self), observed_healthy, flip_threshold),
            flipped == spec_flips(*old(self), observed_healthy, flip_threshold),
    {
        if self.healthy != observed_healthy {
            if flip_threshold == 0 || self.consecutive_count >= flip_threshold - 1 {
                self.healthy = observed_healthy;
                self.consecutive_count = 0;
                true
            } else {
                self.consecutive_count = self.consecutive_count + 1;
                false
            }
        } else {
            if self.consecutive_count != 0 {
                self.consecutive_count = 0;
            }
            false
        }
    }
}

/// The record after `k` consecutive identical observations.
pub open spec fn spec_observe_n(h: Health, observed: bool, flip_threshold: usize, k: nat) -> Health
    decreases k,
{
    if k == 0 {
        h
    } else {
        spec_observe(spec_observe_n(h, observed, flip_threshold, (k - 1) as nat), observed,
            flip_threshold)
    }
}

/// Law: starting from a record whose flag disagrees with the observation and
/// whose counter is 0, fewer consecutive disagreeing observations than the
/// flip threshold leave the flag unchanged; the counter just counts them.
pub proof fn lemma_below_threshold_no_flip(h: Health, observed: bool, flip_threshold: usize, k: nat)
    requires
        h.healthy != observed,
        h.consecutive_count == 0,
        k < flip_threshold,
    ensures
        spec_observe_n(h, observed, flip_threshold, k) == (Health {
            healthy: h.healthy,
            consecutive_count: k as usize,
        }),
    decreases k,
{
    if k > 0 {
        lemma_below_threshold_no_flip(h, observed, flip_threshold, (k - 1) as nat);
    }
}

/// Law: starting from a record whose flag disagrees with the observation and
/// whose counter is 0, exactly `flip_threshold` consecutive disagreeing
/// observations flip the flag and reset the counter.
pub proof fn lemma_flip_at_threshold(h: Health, observed: bool, flip_threshold: usize)
    requires
        h.healthy != observed,
        h.consecutive_count == 0,
        flip_threshold >= 1,
    ensures
        spec_observe_n(h, observed, flip_threshold, flip_threshold as nat) == (Health {
            healthy: observed,
            consecutive_count: 0,
        }),
        spec_flips(spec_observe_n(h, observed, flip_threshold, (flip_threshold - 1) as nat),
            observed, flip_threshold),
{
    lemma_below_threshold_no_flip(h, observed, flip_threshold, (flip_threshold - 1) as nat);
}

/// Law: an observation that agrees with the current flag resets the counter
/// to 0 and never flips, so an intervening agreeing observation makes any
/// later flip require a full fresh run of disagreeing observations.
pub proof fn lemma_agreeing_observation_resets(h: Health, flip_threshold: usize)
    ensures
        spec_observe(h, h.healthy, flip_threshold) == (Health {
            healthy: h.healthy,
            consecutive_count: 0,
        }),
        !spec_flips(h, h.healthy, flip_threshold),
{
}

} // verus!
