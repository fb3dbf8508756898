//! The wall-clock benchmark of a simulation run.

use std::time::{Duration, Instant};
use vstd::prelude::*;

verus! {

#[verifier::external_type_specification]
#[verifier::external_body]
pub struct ExInstant(Instant);

/// Wraps `std::time::Instant::now`. Nothing is stated of the instant it
/// returns: it is read from the machine's monotonic clock.
#[verifier::external_body]
fn instant_now() -> Instant {
    Instant::now()
}

/// The time elapsed from `earlier` to `later`, as `later.duration_since(earlier)`
/// gives it: a function of the two instants alone (zero where `earlier` is the
/// later one).
pub uninterp spec fn time_between(later: Instant, earlier: Instant) -> Duration;

/// Wraps `Instant::duration_since`: the time elapsed from `earlier` to
/// `later`, named by `time_between`. How long that is is not stated: both
/// instants come from the clock and a `Duration` is opaque here.
#[verifier::external_body]
fn duration_between(later: Instant, earlier: Instant) -> (d: Duration)
    ensures
        d == time_between(later, earlier),
{
    later.duration_since(earlier)
}

/// Measures how long a simulation run takes on the wall clock.
pub struct Benchmark {
    t_s: Instant,
}

impl Benchmark {
    /// The instant at which the benchmark started.
    pub closed spec fn started(&self) -> Instant {
        self.t_s
    }

    /// Starts measuring now.
    pub fn start() -> Self {
        Self { t_s: instant_now() }
    }

    /// The wall-clock time elapsed since the benchmark started: the time from
    /// its start to an instant read from the clock now.
    pub fn elapsed(&self) -> (d: Duration)
        ensures
            exists|now: Instant| d == #[trigger] time_between(now, self.started()),
    {
        let now = instant_now();
        let d = duration_between(now, self.t_s);
        assert(d == time_between(now, self.started()));
        d
    }
}

} // verus!
