//! Link-liveness watchdog.
//!
//! The host counts consecutive poll cycles that produced no decoded
//! record.  A successful decode clears the counter; when the counter
//! reaches the threshold the watchdog orders one transport reset and
//! starts a fresh count for the new connection attempt.

use vstd::prelude::*;
use vstd::arithmetic::div_mod::{lemma_basic_div, lemma_hoist_over_denominator};

verus! {

/// Phase of the link as the watchdog sees it.
#[derive(Clone, Copy, Debug, PartialEq, Eq, Structural)]
pub enum LinkPhase {
    /// Data flowed on the most recent cycle.
    Connected,
    /// Some cycles passed without data, fewer than the threshold.
    Stalled,
    /// The threshold was crossed; the transport is being reset.
    Resetting,
}

/// One observation per poll cycle.
#[derive(Clone, Copy, Debug, PartialEq, Eq, Structural)]
pub enum LinkEvent {
    /// The cycle produced no decoded record (empty read or read error).
    EmptyRead,
    /// The cycle decoded a record.
    GoodDecode,
}

/// Counter after one observation: a decode clears it; an empty cycle
/// increments it, or clears it when the threshold is reached (the reset
/// begins a fresh count).
pub open spec fn wd_next(failures: int, threshold: int, ev: LinkEvent) -> int {
    match ev {
        LinkEvent::GoodDecode => 0,
        LinkEvent::EmptyRead => if failures + 1 >= threshold {
            0
        } else {
            failures + 1
        },
    }
}

/// Whether one observation makes the watchdog order a reset.
pub open spec fn wd_fires(failures: int, threshold: int, ev: LinkEvent) -> bool {
    ev == LinkEvent::EmptyRead && failures + 1 >= threshold
}

/// Counter after a sequence of observations.
pub open spec fn wd_run(failures: int, threshold: int, evs: Seq<LinkEvent>) -> int
    decreases evs.len(),
{
    if evs.len() == 0 {
        failures
    } else {
        wd_run(wd_next(failures, threshold, evs[0]), threshold, evs.skip(1))
    }
}

/// Number of resets a sequence of observations makes the watchdog order.
pub open spec fn wd_resets(failures: int, threshold: int, evs: Seq<LinkEvent>) -> int
    decreases evs.len(),
{
    if evs.len() == 0 {
        0
    } else {
        (if wd_fires(failures, threshold, evs[0]) {
            1int
        } else {
            0int
        }) + wd_resets(wd_next(failures, threshold, evs[0]), threshold, evs.skip(1))
    }
}

/// A run of consecutive empty-read cycles.
pub open spec fn empty_reads(n: int) -> Seq<LinkEvent> {
    Seq::new(n as nat, |i: int| LinkEvent::EmptyRead)
}

/// Over a run of `n` consecutive empty-read cycles the watchdog orders
/// exactly `(failures + n) / threshold` resets: one each time the counter
/// climbs from its fresh start to the threshold.
pub proof fn lemma_resets_in_empty_run(failures: int, threshold: int, n: int)
    requires
        1 <= threshold,
        0 <= failures < threshold,
        0 <= n,
    ensures
        wd_resets(failures, threshold, empty_reads(n)) == (failures + n) / threshold,
        0 <= wd_run(failures, threshold, empty_reads(n)) < threshold,
    decreases n,
{
    let evs = empty_reads(n);
    if n == 0 {
        lemma_basic_div(failures, threshold);
    } else {
        assert(evs[0] == LinkEvent::EmptyRead);
        assert(evs.skip(1) =~= empty_reads(n - 1));
        let f1 = wd_next(failures, threshold, LinkEvent::EmptyRead);
        lemma_resets_in_empty_run(f1, threshold, n - 1);
        if failures + 1 >= threshold {
            assert(failures == threshold - 1);
            lemma_hoist_over_denominator(n - 1, 1, threshold as nat);
            assert(failures + n == (n - 1) + 1 * threshold);
        }
    }
}

/// As long as the threshold is not reached, each empty-read cycle adds one
/// to the counter.
pub proof fn lemma_run_below_threshold(failures: int, threshold: int, n: int)
    requires
        1 <= threshold,
        0 <= failures,
        0 <= n,
        failures + n < threshold,
    ensures
        wd_run(failures, threshold, empty_reads(n)) == failures + n,
    decreases n,
{
    if n > 0 {
        assert(empty_reads(n).skip(1) =~= empty_reads(n - 1));
        lemma_run_below_threshold(failures + 1, threshold, n - 1);
    }
}

/// A run of empty-read cycles at least as long as the threshold but
/// shorter than twice the threshold, starting from a clear counter, makes
/// the watchdog order exactly one reset; a shorter run orders none.
pub proof fn lemma_watchdog_single_reset(threshold: int, n: int)
    requires
        1 <= threshold,
        0 <= n < 2 * threshold,
    ensures
        n >= threshold ==> wd_resets(0, threshold, empty_reads(n)) == 1,
        n < threshold ==> wd_resets(0, threshold, empty_reads(n)) == 0 && wd_run(
            0,
            threshold,
            empty_reads(n),
        ) == n,
    decreases n,
{
    lemma_resets_in_empty_run(0, threshold, n);
    if n >= threshold {
        lemma_hoist_over_denominator(n - threshold, 1, threshold as nat);
        assert(n == (n - threshold) + 1 * threshold);
        lemma_basic_div(n - threshold, threshold);
    } else {
        lemma_basic_div(n, threshold);
        lemma_run_below_threshold(0, threshold, n);
    }
}

/// Any successful decode clears the counter, whatever came before it.
pub proof fn lemma_decode_clears_counter(failures: int, threshold: int, evs: Seq<LinkEvent>)
    requires
        evs.len() >= 1,
        evs.last() == LinkEvent::GoodDecode,
    ensures
        wd_run(failures, threshold, evs) == 0,
    decreases evs.len(),
{
    if evs.len() == 1 {
        assert(evs[0] == LinkEvent::GoodDecode);
        assert(evs.skip(1).len() == 0);
        assert(wd_run(0, threshold, evs.skip(1)) == 0);
    } else {
        assert(evs.skip(1).last() == evs.last());
        lemma_decode_clears_counter(wd_next(failures, threshold, evs[0]), threshold, evs.skip(1));
    }
}

/// Host-side liveness monitor: counts consecutive unproductive poll
/// cycles against a fixed threshold.
pub struct LinkWatchdog {
    failures: u32,
    threshold: u32,
}

impl LinkWatchdog {
    /// The counter stays strictly below the threshold between calls.
    pub closed spec fn wf(&self) -> bool {
        1 <= self.threshold && self.failures < self.threshold
    }

    /// Current counter of consecutive unproductive cycles.
    pub closed spec fn failures(&self) -> u32 {
        self.failures
    }

    /// Configured threshold.
    pub closed spec fn threshold(&self) -> u32 {
        self.threshold
    }

    /// A fresh watchdog for a new connection: counter clear.
    pub fn new(threshold: u32) -> (w: LinkWatchdog)
        requires
            threshold >= 1,
        ensures
            w.wf(),
            w.threshold() == threshold,
            w.failures() == 0,
    {
        LinkWatchdog { failures: 0, threshold }
    }

    /// Phase of the link implied by the counter.
    pub fn phase(&self) -> (p: LinkPhase)
        requires
            self.wf(),
        ensures
            p == (if self.failures() == 0 {
                LinkPhase::Connected
            } else {
                LinkPhase::Stalled
            }),
    {
        if self.failures == 0 {
            LinkPhase::Connected
        } else {
            LinkPhase::Stalled
        }
    }

    /// Records a poll cycle that produced no decoded record.  Returns true
    /// exactly when this cycle crosses the threshold: the caller must then
    /// reset the transport and reconnect, and the counter restarts for the
    /// fresh connection.  (While the reset runs the link is in the
    /// `Resetting` phase; afterwards it reports `Connected` again.)
    pub fn note_empty_cycle(&mut self) -> (reset: bool)
        requires
            old(self).wf(),
        ensures
            final(self).wf(),
            final(self).threshold() == old(self).threshold(),
            reset == wd_fires(
                old(self).failures() as int,
                old(self).threshold() as int,
                LinkEvent::EmptyRead,
            ),
            final(self).failures() as int == wd_next(
                old(self).failures() as int,
                old(self).threshold() as int,
                LinkEvent::EmptyRead,
            ),
    {
        if self.failures + 1 >= self.threshold {
            self.failures = 0;
            true
        } else {
            self.failures = self.failures + 1;
            false
        }
    }

    /// Records a successfully decoded record: the link is live, the
    /// counter clears.
    pub fn note_decode(&mut self)
        requires
            old(self).wf(),
        ensures
            final(self).wf(),
            final(self).threshold() == old(self).threshold(),
            final(self).failures() as int == wd_next(
                old(self).failures() as int,
                old(self).threshold() as int,
                LinkEvent::GoodDecode,
            ),
    {
        self.failures = 0;
    }
}

} // verus!
