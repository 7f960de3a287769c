//! Latency tracking: for each kind of operation a window of samples that is
//! reset at every progress report, and the samples of the whole phase.

use crate::report::{calculate_percentiles, summary};
use std::time::Duration;
use std::time::Instant;
use vstd::prelude::*;

verus! {

/// A point in time as std's monotonic clock gives it. Nothing is known of a
/// value of this type.
#[verifier::external_type_specification]
#[verifier::external_body]
pub struct ExInstant(Instant);

/// `Instant::now` reads the clock. Nothing is claimed of what it returns.
pub assume_specification[ Instant::now ]() -> (start: Instant);

/// `Instant::elapsed` gives the time that has passed since the instant, which
/// depends on the clock. Nothing is claimed of it.
pub assume_specification[ Instant::elapsed ](start: &Instant) -> (elapsed: Duration);

/// `Duration::as_nanos` gives the duration in whole nanoseconds. Nothing is
/// known of a duration, so nothing is claimed of the number.
pub assume_specification[ Duration::as_nanos ](elapsed: &Duration) -> (nanos: u128);

/// The quantiles that a summary reports.
#[derive(Clone, Copy, Debug, PartialEq, Eq, Structural)]
pub enum Resolution {
    /// The median, the ninth decile and the maximum.
    Coarse,
    /// From the first decile to the maximum, in eight steps.
    Fine,
}

impl Resolution {
    /// The quantiles in thousandths, ascending.
    pub open spec fn quantiles(self) -> Seq<u32> {
        match self {
            Resolution::Coarse => seq![500u32, 900u32, 1000u32],
            Resolution::Fine => seq![
                100u32,
                250u32,
                500u32,
                750u32,
                900u32,
                990u32,
                999u32,
                1000u32,
            ],
        }
    }

    pub fn to_quantiles(&self) -> (at: Vec<u32>)
        ensures
            at@ == self.quantiles(),
            forall|i: int| 0 <= i < at@.len() ==> at@[i] <= 1000,
    {
        let at = match self {
            Resolution::Coarse => vec![500u32, 900u32, 1000u32],
            Resolution::Fine => vec![
                100u32,
                250u32,
                500u32,
                750u32,
                900u32,
                990u32,
                999u32,
                1000u32,
            ],
        };
        assert(at@ =~= self.quantiles());
        at
    }
}

/// The samples of one kind of operation, in nanoseconds and in the order in
/// which they were taken.
pub struct Samples {
    /// Those taken since the window was last reset.
    pub run: Seq<u64>,
    /// Those taken since the phase began.
    pub total: Seq<u64>,
}

impl Samples {
    pub open spec fn empty() -> Samples {
        Samples { run: Seq::empty(), total: Seq::empty() }
    }

    /// One more sample, in both views.
    pub open spec fn record(self, nanos: u64) -> Samples {
        Samples { run: self.run.push(nanos), total: self.total.push(nanos) }
    }

    /// The window emptied; the phase's samples stay.
    pub open spec fn reset(self) -> Samples {
        Samples { run: Seq::empty(), total: self.total }
    }

    /// The window holds the latest samples of the phase: nothing was put
    /// into one view and not into the other.
    pub open spec fn wf(self) -> bool {
        &&& self.run.len() <= self.total.len()
        &&& self.total.subrange(self.total.len() - self.run.len(), self.total.len() as int)
            == self.run
    }
}

/// What a tracker holds.
pub struct Latencies {
    pub resolution: Resolution,
    pub put: Samples,
    pub del: Samples,
}

impl Latencies {
    pub open spec fn wf(self) -> bool {
        self.put.wf() && self.del.wf()
    }

    /// One more put.
    pub open spec fn record_put(self, nanos: u64) -> Latencies {
        Latencies { put: self.put.record(nanos), ..self }
    }

    /// One more deletion.
    pub open spec fn record_del(self, nanos: u64) -> Latencies {
        Latencies { del: self.del.record(nanos), ..self }
    }

    /// The window of the puts emptied.
    pub open spec fn reset_put(self) -> Latencies {
        Latencies { put: self.put.reset(), ..self }
    }

    /// The window of the deletions emptied.
    pub open spec fn reset_del(self) -> Latencies {
        Latencies { del: self.del.reset(), ..self }
    }
}

struct Window {
    run: Vec<u64>,
    total: Vec<u64>,
}

impl Window {
    spec fn samples(self) -> Samples {
        Samples { run: self.run@, total: self.total@ }
    }

    fn new() -> (window: Window)
        ensures
            window.samples() == Samples::empty(),
    {
        Window { run: Vec::new(), total: Vec::new() }
    }

    fn record(&mut self, nanos: u64)
        ensures
            final(self).samples() == old(self).samples().record(nanos),
    {
        self.run.push(nanos);
        self.total.push(nanos);
    }

    fn finish_run(&mut self, at: &Vec<u32>) -> (text: String)
        requires
            forall|i: int| 0 <= i < at@.len() ==> at@[i] <= 1000,
        ensures
            text@ == summary(old(self).samples().run, at@),
            final(self).samples() == old(self).samples().reset(),
    {
        let text = calculate_percentiles(&self.run, at);
        self.run = Vec::new();
        text
    }
}

/// The latencies of the puts and of the deletions of one phase.
pub struct Durations {
    resolution: Resolution,
    put: Window,
    del: Window,
}

impl View for Durations {
    type V = Latencies;

    closed spec fn view(&self) -> Latencies {
        Latencies {
            resolution: self.resolution,
            put: self.put.samples(),
            del: self.del.samples(),
        }
    }
}

/// An elapsed time in nanoseconds as a sample: times beyond 64 bits count as
/// the largest sample.
pub open spec fn clamped(nanos: u128) -> u64 {
    if nanos > u64::MAX {
        u64::MAX
    } else {
        nanos as u64
    }
}

pub fn clamp_nanos(nanos: u128) -> (sample: u64)
    ensures
        sample == clamped(nanos),
{
    if nanos > u64::MAX as u128 {
        u64::MAX
    } else {
        nanos as u64
    }
}

impl Default for Durations {
    /// A tracker without samples that reports the coarse quantiles.
    fn default() -> (durations: Durations)
        ensures
            durations@ == (Latencies {
                resolution: Resolution::Coarse,
                put: Samples::empty(),
                del: Samples::empty(),
            }),
    {
        Durations::new(Resolution::Coarse)
    }
}

impl Durations {
    /// A tracker without samples.
    pub fn new(resolution: Resolution) -> (durations: Durations)
        ensures
            durations@ == (Latencies { resolution, put: Samples::empty(), del: Samples::empty() }),
    {
        Durations { resolution, put: Window::new(), del: Window::new() }
    }

    /// Records the latency of one put, in the window and in the phase.
    pub fn record_put(&mut self, nanos: u64)
        ensures
            final(self)@ == old(self)@.record_put(nanos),
            old(self)@.wf() ==> final(self)@.wf(),
    {
        self.put.record(nanos);
        proof {
            if old(self)@.wf() {
                lemma_record_keeps_wf(old(self)@.put, nanos);
            }
        }
    }

    /// Records the latency of one deletion, in the window and in the phase.
    pub fn record_del(&mut self, nanos: u64)
        ensures
            final(self)@ == old(self)@.record_del(nanos),
            old(self)@.wf() ==> final(self)@.wf(),
    {
        self.del.record(nanos);
        proof {
            if old(self)@.wf() {
                lemma_record_keeps_wf(old(self)@.del, nanos);
            }
        }
    }

    /// Runs `f`, records the time it took as the latency of one put, and
    /// hands back what `f` returned.
    pub fn measure_put<T, F: FnOnce() -> T>(&mut self, f: F) -> (result: T)
        requires
            f.requires(()),
        ensures
            f.ensures((), result),
            exists|nanos: u64| final(self)@ == #[trigger] old(self)@.record_put(nanos),
            old(self)@.wf() ==> final(self)@.wf(),
    {
        let start = Instant::now();
        let result = f();
        let elapsed = start.elapsed();
        let nanos = clamp_nanos(elapsed.as_nanos());
        self.record_put(nanos);
        result
    }

    /// Reports the quantiles of the puts in the window and empties the
    /// window.
    pub fn finish_put_run(&mut self) -> (text: String)
        ensures
            text@ == summary(old(self)@.put.run, old(self)@.resolution.quantiles()),
            final(self)@ == old(self)@.reset_put(),
            old(self)@.wf() ==> final(self)@.wf(),
    {
        let at = self.resolution.to_quantiles();
        let text = self.put.finish_run(&at);
        proof {
            lemma_reset_keeps_wf(old(self)@.put);
        }
        text
    }

    /// Runs `f`, records the time it took as the latency of one deletion, and
    /// hands back what `f` returned.
    pub fn measure_del<T, F: FnOnce() -> T>(&mut self, f: F) -> (result: T)
        requires
            f.requires(()),
        ensures
            f.ensures((), result),
            exists|nanos: u64| final(self)@ == #[trigger] old(self)@.record_del(nanos),
            old(self)@.wf() ==> final(self)@.wf(),
    {
        let start = Instant::now();
        let result = f();
        let elapsed = start.elapsed();
        let nanos = clamp_nanos(elapsed.as_nanos());
        self.record_del(nanos);
        result
    }

    /// Reports the quantiles of the deletions in the window and empties the
    /// window.
    pub fn finish_del_run(&mut self) -> (text: String)
        ensures
            text@ == summary(old(self)@.del.run, old(self)@.resolution.quantiles()),
            final(self)@ == old(self)@.reset_del(),
            old(self)@.wf() ==> final(self)@.wf(),
    {
        let at = self.resolution.to_quantiles();
        let text = self.del.finish_run(&at);
        proof {
            lemma_reset_keeps_wf(old(self)@.del);
        }
        text
    }

    /// Reports the quantiles of the whole phase: of its puts, then of its
    /// deletions.
    pub fn finish(self) -> (texts: (String, String))
        ensures
            texts.0@ == summary(self@.put.total, self@.resolution.quantiles()),
            texts.1@ == summary(self@.del.total, self@.resolution.quantiles()),
    {
        let at = self.resolution.to_quantiles();
        (calculate_percentiles(&self.put.total, &at), calculate_percentiles(&self.del.total, &at))
    }
}

/// A sample that goes into both views leaves the window the latest part of
/// the phase.
pub proof fn lemma_record_keeps_wf(samples: Samples, nanos: u64)
    requires
        samples.wf(),
    ensures
        samples.record(nanos).wf(),
{
    let after = samples.record(nanos);
    assert(after.total.subrange(after.total.len() - after.run.len(), after.total.len() as int)
        =~= after.run) by {
        let from = samples.total.len() - samples.run.len();
        assert forall|i: int| 0 <= i < samples.run.len() implies samples.total[from + i]
            == samples.run[i] by {
            assert(samples.total.subrange(from, samples.total.len() as int)[i]
                == samples.total[from + i]);
        }
    }
}

/// An emptied window is the latest part of any phase.
pub proof fn lemma_reset_keeps_wf(samples: Samples)
    ensures
        samples.reset().wf(),
{
    let after = samples.reset();
    assert(after.total.subrange(after.total.len() - 0, after.total.len() as int)
        =~= Seq::<u64>::empty());
}

} // verus!
