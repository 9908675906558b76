//! Session controller: the consumer side of the run.
//!
//! After dispatching the groups, the controller drains exactly one
//! cycle-finished signal per client from the barrier, releases the latch so
//! every worker may proceed to termination, then collects one latency
//! report per client and produces the aggregate average. Reports are only
//! accepted once the latch is released, mirroring the protocol order.

use vstd::prelude::*;
use crate::barrier::Barrier;
use crate::latency::{LatencyAggregator, sum_of};

verus! {

/// Controller state for one simulation run.
pub struct SessionController {
    barrier: Barrier,
    aggregator: LatencyAggregator,
}

impl SessionController {
    /// The barrier the controller drains and releases.
    pub closed spec fn barrier(self) -> Barrier {
        self.barrier
    }

    /// The latency reports collected so far, in arrival order.
    pub closed spec fn reports(self) -> Seq<u64> {
        self.aggregator.samples()
    }

    /// Controller invariant: the barrier invariant holds, and no report is
    /// accepted before the latch is released.
    pub open spec fn wf(self) -> bool {
        self.barrier().wf() && (self.reports().len() > 0 ==> self.barrier().released())
    }

    /// A controller awaiting `client_number` clients' signals and reports.
    pub fn new(client_number: u64) -> (c: SessionController)
        requires
            client_number > 0,
        ensures
            c.wf(),
            c.barrier().expected() == client_number,
            c.barrier().finished() == 0,
            !c.barrier().released(),
            c.reports() == Seq::<u64>::empty(),
    {
        SessionController { barrier: Barrier::new(client_number), aggregator: LatencyAggregator::new() }
    }

    /// Drain one cycle-finished signal.
    pub fn on_finished_signal(&mut self)
        requires
            old(self).wf(),
            old(self).barrier().finished() < old(self).barrier().expected(),
        ensures
            final(self).wf(),
            final(self).barrier().expected() == old(self).barrier().expected(),
            final(self).barrier().finished() == old(self).barrier().finished() + 1,
            !final(self).barrier().released(),
            final(self).reports() == old(self).reports(),
    {
        proof {
            crate::barrier::lemma_release_exact(self.barrier);
        }
        self.barrier.record_finished();
    }

    /// Release the latch: legal exactly when every expected signal has been
    /// drained, and only then can any worker pass the barrier.
    pub fn release_barrier(&mut self)
        requires
            old(self).wf(),
            old(self).barrier().finished() == old(self).barrier().expected(),
        ensures
            final(self).wf(),
            final(self).barrier().expected() == old(self).barrier().expected(),
            final(self).barrier().finished() == old(self).barrier().finished(),
            final(self).barrier().released(),
            final(self).reports() == old(self).reports(),
    {
        self.barrier.release();
    }

    /// Whether the latch has been released.
    pub fn barrier_released(&self) -> (r: bool)
        ensures
            r == self.barrier().released(),
    {
        self.barrier.is_released()
    }

    /// Accept one client's latency report; the latch must already be
    /// released, as workers only report after passing the barrier.
    pub fn on_report(&mut self, sample: u64)
        requires
            old(self).wf(),
            old(self).barrier().released(),
        ensures
            final(self).wf(),
            final(self).barrier() == old(self).barrier(),
            final(self).reports() == old(self).reports().push(sample),
    {
        self.aggregator.record(sample);
    }

    /// How many reports have been collected.
    pub fn report_count(&self) -> (n: usize)
        ensures
            n == self.reports().len(),
    {
        self.aggregator.count()
    }

    /// The run's summary: the floor average of all collected reports.
    pub fn summary(&self) -> (avg: u64)
        requires
            self.reports().len() > 0,
            sum_of(self.reports()) <= u64::MAX,
        ensures
            avg == sum_of(self.reports()) / self.reports().len() as int,
    {
        self.aggregator.average()
    }

    /// The summary, guarded for no reports or an overflowing sum.
    pub fn try_summary(&self) -> (r: Option<u64>)
        ensures
            (self.reports().len() == 0 || sum_of(self.reports()) > u64::MAX) ==> r is None,
            (self.reports().len() > 0 && sum_of(self.reports()) <= u64::MAX) ==> r
                == Option::Some((sum_of(self.reports()) / self.reports().len() as int) as u64),
    {
        self.aggregator.try_average()
    }
}

} // verus!
