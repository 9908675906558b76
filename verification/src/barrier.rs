//! Cross-group counting barrier.
//!
//! A many-producers/one-consumer rendezvous: every group worker contributes
//! exactly one cycle-finished signal per client of its group, and the
//! session controller releases the latch only once every expected signal —
//! one per client across all groups — has been counted. Workers observe the
//! release (in the running process, as a liveness send that starts
//! failing) and only then proceed to termination. The counter never
//! decreases and the latch, once released, stays released, so releasing with
//! fewer signals than expected is impossible.

use vstd::prelude::*;

verus! {

/// State of the rendezvous for one simulation run.
pub struct Barrier {
    expected: u64,
    finished: u64,
    released: bool,
}

impl Barrier {
    /// Total signals awaited: one per client across all groups.
    pub closed spec fn expected(self) -> u64 {
        self.expected
    }

    /// Signals counted so far.
    pub closed spec fn finished(self) -> u64 {
        self.finished
    }

    /// Whether the latch has been released.
    pub closed spec fn released(self) -> bool {
        self.released
    }

    /// The barrier invariant: the count never passes the expected total,
    /// and a released barrier has counted the full total.
    pub open spec fn wf(self) -> bool {
        self.finished() <= self.expected() && (self.released() ==> self.finished()
            == self.expected())
    }

    /// A fresh barrier awaiting `expected` signals, nothing released.
    pub fn new(expected: u64) -> (b: Barrier)
        ensures
            b.wf(),
            b.expected() == expected,
            b.finished() == 0,
            !b.released(),
    {
        Barrier { expected, finished: 0, released: false }
    }

    /// Count one cycle-finished signal. The count only ever grows.
    pub fn record_finished(&mut self)
        requires
            old(self).wf(),
            old(self).finished() < old(self).expected(),
        ensures
            final(self).wf(),
            final(self).expected() == old(self).expected(),
            final(self).finished() == old(self).finished() + 1,
            !final(self).released(),
    {
        self.finished = self.finished + 1;
    }

    /// Count a whole group's signals: a worker contributes exactly one signal
    /// per client of its group before it may wait at the latch.
    pub fn record_group_finished(&mut self, group_size: u64)
        requires
            old(self).wf(),
            old(self).finished() + group_size <= old(self).expected(),
        ensures
            final(self).wf(),
            final(self).expected() == old(self).expected(),
            final(self).finished() == old(self).finished() + group_size,
            final(self).released() == old(self).released(),
    {
        let mut sent: u64 = 0;
        while sent < group_size
            invariant
                self.wf(),
                sent <= group_size,
                self.expected() == old(self).expected(),
                self.finished() == old(self).finished() + sent,
                old(self).finished() + group_size <= old(self).expected(),
                sent < group_size ==> !self.released(),
                sent > 0 ==> !self.released(),
                sent == 0 ==> self.released() == old(self).released(),
            decreases group_size - sent,
        {
            self.record_finished();
            sent = sent + 1;
        }
    }

    /// Release the latch: allowed only once every expected signal has been
    /// counted, which is the single global condition of the run.
    pub fn release(&mut self)
        requires
            old(self).wf(),
            old(self).finished() == old(self).expected(),
        ensures
            final(self).wf(),
            final(self).expected() == old(self).expected(),
            final(self).finished() == old(self).finished(),
            final(self).released(),
    {
        self.released = true;
    }

    /// What a worker observes at the latch: whether the release has
    /// happened. Until it has, the worker keeps waiting.
    pub fn is_released(&self) -> (r: bool)
        ensures
            r == self.released(),
    {
        self.released
    }
}

/// The release is exact: a released barrier has counted exactly its expected
/// total, so a release with fewer signals cannot exist.
pub proof fn lemma_release_exact(b: Barrier)
    requires
        b.wf(),
    ensures
        b.released() ==> b.finished() == b.expected(),
        b.finished() < b.expected() ==> !b.released(),
{
}

/// With `n` groups of `g` clients each — `n * g` expected signals — the latch
/// can only ever be seen released once all `n * g` signals were counted.
pub proof fn lemma_barrier_groups(b: Barrier, n: u64, g: u64)
    requires
        b.wf(),
        b.expected() == n * g,
    ensures
        b.released() ==> b.finished() == n * g,
        b.finished() != n * g ==> !b.released(),
{
}

} // verus!
