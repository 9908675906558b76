//! Latency aggregation: per-client round-trip samples and their average.
//!
//! Workers report one `u64` millisecond duration per client at the end of
//! the run; the aggregate is the integer floor of their sum divided by
//! their count. An average of zero samples is undefined and is guarded
//! against, never computed.

use vstd::prelude::*;

verus! {

/// Sum of all samples, as an unbounded integer.
pub open spec fn sum_of(s: Seq<u64>) -> int
    decreases s.len(),
{
    if s.len() == 0 {
        0
    } else {
        sum_of(s.drop_last()) + s.last()
    }
}

/// Extending a prefix by one sample adds that sample to its sum.
pub proof fn lemma_sum_take_step(s: Seq<u64>, k: int)
    requires
        0 <= k < s.len(),
    ensures
        sum_of(s.take(k + 1)) == sum_of(s.take(k)) + s[k],
{
    assert(s.take(k + 1).drop_last() =~= s.take(k));
    assert(s.take(k + 1).last() == s[k]);
}

/// No prefix sums to more than the whole sequence.
pub proof fn lemma_sum_prefix(s: Seq<u64>, k: int)
    requires
        0 <= k <= s.len(),
    ensures
        sum_of(s.take(k)) <= sum_of(s),
    decreases s.len() - k,
{
    if k == s.len() {
        assert(s.take(k) =~= s);
    } else {
        lemma_sum_take_step(s, k);
        lemma_sum_prefix(s, k + 1);
    }
}

/// Integer-floor average of the samples. The samples must exist and their
/// sum must fit the machine word; both are the caller's obligation, as the
/// controller guarantees at least one client.
pub fn average(values: &Vec<u64>) -> (avg: u64)
    requires
        values@.len() > 0,
        sum_of(values@) <= u64::MAX,
    ensures
        avg == sum_of(values@) / values@.len() as int,
{
    let n: usize = values.len();
    let mut total: u64 = 0;
    let mut i: usize = 0;
    while i < n
        invariant
            n == values@.len(),
            i <= n,
            sum_of(values@) <= u64::MAX,
            total == sum_of(values@.take(i as int)),
        decreases n - i,
    {
        proof {
            lemma_sum_take_step(values@, i as int);
            lemma_sum_prefix(values@, i as int + 1);
        }
        total = total + values[i];
        i = i + 1;
    }
    proof {
        assert(values@.take(n as int) =~= values@);
    }
    total / (n as u64)
}

/// Average guarded against the undefined cases: `None` when there are no
/// samples, or when their sum does not fit a `u64`; the floor average
/// otherwise.
pub fn try_average(values: &Vec<u64>) -> (r: Option<u64>)
    ensures
        (values@.len() == 0 || sum_of(values@) > u64::MAX) ==> r is None,
        (values@.len() > 0 && sum_of(values@) <= u64::MAX) ==> r == Option::Some(
            (sum_of(values@) / values@.len() as int) as u64,
        ),
{
    let n: usize = values.len();
    if n == 0 {
        return Option::None;
    }
    let mut total: u64 = 0;
    let mut i: usize = 0;
    while i < n
        invariant
            n == values@.len(),
            i <= n,
            total == sum_of(values@.take(i as int)),
        decreases n - i,
    {
        proof {
            lemma_sum_take_step(values@, i as int);
        }
        let v: u64 = values[i];
        if v > u64::MAX - total {
            proof {
                lemma_sum_prefix(values@, i as int + 1);
            }
            return Option::None;
        }
        total = total + v;
        i = i + 1;
    }
    proof {
        assert(values@.take(n as int) =~= values@);
    }
    Option::Some(total / (n as u64))
}

/// Collects the per-client round-trip samples of one run.
pub struct LatencyAggregator {
    samples: Vec<u64>,
}

impl LatencyAggregator {
    /// The samples recorded so far, in arrival order.
    pub closed spec fn samples(self) -> Seq<u64> {
        self.samples@
    }

    /// An aggregator with no samples.
    pub fn new() -> (a: LatencyAggregator)
        ensures
            a.samples() == Seq::<u64>::empty(),
    {
        LatencyAggregator { samples: Vec::new() }
    }

    /// Record one reported sample.
    pub fn record(&mut self, sample: u64)
        ensures
            final(self).samples() == old(self).samples().push(sample),
    {
        self.samples.push(sample);
    }

    /// How many samples were recorded.
    pub fn count(&self) -> (n: usize)
        ensures
            n == self.samples().len(),
    {
        self.samples.len()
    }

    /// Integer-floor average over everything recorded.
    pub fn average(&self) -> (avg: u64)
        requires
            self.samples().len() > 0,
            sum_of(self.samples()) <= u64::MAX,
        ensures
            avg == sum_of(self.samples()) / self.samples().len() as int,
    {
        average(&self.samples)
    }

    /// The average, guarded for no samples or an overflowing sum.
    pub fn try_average(&self) -> (r: Option<u64>)
        ensures
            (self.samples().len() == 0 || sum_of(self.samples()) > u64::MAX) ==> r is None,
            (self.samples().len() > 0 && sum_of(self.samples()) <= u64::MAX) ==> r
                == Option::Some((sum_of(self.samples()) / self.samples().len() as int) as u64),
    {
        try_average(&self.samples)
    }
}

} // verus!
