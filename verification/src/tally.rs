use vstd::prelude::*;

verus! {

/// Aggregate success/failure counters for one batch invocation.
#[derive(Debug, Clone, Copy, PartialEq, Eq)]
pub struct BatchTally {
    pub success_count: u64,
    pub failure_count: u64,
}

impl BatchTally {
    /// Total number of outcomes accounted for.
    pub open spec fn total(self) -> int {
        self.success_count + self.failure_count
    }

    /// A tally with both counters at zero, the state before any outcome.
    pub fn empty() -> (r: BatchTally)
        ensures
            r.success_count == 0,
            r.failure_count == 0,
    {
        BatchTally { success_count: 0, failure_count: 0 }
    }
}

/// Sum two workers' tallies, as the aggregator does after joining workers.
pub fn combine_tallies(a: &BatchTally, b: &BatchTally) -> (r: BatchTally)
    requires
        a.success_count + b.success_count <= u64::MAX,
        a.failure_count + b.failure_count <= u64::MAX,
    ensures
        r.success_count == a.success_count + b.success_count,
        r.failure_count == a.failure_count + b.failure_count,
{
    BatchTally {
        success_count: a.success_count + b.success_count,
        failure_count: a.failure_count + b.failure_count,
    }
}

/// The sum of the workers' success counters.
pub open spec fn sum_successes(ts: Seq<BatchTally>) -> int
    decreases ts.len(),
{
    if ts.len() == 0 {
        0
    } else {
        ts.last().success_count + sum_successes(ts.drop_last())
    }
}

/// The sum of the workers' failure counters.
pub open spec fn sum_failures(ts: Seq<BatchTally>) -> int
    decreases ts.len(),
{
    if ts.len() == 0 {
        0
    } else {
        ts.last().failure_count + sum_failures(ts.drop_last())
    }
}

/// A prefix of the workers never counts more than all of them: both sums
/// grow monotonically, from zero.
pub proof fn lemma_sum_prefix_bound(ts: Seq<BatchTally>, i: int)
    requires
        0 <= i <= ts.len(),
    ensures
        0 <= sum_successes(ts.take(i)) <= sum_successes(ts),
        0 <= sum_failures(ts.take(i)) <= sum_failures(ts),
    decreases ts.len(),
{
    if ts.len() == 0 {
        assert(ts.take(i) =~= ts);
    } else if i == ts.len() {
        assert(ts.take(i) =~= ts);
        lemma_sum_prefix_bound(ts.drop_last(), i - 1);
    } else {
        lemma_sum_prefix_bound(ts.drop_last(), i);
        assert(ts.drop_last().take(i) =~= ts.take(i));
    }
}

/// Join all workers and sum their tallies, as the aggregator does once every
/// worker has reached its terminal state.
pub fn aggregate_tallies(tallies: &Vec<BatchTally>) -> (r: BatchTally)
    requires
        sum_successes(tallies@) <= u64::MAX,
        sum_failures(tallies@) <= u64::MAX,
    ensures
        r.success_count == sum_successes(tallies@),
        r.failure_count == sum_failures(tallies@),
{
    let mut r = BatchTally::empty();
    let mut i: usize = 0;
    while i < tallies.len()
        invariant
            i <= tallies@.len(),
            sum_successes(tallies@) <= u64::MAX,
            sum_failures(tallies@) <= u64::MAX,
            r.success_count == sum_successes(tallies@.take(i as int)),
            r.failure_count == sum_failures(tallies@.take(i as int)),
        decreases tallies@.len() - i,
    {
        proof {
            lemma_sum_prefix_bound(tallies@, i + 1);
            assert(tallies@.take(i + 1).drop_last() =~= tallies@.take(i as int));
            assert(tallies@.take(i + 1).last() == tallies@[i as int]);
        }
        r = combine_tallies(&r, &tallies[i]);
        i += 1;
    }
    proof {
        assert(tallies@.take(tallies@.len() as int) =~= tallies@);
    }
    r
}

} // verus!
