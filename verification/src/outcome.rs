use vstd::prelude::*;
use crate::chunks::chunk_size_spec;
use crate::chunks::chunks_of;
use crate::chunks::lemma_partition_complete;
use crate::tally::BatchTally;
use crate::tally::sum_failures;
use crate::tally::sum_successes;

verus! {

/// One unit of work: a local file and the remote key it will be stored
/// under. Created by the key deriver, consumed by exactly one worker.
#[derive(Debug, Clone, PartialEq, Eq)]
pub struct UploadTask {
    pub local_path: Vec<u8>,
    pub remote_key: Vec<u8>,
}

/// What the transfer of one file came to: either the object was completed,
/// or the client or the local file system reported an error, kept as text.
#[derive(Debug, Clone, PartialEq, Eq)]
pub enum TransferResult {
    Success,
    Failure { reason: String },
}

/// The per-file record a worker emits after one upload attempt: the task's
/// identity together with how its transfer ended. Never retried or mutated.
#[derive(Debug, Clone, PartialEq, Eq)]
pub struct UploadOutcome {
    pub local_path: Vec<u8>,
    pub remote_key: Vec<u8>,
    pub result: TransferResult,
}

/// The outcome of one task, as a function of that task and its own transfer
/// result alone.
pub open spec fn outcome_spec(task: UploadTask, result: TransferResult) -> UploadOutcome {
    UploadOutcome { local_path: task.local_path, remote_key: task.remote_key, result }
}

/// The outcomes of a chunk: task `i` paired with transfer result `i`.
pub open spec fn outcomes_spec(tasks: Seq<UploadTask>, results: Seq<TransferResult>) -> Seq<
    UploadOutcome,
> {
    Seq::new(tasks.len(), |i: int| outcome_spec(tasks[i], results[i]))
}

/// How many of the outcomes are successes.
pub open spec fn success_count_of(outcomes: Seq<UploadOutcome>) -> int
    decreases outcomes.len(),
{
    if outcomes.len() == 0 {
        0
    } else {
        (if outcomes.last().result is Success {
            1int
        } else {
            0int
        }) + success_count_of(outcomes.drop_last())
    }
}

/// How many of the outcomes are failures.
pub open spec fn failure_count_of(outcomes: Seq<UploadOutcome>) -> int
    decreases outcomes.len(),
{
    if outcomes.len() == 0 {
        0
    } else {
        (if outcomes.last().result is Failure {
            1int
        } else {
            0int
        }) + failure_count_of(outcomes.drop_last())
    }
}

/// Successes and failures together account for every outcome, no outcome
/// for more than one.
pub proof fn lemma_counts_partition(outcomes: Seq<UploadOutcome>)
    ensures
        success_count_of(outcomes) + failure_count_of(outcomes) == outcomes.len(),
        0 <= success_count_of(outcomes) <= outcomes.len(),
        0 <= failure_count_of(outcomes) <= outcomes.len(),
    decreases outcomes.len(),
{
    if outcomes.len() > 0 {
        lemma_counts_partition(outcomes.drop_last());
    }
}

/// Build the record of one finished task.
pub fn make_outcome(task: UploadTask, result: TransferResult) -> (outcome: UploadOutcome)
    ensures
        outcome == outcome_spec(task, result),
{
    UploadOutcome { local_path: task.local_path, remote_key: task.remote_key, result }
}

/// One worker step: record the outcome of the current task and update the
/// worker's local tally. The batch never stops here: whatever the transfer
/// result was, the step succeeds and the worker can move to the next task.
pub fn worker_step(tally: &mut BatchTally, task: UploadTask, result: TransferResult) -> (outcome:
    UploadOutcome)
    requires
        old(tally).success_count < u64::MAX,
        old(tally).failure_count < u64::MAX,
    ensures
        outcome == outcome_spec(task, result),
        outcome.result is Success ==> final(tally).success_count == old(tally).success_count + 1
            && final(tally).failure_count == old(tally).failure_count,
        outcome.result is Failure ==> final(tally).failure_count == old(tally).failure_count + 1
            && final(tally).success_count == old(tally).success_count,
{
    match &result {
        TransferResult::Success => {
            tally.success_count = tally.success_count + 1;
        },
        TransferResult::Failure { .. } => {
            tally.failure_count = tally.failure_count + 1;
        },
    }
    make_outcome(task, result)
}

/// Process one chunk, given the transfer result of each of its tasks:
/// produce the outcome records in chunk order and the chunk's tally.
/// Every task yields exactly one outcome — a failure among the results
/// never cuts the chunk short.
pub fn process_chunk(tasks: Vec<UploadTask>, results: Vec<TransferResult>) -> (r: (
    Vec<UploadOutcome>,
    BatchTally,
))
    requires
        tasks@.len() == results@.len(),
        tasks@.len() <= u64::MAX,
    ensures
        r.0@ == outcomes_spec(tasks@, results@),
        r.0@.len() == tasks@.len(),
        r.1.success_count == success_count_of(r.0@),
        r.1.failure_count == failure_count_of(r.0@),
        r.1.success_count + r.1.failure_count == tasks@.len(),
{
    let ghost tasks0 = tasks@;
    let ghost results0 = results@;
    let n = tasks.len();
    let mut tasks = tasks;
    let mut results = results;
    let mut outcomes: Vec<UploadOutcome> = Vec::new();
    let mut tally = BatchTally::empty();
    let mut i: usize = 0;
    while i < n
        invariant
            i <= n == tasks0.len() == results0.len(),
            n <= u64::MAX,
            tasks@ == tasks0.skip(i as int),
            results@ == results0.skip(i as int),
            outcomes@ == outcomes_spec(tasks0, results0).take(i as int),
            tally.success_count == success_count_of(outcomes@),
            tally.failure_count == failure_count_of(outcomes@),
            tally.success_count + tally.failure_count == i,
        decreases n - i,
    {
        let task = tasks.remove(0);
        let result = results.remove(0);
        proof {
            assert(task == tasks0[i as int]);
            assert(result == results0[i as int]);
            assert(tasks@ =~= tasks0.skip(i + 1));
            assert(results@ =~= results0.skip(i + 1));
        }
        let outcome = worker_step(&mut tally, task, result);
        proof {
            let all = outcomes_spec(tasks0, results0);
            assert(all.take(i + 1).drop_last() =~= all.take(i as int));
            assert(all.take(i + 1).last() == outcome_spec(tasks0[i as int], results0[i as int]));
        }
        outcomes.push(outcome);
        proof {
            let all = outcomes_spec(tasks0, results0);
            assert(outcomes@ =~= all.take(i + 1));
            assert(outcomes@.drop_last() =~= all.take(i as int));
        }
        i += 1;
    }
    proof {
        assert(outcomes@ =~= outcomes_spec(tasks0, results0));
        lemma_counts_partition(outcomes@);
    }
    (outcomes, tally)
}

/// Failure isolation: each task's outcome is a function of that task and its
/// own transfer result alone. If two runs of a chunk differ only in task
/// `i`'s transfer result, every other task still yields the very same
/// outcome, and every task yields exactly one outcome in both runs.
pub proof fn lemma_failure_isolation(
    tasks: Seq<UploadTask>,
    results_a: Seq<TransferResult>,
    results_b: Seq<TransferResult>,
    i: int,
)
    requires
        results_a.len() == tasks.len(),
        results_b.len() == tasks.len(),
        forall|k: int| 0 <= k < tasks.len() && k != i ==> results_a[k] == #[trigger] results_b[k],
    ensures
        outcomes_spec(tasks, results_a).len() == tasks.len(),
        outcomes_spec(tasks, results_b).len() == tasks.len(),
        forall|k: int|
            0 <= k < tasks.len() && k != i ==> #[trigger] outcomes_spec(tasks, results_a)[k]
                == outcomes_spec(tasks, results_b)[k],
{
}

/// The summed length of a sequence of sequences.
pub open spec fn sum_lens<T>(xss: Seq<Seq<T>>) -> int
    decreases xss.len(),
{
    if xss.len() == 0 {
        0
    } else {
        xss.last().len() + sum_lens(xss.drop_last())
    }
}

/// Flattening concatenates, so the flattened length is the sum of the
/// lengths.
pub proof fn lemma_flatten_len<T>(xss: Seq<Seq<T>>)
    ensures
        xss.flatten().len() == sum_lens(xss),
    decreases xss.len(),
{
    if xss.len() == 0 {
    } else {
        lemma_flatten_len(xss.drop_last());
        xss.lemma_flatten_and_flatten_alt_are_equivalent();
        xss.drop_last().lemma_flatten_and_flatten_alt_are_equivalent();
        assert(xss.flatten_alt() == xss.drop_last().flatten_alt() + xss.last());
    }
}

/// Tally correctness for a whole batch: when each worker's tally counts the
/// successes and failures among its own chunk's outcomes, the summed tallies
/// account for every outcome of the batch, each exactly once.
pub proof fn lemma_batch_tally_accounts_for_all(
    per_chunk: Seq<Seq<UploadOutcome>>,
    tallies: Seq<BatchTally>,
)
    requires
        tallies.len() == per_chunk.len(),
        forall|i: int|
            0 <= i < tallies.len() ==> (#[trigger] tallies[i]).success_count == success_count_of(
                per_chunk[i],
            ) && tallies[i].failure_count == failure_count_of(per_chunk[i]),
    ensures
        sum_successes(tallies) + sum_failures(tallies) == per_chunk.flatten().len(),
    decreases per_chunk.len(),
{
    lemma_flatten_len(per_chunk);
    if per_chunk.len() > 0 {
        lemma_batch_tally_accounts_for_all(per_chunk.drop_last(), tallies.drop_last());
        lemma_flatten_len(per_chunk.drop_last());
        lemma_counts_partition(per_chunk.last());
        assert(tallies.last().success_count == success_count_of(per_chunk.last()));
    }
}

/// Tally correctness against the discovered file set: partition the tasks
/// for at most `m` workers, give each worker any transfer results for its
/// chunk, and tally each chunk's outcomes; then the summed success and
/// failure counts add up to the number of discovered files.
pub proof fn lemma_tally_counts_discovered_files(
    tasks: Seq<UploadTask>,
    m: int,
    per_chunk_results: Seq<Seq<TransferResult>>,
    tallies: Seq<BatchTally>,
)
    requires
        m >= 1,
        tasks.len() >= 1,
        per_chunk_results.len() == chunks_of(
            tasks,
            chunk_size_spec(tasks.len() as int, m),
        ).len(),
        forall|i: int|
            0 <= i < per_chunk_results.len() ==> (#[trigger] per_chunk_results[i]).len()
                == chunks_of(tasks, chunk_size_spec(tasks.len() as int, m))[i].len(),
        tallies.len() == per_chunk_results.len(),
        forall|i: int|
            0 <= i < tallies.len() ==> (#[trigger] tallies[i]).success_count == success_count_of(
                outcomes_spec(
                    chunks_of(tasks, chunk_size_spec(tasks.len() as int, m))[i],
                    per_chunk_results[i],
                ),
            ) && tallies[i].failure_count == failure_count_of(
                outcomes_spec(
                    chunks_of(tasks, chunk_size_spec(tasks.len() as int, m))[i],
                    per_chunk_results[i],
                ),
            ),
    ensures
        sum_successes(tallies) + sum_failures(tallies) == tasks.len(),
{
    let cs = chunk_size_spec(tasks.len() as int, m);
    let chunks = chunks_of(tasks, cs);
    let oss = Seq::new(chunks.len(), |i: int| outcomes_spec(chunks[i], per_chunk_results[i]));
    lemma_batch_tally_accounts_for_all(oss, tallies);
    lemma_flatten_len(oss);
    lemma_flatten_len(chunks);
    assert(sum_lens(oss) == sum_lens(chunks)) by {
        lemma_sum_lens_pointwise(oss, chunks);
    }
    lemma_partition_complete(tasks, m);
}

/// Two sequences of sequences with pointwise equal lengths have equal summed
/// lengths.
proof fn lemma_sum_lens_pointwise<A, B>(xss: Seq<Seq<A>>, yss: Seq<Seq<B>>)
    requires
        xss.len() == yss.len(),
        forall|i: int| 0 <= i < xss.len() ==> (#[trigger] xss[i]).len() == yss[i].len(),
    ensures
        sum_lens(xss) == sum_lens(yss),
    decreases xss.len(),
{
    if xss.len() > 0 {
        lemma_sum_lens_pointwise(xss.drop_last(), yss.drop_last());
    }
}

} // verus!
