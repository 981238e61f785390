//! The generic worker-pool protocol: a stage pulls items from its bounded
//! queue, declares each as a task in the ledger, runs the handler with a
//! per-attempt timeout, retries timeouts up to the stage's configured
//! maximum, and records the final state — complete, or failed with the
//! attempt count and last error. One item's failure never halts the stage.

use vstd::prelude::*;
use vstd::string::StringExecFns;
use crate::model::{Task, TaskState};
use crate::queue::BoundedQueue;
use crate::store::{TaskResultTree, TasksTree};

verus! {

/// What one attempt at processing an item came to.
pub enum AttemptOutcome {
    /// The handler finished and persisted its result.
    Done,
    /// The attempt exceeded the stage's timeout; worth retrying on an
    /// I/O-bound stage.
    TimedOut,
    /// A non-timeout error with its message; never retried.
    Failed(String),
}

impl Clone for AttemptOutcome {
    fn clone(&self) -> (r: Self)
        ensures
            r == *self,
    {
        match self {
            AttemptOutcome::Done => AttemptOutcome::Done,
            AttemptOutcome::TimedOut => AttemptOutcome::TimedOut,
            AttemptOutcome::Failed(e) => AttemptOutcome::Failed(e.clone()),
        }
    }
}

/// What the protocol does after one attempt.
pub enum StageAction {
    /// Try the same item again.
    Retry,
    /// Mark the item's task complete.
    MarkComplete,
    /// Mark the item's task failed with this attempt count and message.
    MarkFailed(u32, String),
}

/// The per-attempt decision: success completes; a timeout retries while
/// attempts remain within the stage's budget and otherwise fails with the
/// count of attempts made; any other error fails at once — only stalls are
/// considered transient.
pub fn next_action(attempt: u32, max_retries: u32, outcome: AttemptOutcome) -> (r: StageAction)
    requires
        1 <= attempt,
        max_retries < u32::MAX,
        attempt <= max_retries + 1,
    ensures
        match outcome {
            AttemptOutcome::Done => r is MarkComplete,
            AttemptOutcome::TimedOut => if attempt <= max_retries {
                r is Retry
            } else {
                r matches StageAction::MarkFailed(n, m) && n == attempt && m@ == "timed out"@
            },
            AttemptOutcome::Failed(e) => r matches StageAction::MarkFailed(n, m) && n == attempt
                && m@ == e@,
        },
{
    match outcome {
        AttemptOutcome::Done => StageAction::MarkComplete,
        AttemptOutcome::TimedOut => {
            if attempt <= max_retries {
                StageAction::Retry
            } else {
                StageAction::MarkFailed(attempt, String::from_str("timed out"))
            }
        },
        AttemptOutcome::Failed(e) => StageAction::MarkFailed(attempt, e),
    }
}

/// How a run of attempts ends: every attempt made counted, with the final
/// disposition.
pub ghost enum RunVerdict {
    /// The item succeeded on its last attempt; the field is the number of
    /// attempts made.
    AllDone(int),
    /// The item was given up on after this many attempts, with this error
    /// message.
    GaveUp(int, Seq<char>),
}

/// The verdict of driving the per-attempt decision from attempt number
/// `attempt` on, where attempt `a` sees `outcomes[a - 1]`.
pub open spec fn spec_run_verdict_from(
    outcomes: Seq<AttemptOutcome>,
    max_retries: int,
    attempt: int,
) -> RunVerdict
    decreases outcomes.len() + 1 - attempt,
{
    if attempt < 1 || attempt > outcomes.len() {
        RunVerdict::GaveUp(0, Seq::empty())
    } else {
        match outcomes[attempt - 1] {
            AttemptOutcome::Done => RunVerdict::AllDone(attempt),
            AttemptOutcome::Failed(e) => RunVerdict::GaveUp(attempt, e@),
            AttemptOutcome::TimedOut => if attempt <= max_retries {
                spec_run_verdict_from(outcomes, max_retries, attempt + 1)
            } else {
                RunVerdict::GaveUp(attempt, "timed out"@)
            },
        }
    }
}

/// The verdict of a whole run.
pub open spec fn spec_run_verdict(outcomes: Seq<AttemptOutcome>, max_retries: int) -> RunVerdict {
    spec_run_verdict_from(outcomes, max_retries, 1)
}

/// Drive the retry protocol over the outcome each successive attempt would
/// see, returning the attempts made and the final task state recorded.
pub fn run_attempts(outcomes: &Vec<AttemptOutcome>, max_retries: u32) -> (r: (u32, TaskState))
    requires
        max_retries < u32::MAX,
        outcomes@.len() >= max_retries + 1,
    ensures
        match spec_run_verdict(outcomes@, max_retries as int) {
            RunVerdict::AllDone(n) => r.0 == n && r.1 == TaskState::Complete,
            RunVerdict::GaveUp(n, msg) => r.0 == n && (r.1 matches TaskState::AttemptsWithFailure {
                count,
                last_error,
            } && count == n && last_error@ == msg),
        },
{
    let mut attempt: u32 = 1;
    loop
        invariant
            max_retries < u32::MAX,
            outcomes@.len() >= max_retries + 1,
            1 <= attempt <= max_retries + 1,
            spec_run_verdict(outcomes@, max_retries as int) == spec_run_verdict_from(
                outcomes@,
                max_retries as int,
                attempt as int,
            ),
        decreases max_retries + 1 - attempt,
    {
        let outcome = outcomes[attempt as usize - 1].clone();
        match next_action(attempt, max_retries, outcome) {
            StageAction::Retry => {
                attempt += 1;
            },
            StageAction::MarkComplete => {
                return (attempt, TaskState::Complete);
            },
            StageAction::MarkFailed(n, m) => {
                return (attempt, TaskState::AttemptsWithFailure { count: n, last_error: m });
            },
        }
    }
}

/// The retry bound: an item that times out on every attempt is attempted
/// exactly `max_retries + 1` times before being given up on — once on a
/// stage that does not retry at all.
pub proof fn lemma_retry_bound(outcomes: Seq<AttemptOutcome>, max_retries: int, attempt: int)
    requires
        0 <= max_retries,
        1 <= attempt <= max_retries + 1,
        outcomes.len() >= max_retries + 1,
        forall|i: int| 0 <= i < outcomes.len() ==> outcomes[i] is TimedOut,
    ensures
        spec_run_verdict_from(outcomes, max_retries, attempt) == RunVerdict::GaveUp(
            max_retries + 1,
            "timed out"@,
        ),
    decreases max_retries + 1 - attempt,
{
    if attempt <= max_retries {
        lemma_retry_bound(outcomes, max_retries, attempt + 1);
    }
}

/// A stateful stage handler: `set` declares the unit of work and its
/// idempotency key, `process` performs it against the result store, and
/// `idle_message` is what operators see between items.
pub trait Processor {
    type Item;

    /// The handler's own well-formedness, kept across items.
    spec fn inv(&self) -> bool;

    /// Prepare one item: the task record to persist, its ledger key, and a
    /// human-readable label for progress reporting.
    fn set(&mut self, item: Self::Item) -> (r: Result<(Task, String, String), String>)
        requires
            old(self).inv(),
        ensures
            final(self).inv(),
    ;

    /// One attempt at the prepared item, persisting its own result on
    /// success.
    fn process(&mut self, results: &mut TaskResultTree) -> (r: AttemptOutcome)
        requires
            old(self).inv(),
            old(results).inner.wf(),
        ensures
            final(self).inv(),
            final(results).inner.wf(),
    ;

    fn idle_message(&self) -> String;
}

/// The stage runtime: drain the inbound queue, and for each item mark its
/// task in progress, attempt it with the stage's timeout-retry budget, and
/// record the final state — then move on, whatever became of the item.
/// Returns how many items were processed.
pub fn processor<P: Processor>(
    agent: &mut P,
    tasks: &mut TasksTree,
    results: &mut TaskResultTree,
    input: &mut BoundedQueue<P::Item>,
    max_retries_on_timeout: u32,
    startup_time: u64,
) -> (r: usize)
    requires
        max_retries_on_timeout < u32::MAX,
        old(agent).inv(),
        old(tasks).inner.wf(),
        old(results).inner.wf(),
        old(input).wf(),
    ensures
        final(agent).inv(),
        final(tasks).inner.wf(),
        final(results).inner.wf(),
        final(input).wf(),
        final(input).spec_len() == 0,
        r == old(input).spec_len(),
{
    let total = input.len();
    let mut processed: usize = 0;
    loop
        invariant
            max_retries_on_timeout < u32::MAX,
            agent.inv(),
            tasks.inner.wf(),
            results.inner.wf(),
            input.wf(),
            total == old(input).spec_len(),
            processed + input.spec_len() == total,
        decreases input.spec_len(),
    {
        let item = match input.try_recv() {
            Some(item) => item,
            None => {
                return processed;
            },
        };
        processed += 1;
        let (task, key, _label) = match agent.set(item) {
            Ok(prepared) => prepared,
            Err(_) => {
                continue;
            },
        };
        let started = Task {
            stored_at: task.stored_at,
            process: task.process,
            version: task.version,
            state: TaskState::InProgress { start_time: startup_time },
        };
        tasks.upsert(&key, &started, startup_time);
        let mut attempt: u32 = 1;
        loop
            invariant
                max_retries_on_timeout < u32::MAX,
                agent.inv(),
                tasks.inner.wf(),
                results.inner.wf(),
                1 <= attempt <= max_retries_on_timeout + 1,
            decreases max_retries_on_timeout + 1 - attempt,
        {
            let outcome = agent.process(results);
            match next_action(attempt, max_retries_on_timeout, outcome) {
                StageAction::Retry => {
                    attempt += 1;
                },
                StageAction::MarkComplete => {
                    let done = Task {
                        stored_at: started.stored_at,
                        process: started.process.clone(),
                        version: started.version.clone(),
                        state: TaskState::Complete,
                    };
                    tasks.upsert(&key, &done, startup_time);
                    break;
                },
                StageAction::MarkFailed(n, m) => {
                    let failed = Task {
                        stored_at: started.stored_at,
                        process: started.process.clone(),
                        version: started.version.clone(),
                        state: TaskState::AttemptsWithFailure { count: n, last_error: m },
                    };
                    tasks.upsert(&key, &failed, startup_time);
                    break;
                },
            }
        }
    }
}

} // verus!
