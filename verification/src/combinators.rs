//! The decisions of the step combinators of a flow: retrying a step,
//! looping while a condition holds, waiting for a condition, and tallying
//! the flows joined after running in parallel. The steps themselves are
//! user futures, run by the program around the library, which hands each
//! outcome to these functions and acts on what they answer.

use vstd::prelude::*;
use crate::text::{decimal, decimal_string};

verus! {

/// What to do after an attempt of a retried step.
#[derive(Debug, Clone, Copy, PartialEq, Eq, Structural)]
pub enum RetryStep {
    /// The attempt succeeded: the step is done.
    Succeeded,
    /// The attempt failed and attempts are left: wait, then try again.
    Retry,
    /// The last attempt failed: the step fails with its error.
    GiveUp,
}

/// After attempt `attempt` (counted from 0) of a step allowed
/// `max_retries` retries: done on success, another attempt while
/// `attempt < max_retries`, else give up.
pub fn retry_step(attempt: usize, max_retries: usize, succeeded: bool) -> (r: RetryStep)
    ensures
        succeeded ==> r == RetryStep::Succeeded,
        !succeeded && attempt < max_retries ==> r == RetryStep::Retry,
        !succeeded && attempt >= max_retries ==> r == RetryStep::GiveUp,
{
    if succeeded {
        RetryStep::Succeeded
    } else if attempt < max_retries {
        RetryStep::Retry
    } else {
        RetryStep::GiveUp
    }
}

/// What a loop step does next.
#[derive(Debug, Clone, Copy, PartialEq, Eq, Structural)]
pub enum LoopStep {
    /// Run the body once more.
    Run,
    /// The condition no longer holds: leave the loop.
    ConditionFalse,
    /// The iteration limit is reached: leave the loop.
    LimitReached,
}

/// Before iteration `iteration` (counted from 0) of a loop limited to
/// `max_iterations`: the limit is checked first, then the condition
/// (`condition_holds`, which is only asked for below the limit).
pub fn loop_step(iteration: usize, max_iterations: usize, condition_holds: bool) -> (r: LoopStep)
    ensures
        iteration >= max_iterations ==> r == LoopStep::LimitReached,
        iteration < max_iterations && !condition_holds ==> r == LoopStep::ConditionFalse,
        iteration < max_iterations && condition_holds ==> r == LoopStep::Run,
{
    if iteration >= max_iterations {
        LoopStep::LimitReached
    } else if !condition_holds {
        LoopStep::ConditionFalse
    } else {
        LoopStep::Run
    }
}

/// Whether a wait allowed `max_retry` checks makes check number
/// `attempt` (counted from 0).
pub fn wait_checks_again(attempt: usize, max_retry: usize) -> (r: bool)
    ensures
        r == (attempt < max_retry),
{
    attempt < max_retry
}

/// The error of a wait whose condition never held.
pub fn wait_failed_message(max_retry: usize) -> (r: String)
    ensures
        r@ == "wait_until: condition not met after "@ + decimal(max_retry as nat) + " retries"@,
{
    let mut m = "wait_until: condition not met after ".to_string();
    let n = decimal_string(max_retry as u64);
    m.append(n.as_str());
    m.append(" retries");
    m
}

/// The message of a join that had failures.
pub open spec fn join_failure_text(failed: nat, total: nat) -> Seq<char> {
    "parallel execution had "@ + decimal(failed) + " failures out of "@ + decimal(total) + " tasks"@
}

/// Counts of the flows joined after running in parallel.
#[derive(Debug, Clone, Copy, PartialEq, Eq, Structural)]
pub struct JoinTally {
    pub success: usize,
    pub failed: usize,
}

impl JoinTally {
    /// No flow joined yet.
    pub fn new() -> (r: Self)
        ensures
            r.success == 0,
            r.failed == 0,
    {
        JoinTally { success: 0, failed: 0 }
    }

    /// Counts one joined flow, successful or failed.
    pub fn record(&mut self, succeeded: bool)
        requires
            old(self).success + old(self).failed < usize::MAX,
        ensures
            succeeded ==> final(self).success == old(self).success + 1 && final(self).failed == old(self).failed,
            !succeeded ==> final(self).failed == old(self).failed + 1 && final(self).success == old(self).success,
    {
        if succeeded {
            self.success = self.success + 1;
        } else {
            self.failed = self.failed + 1;
        }
    }

    /// The number of flows joined.
    pub fn total(&self) -> (r: usize)
        requires
            self.success + self.failed <= usize::MAX,
        ensures
            r == self.success + self.failed,
    {
        self.success + self.failed
    }

    /// The variables a join of the step `name` sets: the successes, the
    /// failures and the total, under `<name>_parallel_success`,
    /// `<name>_parallel_failed` and `<name>_parallel_total`.
    pub fn variables(&self, name: &str) -> (r: Vec<(String, String)>)
        requires
            self.success + self.failed <= usize::MAX,
        ensures
            r@.len() == 3,
            r@[0].0@ == name@ + "_parallel_success"@ && r@[0].1@ == decimal(self.success as nat),
            r@[1].0@ == name@ + "_parallel_failed"@ && r@[1].1@ == decimal(self.failed as nat),
            r@[2].0@ == name@ + "_parallel_total"@ && r@[2].1@ == decimal((self.success + self.failed) as nat),
    {
        let mut out: Vec<(String, String)> = Vec::new();
        let mut k = name.to_string();
        k.append("_parallel_success");
        out.push((k, decimal_string(self.success as u64)));
        let mut k = name.to_string();
        k.append("_parallel_failed");
        out.push((k, decimal_string(self.failed as u64)));
        let mut k = name.to_string();
        k.append("_parallel_total");
        let total = self.total();
        out.push((k, decimal_string(total as u64)));
        out
    }

    /// The join's outcome: success when no flow failed, else the count of
    /// failures out of all flows.
    pub fn outcome(&self) -> (r: Result<(), String>)
        requires
            self.success + self.failed <= usize::MAX,
        ensures
            self.failed == 0 ==> r is Ok,
            self.failed > 0 ==> (r matches Err(m) && m@ == join_failure_text(self.failed as nat, (self.success + self.failed) as nat)),
    {
        if self.failed > 0 {
            let mut m = "parallel execution had ".to_string();
            let f = decimal_string(self.failed as u64);
            m.append(f.as_str());
            m.append(" failures out of ");
            let t = decimal_string(self.total() as u64);
            m.append(t.as_str());
            m.append(" tasks");
            Err(m)
        } else {
            Ok(())
        }
    }
}

} // verus!
