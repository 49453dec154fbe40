//! Running steps side by side: the settings (concurrency limit, time limit,
//! failing fast, batches), how a run is organised, and how the outcomes of
//! the steps are tallied. Spawning, waiting and timing happen outside.

use vstd::prelude::*;
use std::time::Duration;
use crate::text::{decimal, decimal_string};

verus! {

/// Settings of a parallel run.
#[derive(Debug, Clone, Copy)]
pub struct ParallelConfig {
    /// At most so many steps at once; `None` for no limit.
    pub max_concurrency: Option<usize>,
    /// A time limit per step.
    pub step_timeout: Option<Duration>,
    /// Stop at the first failure.
    pub fail_fast: bool,
    /// Run the steps in batches of this size, one after another.
    pub batch_size: Option<usize>,
}

impl Default for ParallelConfig {
    fn default() -> (r: Self)
        ensures
            r.max_concurrency is None,
            r.step_timeout is None,
            !r.fail_fast,
            r.batch_size is None,
    {
        ParallelConfig { max_concurrency: None, step_timeout: None, fail_fast: false, batch_size: None }
    }
}

impl ParallelConfig {
    /// The default settings with a concurrency limit.
    pub fn with_max_concurrency(concurrency: usize) -> (r: Self)
        ensures
            r.max_concurrency == Some(concurrency),
            r.step_timeout is None,
            !r.fail_fast,
            r.batch_size is None,
    {
        ParallelConfig { max_concurrency: Some(concurrency), ..Self::default() }
    }

    /// The default settings with a time limit per step.
    pub fn with_timeout(timeout: Duration) -> (r: Self)
        ensures
            r.max_concurrency is None,
            r.step_timeout == Some(timeout),
            !r.fail_fast,
            r.batch_size is None,
    {
        ParallelConfig { step_timeout: Some(timeout), ..Self::default() }
    }

    /// The default settings, failing fast.
    pub fn fail_fast() -> (r: Self)
        ensures
            r.max_concurrency is None,
            r.step_timeout is None,
            r.fail_fast,
            r.batch_size is None,
    {
        ParallelConfig { fail_fast: true, ..Self::default() }
    }

    /// The default settings, in batches.
    pub fn batched(batch_size: usize) -> (r: Self)
        ensures
            r.max_concurrency is None,
            r.step_timeout is None,
            !r.fail_fast,
            r.batch_size == Some(batch_size),
    {
        ParallelConfig { batch_size: Some(batch_size), ..Self::default() }
    }

    /// These settings with a concurrency limit.
    pub fn max_concurrency(self, concurrency: usize) -> (r: Self)
        ensures
            r.max_concurrency == Some(concurrency),
            r.step_timeout == self.step_timeout,
            r.fail_fast == self.fail_fast,
            r.batch_size == self.batch_size,
    {
        let mut c = self;
        c.max_concurrency = Some(concurrency);
        c
    }

    /// These settings with a time limit per step.
    pub fn timeout(self, timeout: Duration) -> (r: Self)
        ensures
            r.max_concurrency == self.max_concurrency,
            r.step_timeout == Some(timeout),
            r.fail_fast == self.fail_fast,
            r.batch_size == self.batch_size,
    {
        let mut c = self;
        c.step_timeout = Some(timeout);
        c
    }

    /// These settings, failing fast.
    pub fn with_fail_fast(self) -> (r: Self)
        ensures
            r.max_concurrency == self.max_concurrency,
            r.step_timeout == self.step_timeout,
            r.fail_fast,
            r.batch_size == self.batch_size,
    {
        let mut c = self;
        c.fail_fast = true;
        c
    }

    /// These settings, in batches.
    pub fn batch_size(self, size: usize) -> (r: Self)
        ensures
            r.max_concurrency == self.max_concurrency,
            r.step_timeout == self.step_timeout,
            r.fail_fast == self.fail_fast,
            r.batch_size == Some(size),
    {
        let mut c = self;
        c.batch_size = Some(size);
        c
    }
}

/// What a parallel run came to.
#[derive(Debug)]
pub struct ParallelResults {
    pub success_count: usize,
    pub failed_count: usize,
    pub errors: Vec<String>,
    pub total_duration: Duration,
}

/// Runs steps side by side.
pub struct ParallelExecutor {
    config: ParallelConfig,
}

/// How a run is organised.
#[derive(Debug, Clone, Copy, PartialEq, Eq, Structural)]
pub enum ParallelRoute {
    /// Nothing to run.
    Empty,
    /// In batches of this size, each step after the other.
    Batched(usize),
    /// All at once, at most this many running.
    Limited(usize),
    /// All at once.
    Unlimited,
}

/// Successes and errors of the steps that finished so far.
#[derive(Debug)]
pub struct StepTally {
    pub success_count: usize,
    pub errors: Vec<String>,
}

pub open spec fn step_error_text(index: nat, e: Seq<char>) -> Seq<char> {
    "Step "@ + decimal(index) + ": "@ + e
}

pub open spec fn named_step_error_text(index: nat, name: Seq<char>, e: Seq<char>) -> Seq<char> {
    "Step "@ + decimal(index) + " ("@ + name + "): "@ + e
}

impl ParallelExecutor {
    pub closed spec fn settings(&self) -> ParallelConfig {
        self.config
    }

    /// An executor with the default settings.
    pub fn new() -> (r: Self)
        ensures
            r.settings().max_concurrency is None,
            r.settings().step_timeout is None,
            !r.settings().fail_fast,
            r.settings().batch_size is None,
    {
        ParallelExecutor { config: ParallelConfig::default() }
    }

    /// An executor with the given settings.
    pub fn with_config(config: ParallelConfig) -> (r: Self)
        ensures
            r.settings() == config,
    {
        ParallelExecutor { config }
    }

    /// The settings.
    pub fn config(&self) -> (r: ParallelConfig)
        ensures
            r == self.settings(),
    {
        self.config
    }

    /// How `step_count` steps run: not at all when there are none; in
    /// batches when a batch size is set; else at once, limited or not.
    pub fn route(&self, step_count: usize) -> (r: ParallelRoute)
        ensures
            r == if step_count == 0 {
                ParallelRoute::Empty
            } else {
                match self.settings().batch_size {
                    Some(b) => ParallelRoute::Batched(b),
                    None => match self.settings().max_concurrency {
                        Some(m) => ParallelRoute::Limited(m),
                        None => ParallelRoute::Unlimited,
                    },
                }
            },
    {
        if step_count == 0 {
            ParallelRoute::Empty
        } else {
            match self.config.batch_size {
                Some(b) => ParallelRoute::Batched(b),
                None => match self.config.max_concurrency {
                    Some(m) => ParallelRoute::Limited(m),
                    None => ParallelRoute::Unlimited,
                },
            }
        }
    }

    /// Takes in the outcome of step `index`: a success is counted; a
    /// failure is recorded as `Step <index>: <error>`, and when failing fast
    /// the run stops with `Fail-fast enabled: <error>`.
    pub fn record_step(&self, tally: &mut StepTally, index: usize, outcome: Result<(), String>) -> (stop: Option<String>)
        requires
            old(tally).success_count < usize::MAX,
        ensures
            match outcome {
                Ok(()) => final(tally).success_count == old(tally).success_count + 1
                    && final(tally).errors == old(tally).errors && stop is None,
                Err(e) => final(tally).success_count == old(tally).success_count
                    && final(tally).errors@.len() == old(tally).errors@.len() + 1
                    && final(tally).errors@.drop_last() == old(tally).errors@
                    && final(tally).errors@.last()@ == step_error_text(index as nat, e@)
                    && (self.settings().fail_fast <==> stop is Some)
                    && (stop matches Some(m) ==> m@ == "Fail-fast enabled: "@ + e@),
            },
    {
        match outcome {
            Ok(()) => {
                tally.success_count = tally.success_count + 1;
                None
            },
            Err(e) => {
                let mut msg = "Step ".to_string();
                let digits = decimal_string(index as u64);
                msg.append(digits.as_str());
                msg.append(": ");
                msg.append(e.as_str());
                tally.errors.push(msg);
                proof {
                    assert(tally.errors@.drop_last() =~= old(tally).errors@);
                }
                if self.config.fail_fast {
                    let mut stop = "Fail-fast enabled: ".to_string();
                    stop.append(e.as_str());
                    Some(stop)
                } else {
                    None
                }
            },
        }
    }

    /// Takes in the outcome of step `index` named `name`: a success is
    /// counted; a failure is recorded as `Step <index> (<name>): <error>`,
    /// and when failing fast the run stops with
    /// `Fail-fast enabled: Step <index> (<name>) failed: <error>`.
    pub fn record_named_step(&self, tally: &mut StepTally, index: usize, name: &str, outcome: Result<(), String>) -> (stop: Option<String>)
        requires
            old(tally).success_count < usize::MAX,
        ensures
            match outcome {
                Ok(()) => final(tally).success_count == old(tally).success_count + 1
                    && final(tally).errors == old(tally).errors && stop is None,
                Err(e) => final(tally).success_count == old(tally).success_count
                    && final(tally).errors@.len() == old(tally).errors@.len() + 1
                    && final(tally).errors@.drop_last() == old(tally).errors@
                    && final(tally).errors@.last()@ == named_step_error_text(index as nat, name@, e@)
                    && (self.settings().fail_fast <==> stop is Some)
                    && (stop matches Some(m) ==> m@ == "Fail-fast enabled: Step "@ + decimal(index as nat) + " ("@ + name@
                        + ") failed: "@ + e@),
            },
    {
        match outcome {
            Ok(()) => {
                tally.success_count = tally.success_count + 1;
                None
            },
            Err(e) => {
                let digits = decimal_string(index as u64);
                let mut msg = "Step ".to_string();
                msg.append(digits.as_str());
                msg.append(" (");
                msg.append(name);
                msg.append("): ");
                msg.append(e.as_str());
                tally.errors.push(msg);
                proof {
                    assert(tally.errors@.drop_last() =~= old(tally).errors@);
                }
                if self.config.fail_fast {
                    let mut stop = "Fail-fast enabled: Step ".to_string();
                    stop.append(digits.as_str());
                    stop.append(" (");
                    stop.append(name);
                    stop.append(") failed: ");
                    stop.append(e.as_str());
                    Some(stop)
                } else {
                    None
                }
            },
        }
    }

    /// The results of a run from its tally.
    pub fn results(&self, tally: StepTally, total_duration: Duration) -> (r: ParallelResults)
        ensures
            r.success_count == tally.success_count,
            r.failed_count == tally.errors@.len(),
            r.errors == tally.errors,
            r.total_duration == total_duration,
    {
        let failed_count = tally.errors.len();
        ParallelResults { success_count: tally.success_count, failed_count, errors: tally.errors, total_duration }
    }

    /// The error of a run with failed steps.
    pub fn failure_summary(&self, results: &ParallelResults, batched: bool) -> (r: Option<String>)
        ensures
            results.errors@.len() == 0 <==> r is None,
            r matches Some(m) ==> m@ == (if batched { "Batched execution failed: "@ } else { "Parallel execution failed: "@ })
                + decimal(results.errors@.len() as nat) + " errors occurred"@,
    {
        if results.errors.len() == 0 {
            return None;
        }
        let mut msg = if batched { "Batched execution failed: ".to_string() } else { "Parallel execution failed: ".to_string() };
        let digits = decimal_string(results.errors.len() as u64);
        msg.append(digits.as_str());
        msg.append(" errors occurred");
        Some(msg)
    }
}

/// The size of the next batch: the batch size, or what is left if less.
pub fn next_batch_len(batch_size: usize, remaining: usize) -> (r: usize)
    ensures
        r == if batch_size < remaining { batch_size } else { remaining },
{
    if batch_size < remaining { batch_size } else { remaining }
}

/// The label of step `index` in the context's step logs:
/// `parallel_step_<index>`.
pub fn step_label(index: usize) -> (r: String)
    ensures
        r@ == "parallel_step_"@ + decimal(index as nat),
{
    let mut s = "parallel_step_".to_string();
    let digits = decimal_string(index as u64);
    s.append(digits.as_str());
    s
}

/// The error of step `index` that ran out of time, named or not:
/// `Step <index> timed out` or `Step <index> (<name>) timed out`.
pub fn step_timeout_error(index: usize, name: Option<&str>) -> (r: String)
    ensures
        r@ == match name {
            Some(n) => "Step "@ + decimal(index as nat) + " ("@ + n@ + ") timed out"@,
            None => "Step "@ + decimal(index as nat) + " timed out"@,
        },
{
    let mut s = "Step ".to_string();
    let digits = decimal_string(index as u64);
    s.append(digits.as_str());
    match name {
        Some(n) => {
            s.append(" (");
            s.append(n);
            s.append(") timed out");
        },
        None => {
            s.append(" timed out");
        },
    }
    s
}

} // verus!
