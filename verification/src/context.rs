//! The execution context that a flow threads through its steps: variables,
//! accumulated errors, per-step logs and named snapshots of the state.

use vstd::prelude::*;
use std::time::Instant;
use crate::strmap::StrMap;
use crate::ids::{instant_now, new_uuid_string};

verus! {

/// The status that a step log records.
#[derive(Debug, Clone, Copy, PartialEq, Eq, Structural)]
pub enum StepStatus {
    Running,
    Success,
    Failed,
    Skipped,
    Timeout,
}

/// The record of one run of a named step.
#[derive(Debug)]
pub struct StepLog {
    pub step_name: String,
    pub start_time: Instant,
    pub end_time: Option<Instant>,
    pub status: StepStatus,
    pub error_message: Option<String>,
    pub trace_id: String,
}

/// A saved copy of a context's variables, health flag and errors.
#[derive(Debug)]
pub struct ContextSnapshot {
    pub snapshot_id: String,
    pub timestamp: Instant,
    pub variables: StrMap<String>,
    pub ok: bool,
    pub errors: Vec<String>,
    pub description: String,
}

/// The state shared by the steps of one flow run.
#[derive(Debug)]
pub struct FlowContext {
    pub trace_id: String,
    pub ok: bool,
    pub errors: Vec<String>,
    pub step_logs: Vec<StepLog>,
    pub variables: StrMap<String>,
    pub snapshots: StrMap<ContextSnapshot>,
}

/// Counts of a context's step logs by status, with its numbers of variables
/// and errors.
#[derive(Debug, Clone, Copy, PartialEq, Eq, Structural)]
pub struct FlowSummary {
    pub total_steps: usize,
    pub success: usize,
    pub failed: usize,
    pub skipped: usize,
    pub timeout: usize,
    pub variables: usize,
    pub errors: usize,
}

/// The views of a sequence of strings.
pub open spec fn views_of(s: Seq<String>) -> Seq<Seq<char>> {
    s.map_values(|x: String| x@)
}

/// Index of the last log named `name`, if any.
pub open spec fn last_named(logs: Seq<StepLog>, name: Seq<char>) -> Option<int>
    decreases logs.len(),
{
    if logs.len() == 0 {
        None
    } else if logs.last().step_name@ == name {
        Some(logs.len() - 1)
    } else {
        last_named(logs.drop_last(), name)
    }
}

/// Number of logs with the given status.
pub open spec fn count_status(logs: Seq<StepLog>, st: StepStatus) -> nat
    decreases logs.len(),
{
    if logs.len() == 0 {
        0
    } else {
        count_status(logs.drop_last(), st) + if logs.last().status == st { 1nat } else { 0nat }
    }
}

proof fn lemma_last_named(logs: Seq<StepLog>, name: Seq<char>)
    ensures
        match last_named(logs, name) {
            Some(i) => 0 <= i < logs.len() && logs[i].step_name@ == name
                && forall|j: int| i < j < logs.len() ==> logs[j].step_name@ != name,
            None => forall|j: int| 0 <= j < logs.len() ==> logs[j].step_name@ != name,
        },
    decreases logs.len(),
{
    if logs.len() > 0 {
        let d = logs.drop_last();
        lemma_last_named(d, name);
        assert forall|j: int| 0 <= j < d.len() implies d[j] == logs[j] by {}
    }
}

proof fn lemma_count_le(logs: Seq<StepLog>, st: StepStatus)
    ensures
        count_status(logs, st) <= logs.len(),
    decreases logs.len(),
{
    if logs.len() > 0 {
        lemma_count_le(logs.drop_last(), st);
    }
}

/// The log at `i` after it was closed with `status`: only its end time,
/// status and (when given) error message change.
pub open spec fn closed_log(before: StepLog, after: StepLog, status: StepStatus, error: Option<Seq<char>>) -> bool {
    &&& after.step_name == before.step_name
    &&& after.start_time == before.start_time
    &&& after.end_time is Some
    &&& after.status == status
    &&& after.trace_id == before.trace_id
    &&& match error {
        Some(e) => after.error_message is Some && after.error_message->0@ == e,
        None => after.error_message == before.error_message,
    }
}

/// `after` is `before` with the last log named `name` closed as `closed_log`
/// says; when no log has that name the logs are unchanged.
pub open spec fn logs_closed(before: Seq<StepLog>, after: Seq<StepLog>, name: Seq<char>, status: StepStatus, error: Option<Seq<char>>) -> bool {
    match last_named(before, name) {
        Some(i) => {
            &&& after.len() == before.len()
            &&& closed_log(before[i], after[i], status, error)
            &&& forall|j: int| 0 <= j < before.len() && j != i ==> after[j] == before[j]
        },
        None => after == before,
    }
}

/// The text of an error that a failed step adds: `[trace] step: error`.
pub open spec fn step_error_text(trace_id: Seq<char>, step: Seq<char>, error: Seq<char>) -> Seq<char> {
    "["@ + trace_id + "] "@ + step + ": "@ + error
}

/// `after` holds a new snapshot `id` of `before`'s variables, health flag and
/// errors, and is otherwise `before`.
pub open spec fn snapshot_taken(before: &FlowContext, after: &FlowContext, id: Seq<char>, description: Seq<char>) -> bool {
    &&& after.snapshots@.dom() == before.snapshots@.dom().insert(id)
    &&& forall|k: Seq<char>| #[trigger] before.snapshots@.contains_key(k) && k != id
        ==> after.snapshots@[k] == before.snapshots@[k]
    &&& after.snapshots@[id].snapshot_id@ == id
    &&& after.snapshots@[id].variables@ == before.variables@
    &&& after.snapshots@[id].ok == before.ok
    &&& after.snapshots@[id].errors@ == before.errors@
    &&& after.snapshots@[id].description@ == description
    &&& after.trace_id == before.trace_id
    &&& after.ok == before.ok
    &&& after.errors@ == before.errors@
    &&& after.step_logs@ == before.step_logs@
    &&& after.variables@ == before.variables@
}

/// `after` is `before` with variables, health flag and errors taken from
/// `before`'s snapshot `id`.
pub open spec fn rolled_back(before: &FlowContext, after: &FlowContext, id: Seq<char>) -> bool {
    &&& before.snapshots@.contains_key(id)
    &&& after.variables@ == before.snapshots@[id].variables@
    &&& after.ok == before.snapshots@[id].ok
    &&& after.errors@ == before.snapshots@[id].errors@
    &&& after.trace_id == before.trace_id
    &&& after.step_logs@ == before.step_logs@
    &&& after.snapshots@ == before.snapshots@
}

/// What `create_snapshot` does: with a new id it takes the snapshot and
/// succeeds; an id in use is refused, and the context is left unchanged.
pub open spec fn snapshot_outcome(before: &FlowContext, after: &FlowContext, id: Seq<char>, description: Seq<char>, r: Result<(), String>) -> bool {
    match r {
        Ok(()) => !before.snapshots@.contains_key(id) && snapshot_taken(before, after, id, description),
        Err(e) => before.snapshots@.contains_key(id)
            && e@ == "Snapshot with id '"@ + id + "' already exists"@
            && *after == *before,
    }
}

/// What `rollback_to_snapshot` does: with a known id it rolls back and
/// succeeds; an unknown id is refused, and the context is left unchanged.
pub open spec fn rollback_outcome(before: &FlowContext, after: &FlowContext, id: Seq<char>, r: Result<(), String>) -> bool {
    match r {
        Ok(()) => rolled_back(before, after, id),
        Err(e) => !before.snapshots@.contains_key(id)
            && e@ == "Snapshot '"@ + id + "' not found"@
            && *after == *before,
    }
}

/// Everything but the step logs and errors is unchanged.
pub open spec fn same_but_logs(before: &FlowContext, after: &FlowContext) -> bool {
    &&& after.trace_id == before.trace_id
    &&& after.ok == before.ok
    &&& after.variables@ == before.variables@
    &&& after.snapshots@ == before.snapshots@
}

/// Copies a vector of strings.
pub fn copy_strings(v: &Vec<String>) -> (r: Vec<String>)
    ensures
        r@ == v@,
{
    let mut out: Vec<String> = Vec::new();
    let mut i: usize = 0;
    while i < v.len()
        invariant
            i <= v@.len(),
            out@ == v@.take(i as int),
        decreases v@.len() - i,
    {
        out.push(v[i].clone());
        proof {
            assert(v@.take(i as int + 1) =~= v@.take(i as int).push(v@[i as int]));
        }
        i = i + 1;
    }
    proof {
        assert(v@.take(v@.len() as int) =~= v@);
    }
    out
}

impl ContextSnapshot {
    /// Copies a snapshot, keeping its clock reading.
    pub fn duplicate(&self) -> (r: ContextSnapshot)
        ensures
            r.snapshot_id == self.snapshot_id,
            r.timestamp == self.timestamp,
            r.variables@ == self.variables@,
            r.ok == self.ok,
            r.errors@ == self.errors@,
            r.description == self.description,
    {
        ContextSnapshot {
            snapshot_id: self.snapshot_id.clone(),
            timestamp: self.timestamp,
            variables: self.variables.duplicate(),
            ok: self.ok,
            errors: copy_strings(&self.errors),
            description: self.description.clone(),
        }
    }
}

/// Runs lists of steps one after another; the steps are user futures, run
/// by the program around the library.
pub struct FlowExecutor;

impl FlowExecutor {
    /// An executor.
    pub fn new() -> (r: Self)
        ensures
            r == (FlowExecutor {}),
    {
        FlowExecutor
    }
}

impl Default for FlowExecutor {
    fn default() -> (r: Self)
        ensures
            r == (FlowExecutor {}),
    {
        FlowExecutor::new()
    }
}

impl Default for FlowContext {
    /// A fresh context under a random trace id.
    fn default() -> (r: Self)
        ensures
            r.trace_id@.len() == 36,
            r.ok,
            r.errors@.len() == 0,
            r.step_logs@.len() == 0,
            r.variables@ == Map::<Seq<char>, String>::empty(),
            r.snapshots@ == Map::<Seq<char>, ContextSnapshot>::empty(),
    {
        FlowContext::new_with_trace_id(new_uuid_string())
    }
}

impl FlowContext {
    /// A fresh context under the given trace id.
    pub fn new_with_trace_id(trace_id: String) -> (r: Self)
        ensures
            r.trace_id == trace_id,
            r.ok,
            r.errors@.len() == 0,
            r.step_logs@.len() == 0,
            r.variables@ == Map::<Seq<char>, String>::empty(),
            r.snapshots@ == Map::<Seq<char>, ContextSnapshot>::empty(),
    {
        FlowContext {
            trace_id,
            ok: true,
            errors: Vec::new(),
            step_logs: Vec::new(),
            variables: StrMap::new(),
            snapshots: StrMap::new(),
        }
    }

    /// Saves the variables, health flag and errors under a new snapshot id;
    /// an id in use is refused.
    pub fn create_snapshot(&mut self, snapshot_id: String, description: String) -> (r: Result<(), String>)
        ensures
            snapshot_outcome(old(self), final(self), snapshot_id@, description@, r),
    {
        if self.snapshots.contains_key(snapshot_id.as_str()) {
            let mut msg = "Snapshot with id '".to_string();
            msg.append(snapshot_id.as_str());
            msg.append("' already exists");
            return Err(msg);
        }
        let snapshot = ContextSnapshot {
            snapshot_id: snapshot_id.clone(),
            timestamp: instant_now(),
            variables: self.variables.duplicate(),
            ok: self.ok,
            errors: copy_strings(&self.errors),
            description,
        };
        let ghost before = self.snapshots@;
        self.snapshots.insert(snapshot_id, snapshot);
        proof {
            assert(self.snapshots@.dom() =~= before.dom().insert(snapshot_id@));
        }
        Ok(())
    }

    /// Restores the variables, health flag and errors saved under a snapshot.
    pub fn rollback_to_snapshot(&mut self, snapshot_id: &str) -> (r: Result<(), String>)
        ensures
            rollback_outcome(old(self), final(self), snapshot_id@, r),
    {
        match self.snapshots.get(snapshot_id) {
            None => {
                let mut msg = "Snapshot '".to_string();
                msg.append(snapshot_id);
                msg.append("' not found");
                Err(msg)
            },
            Some(snapshot) => {
                let vars = snapshot.variables.duplicate();
                let ok = snapshot.ok;
                let errors = copy_strings(&snapshot.errors);
                self.variables = vars;
                self.ok = ok;
                self.errors = errors;
                Ok(())
            },
        }
    }

    /// Deletes a snapshot.
    pub fn remove_snapshot(&mut self, snapshot_id: &str) -> (r: Result<(), String>)
        ensures
            match r {
                Ok(()) => old(self).snapshots@.contains_key(snapshot_id@)
                    && final(self).snapshots@ == old(self).snapshots@.remove(snapshot_id@),
                Err(e) => !old(self).snapshots@.contains_key(snapshot_id@)
                    && e@ == "Snapshot '"@ + snapshot_id@ + "' not found"@
                    && final(self).snapshots@ == old(self).snapshots@,
            },
            same_but_logs(old(self), final(self)) || final(self).snapshots@ != old(self).snapshots@,
            final(self).trace_id == old(self).trace_id,
            final(self).ok == old(self).ok,
            final(self).errors@ == old(self).errors@,
            final(self).step_logs@ == old(self).step_logs@,
            final(self).variables@ == old(self).variables@,
    {
        match self.snapshots.remove(snapshot_id) {
            Some(_) => Ok(()),
            None => {
                let mut msg = "Snapshot '".to_string();
                msg.append(snapshot_id);
                msg.append("' not found");
                Err(msg)
            },
        }
    }

    /// All snapshots, one per id, in the order their ids were first used.
    pub fn list_snapshots(&self) -> (r: Vec<&ContextSnapshot>)
        ensures
            r@.len() == self.snapshots@.dom().len(),
            forall|i: int| 0 <= i < r@.len() ==> #[trigger] self.snapshots@.contains_key(self.snapshots.key_seq()[i])
                && *r@[i] == self.snapshots@[self.snapshots.key_seq()[i]],
            self.snapshots.key_seq().no_duplicates(),
            forall|k: Seq<char>| self.snapshots@.contains_key(k) ==> #[trigger] self.snapshots.key_seq().contains(k),
    {
        let es = self.snapshots.entries();
        proof {
            vstd::seq_lib::seq_to_set_is_finite(self.snapshots.key_seq());
            self.snapshots.key_seq().unique_seq_to_set();
            assert(self.snapshots@.dom() =~= self.snapshots.key_seq().to_set());
        }
        let mut out: Vec<&ContextSnapshot> = Vec::new();
        let mut i: usize = 0;
        while i < es.len()
            invariant
                i <= es@.len(),
                out@.len() == i,
                forall|j: int| 0 <= j < i ==> *out@[j] == #[trigger] es@[j].1,
            decreases es@.len() - i,
        {
            out.push(&es[i].1);
            i = i + 1;
        }
        proof {
            assert forall|i: int| 0 <= i < out@.len() implies #[trigger] self.snapshots@.contains_key(self.snapshots.key_seq()[i])
                && *out@[i] == self.snapshots@[self.snapshots.key_seq()[i]] by {
                assert(es@[i].0@ == self.snapshots.key_seq()[i]);
                assert(self.snapshots.key_seq().contains(self.snapshots.key_seq()[i]));
                assert(*out@[i] == es@[i].1);
            }
        }
        out
    }

    /// Opens a log for a step that starts now.
    pub fn start_step(&mut self, step_name: String)
        ensures
            final(self).step_logs@.len() == old(self).step_logs@.len() + 1,
            final(self).step_logs@.drop_last() == old(self).step_logs@,
            final(self).step_logs@.last().step_name == step_name,
            final(self).step_logs@.last().end_time is None,
            final(self).step_logs@.last().status == StepStatus::Running,
            final(self).step_logs@.last().error_message is None,
            final(self).step_logs@.last().trace_id == old(self).trace_id,
            same_but_logs(old(self), final(self)),
            final(self).errors@ == old(self).errors@,
    {
        let log = StepLog {
            step_name,
            start_time: instant_now(),
            end_time: None,
            status: StepStatus::Running,
            error_message: None,
            trace_id: self.trace_id.clone(),
        };
        self.step_logs.push(log);
        proof {
            assert(self.step_logs@.drop_last() =~= old(self).step_logs@);
        }
    }

    fn find_last_log(&self, step_name: &str) -> (r: Option<usize>)
        ensures
            match r {
                Some(i) => last_named(self.step_logs@, step_name@) == Some(i as int),
                None => last_named(self.step_logs@, step_name@) is None,
            },
    {
        let name = step_name.to_string();
        assert(name@ == step_name@);
        let mut i: usize = self.step_logs.len();
        proof {
            assert(self.step_logs@.take(self.step_logs@.len() as int) =~= self.step_logs@);
        }
        while i > 0
            invariant
                i <= self.step_logs@.len(),
                name@ == step_name@,
                last_named(self.step_logs@, step_name@) == last_named(self.step_logs@.take(i as int), step_name@),
            decreases i,
        {
            let ghost prefix = self.step_logs@.take(i as int);
            proof {
                assert(prefix.drop_last() =~= self.step_logs@.take(i as int - 1));
                assert(prefix.last() == self.step_logs@[i as int - 1]);
            }
            if self.step_logs[i - 1].step_name == name {
                proof {
                    assert(prefix.len() == i);
                    assert(last_named(prefix, step_name@) == Some(i as int - 1));
                }
                return Some(i - 1);
            }
            proof {
                assert(prefix.len() == i);
                assert(prefix.last().step_name@ != step_name@);
                assert(last_named(prefix, step_name@) == last_named(prefix.drop_last(), step_name@));
            }
            i = i - 1;
        }
        proof {
            assert(self.step_logs@.take(0) =~= Seq::<StepLog>::empty());
        }
        None
    }

    fn close_last_log(&mut self, step_name: &str, status: StepStatus, error: Option<String>)
        ensures
            logs_closed(old(self).step_logs@, final(self).step_logs@, step_name@, status,
                match error { Some(e) => Some(e@), None => None }),
            same_but_logs(old(self), final(self)),
            final(self).errors@ == old(self).errors@,
    {
        proof {
            lemma_last_named(self.step_logs@, step_name@);
        }
        match self.find_last_log(step_name) {
            None => {},
            Some(i) => {
                let old_log = &self.step_logs[i];
                let error_message = match error {
                    Some(e) => Some(e),
                    None => match &old_log.error_message {
                        Some(m) => Some(m.clone()),
                        None => None,
                    },
                };
                let new_log = StepLog {
                    step_name: old_log.step_name.clone(),
                    start_time: old_log.start_time,
                    end_time: Some(instant_now()),
                    status,
                    error_message,
                    trace_id: old_log.trace_id.clone(),
                };
                self.step_logs.set(i, new_log);
            },
        }
    }

    /// Marks the last log of the named step as succeeded.
    pub fn end_step_success(&mut self, step_name: &str)
        ensures
            logs_closed(old(self).step_logs@, final(self).step_logs@, step_name@, StepStatus::Success, None),
            same_but_logs(old(self), final(self)),
            final(self).errors@ == old(self).errors@,
    {
        self.close_last_log(step_name, StepStatus::Success, None);
    }

    /// Marks the last log of the named step as failed with `error`, and adds
    /// the error to the context's errors.
    pub fn end_step_failed(&mut self, step_name: &str, error: &str)
        ensures
            logs_closed(old(self).step_logs@, final(self).step_logs@, step_name@, StepStatus::Failed, Some(error@)),
            same_but_logs(old(self), final(self)),
            final(self).errors@.len() == old(self).errors@.len() + 1,
            final(self).errors@.drop_last() == old(self).errors@,
            final(self).errors@.last()@ == step_error_text(old(self).trace_id@, step_name@, error@),
    {
        self.close_last_log(step_name, StepStatus::Failed, Some(error.to_string()));
        let msg = self.error_text(step_name, error);
        self.errors.push(msg);
        proof {
            assert(self.errors@.drop_last() =~= old(self).errors@);
        }
    }

    fn error_text(&self, step_name: &str, error: &str) -> (r: String)
        ensures
            r@ == step_error_text(self.trace_id@, step_name@, error@),
    {
        let mut msg = "[".to_string();
        msg.append(self.trace_id.as_str());
        msg.append("] ");
        msg.append(step_name);
        msg.append(": ");
        msg.append(error);
        proof {
            assert(msg@ =~= step_error_text(self.trace_id@, step_name@, error@));
        }
        msg
    }

    /// Marks the last log of the named step as skipped.
    pub fn end_step_skipped(&mut self, step_name: &str, reason: &str)
        ensures
            logs_closed(old(self).step_logs@, final(self).step_logs@, step_name@, StepStatus::Skipped, None),
            same_but_logs(old(self), final(self)),
            final(self).errors@ == old(self).errors@,
    {
        self.close_last_log(step_name, StepStatus::Skipped, None);
    }

    /// Marks the last log of the named step as timed out, and adds a timeout
    /// error to the context's errors.
    pub fn end_step_timeout(&mut self, step_name: &str)
        ensures
            logs_closed(old(self).step_logs@, final(self).step_logs@, step_name@, StepStatus::Timeout, None),
            same_but_logs(old(self), final(self)),
            final(self).errors@.len() == old(self).errors@.len() + 1,
            final(self).errors@.drop_last() == old(self).errors@,
            final(self).errors@.last()@ == step_error_text(old(self).trace_id@, step_name@, "timeout"@),
    {
        self.close_last_log(step_name, StepStatus::Timeout, None);
        let msg = self.error_text(step_name, "timeout");
        self.errors.push(msg);
        proof {
            assert(self.errors@.drop_last() =~= old(self).errors@);
        }
    }

    /// Sets a variable, replacing any earlier value.
    pub fn set_variable(&mut self, key: String, value: String)
        ensures
            final(self).variables@ == old(self).variables@.insert(key@, value),
            final(self).trace_id == old(self).trace_id,
            final(self).ok == old(self).ok,
            final(self).errors@ == old(self).errors@,
            final(self).step_logs@ == old(self).step_logs@,
            final(self).snapshots@ == old(self).snapshots@,
    {
        self.variables.insert(key, value);
    }

    /// The value of a variable, if set.
    pub fn get_variable(&self, key: &str) -> (r: Option<&String>)
        ensures
            match r {
                Some(v) => self.variables@.contains_key(key@) && *v == self.variables@[key@],
                None => !self.variables@.contains_key(key@),
            },
    {
        self.variables.get(key)
    }

    /// Counts of the step logs by status, with the numbers of variables and
    /// errors.
    pub fn summary(&self) -> (r: FlowSummary)
        ensures
            r.total_steps == self.step_logs@.len(),
            r.success == count_status(self.step_logs@, StepStatus::Success),
            r.failed == count_status(self.step_logs@, StepStatus::Failed),
            r.skipped == count_status(self.step_logs@, StepStatus::Skipped),
            r.timeout == count_status(self.step_logs@, StepStatus::Timeout),
            r.variables == self.variables@.dom().len(),
            r.errors == self.errors@.len(),
    {
        FlowSummary {
            total_steps: self.step_logs.len(),
            success: count_logs(&self.step_logs, StepStatus::Success),
            failed: count_logs(&self.step_logs, StepStatus::Failed),
            skipped: count_logs(&self.step_logs, StepStatus::Skipped),
            timeout: count_logs(&self.step_logs, StepStatus::Timeout),
            variables: self.variables.len(),
            errors: self.errors.len(),
        }
    }
}

/// Number of logs with the given status.
pub fn count_logs(logs: &Vec<StepLog>, st: StepStatus) -> (r: usize)
    ensures
        r == count_status(logs@, st),
{
    let mut n: usize = 0;
    let mut i: usize = 0;
    while i < logs.len()
        invariant
            i <= logs@.len(),
            n == count_status(logs@.take(i as int), st),
        decreases logs@.len() - i,
    {
        proof {
            assert(logs@.take(i as int + 1).drop_last() =~= logs@.take(i as int));
            lemma_count_le(logs@.take(i as int), st);
        }
        if logs[i].status == st {
            n = n + 1;
        }
        i = i + 1;
    }
    proof {
        assert(logs@.take(logs@.len() as int) =~= logs@);
    }
    n
}

/// A snapshot that was taken and then rolled back to, with the snapshot
/// itself left alone in between (by setting variables, logging steps or
/// touching other snapshots), is found: the rollback succeeds and restores
/// the variables, health flag and errors that the context had when the
/// snapshot was taken, keeping the trace id, the step logs and the
/// snapshots of the moment of the rollback.
pub proof fn law_rollback_restores_snapshot(
    before: &FlowContext,
    taken: &FlowContext,
    later: &FlowContext,
    restored: &FlowContext,
    id: Seq<char>,
    description: Seq<char>,
    made: Result<(), String>,
    back: Result<(), String>,
)
    requires
        snapshot_outcome(before, taken, id, description, made),
        made is Ok,
        later.snapshots@.contains_key(id),
        later.snapshots@[id] == taken.snapshots@[id],
        rollback_outcome(later, restored, id, back),
    ensures
        back is Ok,
        restored.variables@ == taken.variables@,
        restored.variables@ == before.variables@,
        restored.ok == before.ok,
        restored.errors@ == before.errors@,
        restored.trace_id == later.trace_id,
        restored.step_logs@ == later.step_logs@,
        restored.snapshots@ == later.snapshots@,
{
}

/// Rolling back to an id that names no snapshot fails with
/// `Snapshot '<id>' not found` and leaves the context as it was.
pub proof fn law_rollback_unknown_snapshot(before: &FlowContext, after: &FlowContext, id: Seq<char>, back: Result<(), String>)
    requires
        !before.snapshots@.contains_key(id),
        rollback_outcome(before, after, id, back),
    ensures
        back matches Err(e) && e@ == "Snapshot '"@ + id + "' not found"@,
        *after == *before,
{
}

/// A variable that was set reads back as the value written, and setting a
/// variable leaves every other variable as it was.
pub proof fn law_set_then_get(before: &FlowContext, after: &FlowContext, key: Seq<char>, value: String, other: Seq<char>)
    requires
        after.variables@ == before.variables@.insert(key, value),
    ensures
        after.variables@.contains_key(key),
        after.variables@[key] == value,
        other != key ==> (after.variables@.contains_key(other) == before.variables@.contains_key(other)),
        other != key && before.variables@.contains_key(other) ==> after.variables@[other] == before.variables@[other],
{
}


impl StepLog {
    /// A copy of the log, keeping its clock readings.
    pub fn duplicate(&self) -> (r: StepLog)
        ensures
            r == *self,
    {
        StepLog {
            step_name: self.step_name.clone(),
            start_time: self.start_time,
            end_time: self.end_time,
            status: self.status,
            error_message: crate::text::copy_opt(&self.error_message),
            trace_id: self.trace_id.clone(),
        }
    }
}

/// The same snapshot, as far as its fields go.
pub open spec fn same_snapshot(a: ContextSnapshot, b: ContextSnapshot) -> bool {
    &&& a.snapshot_id == b.snapshot_id
    &&& a.timestamp == b.timestamp
    &&& a.variables@ == b.variables@
    &&& a.ok == b.ok
    &&& a.errors@ == b.errors@
    &&& a.description == b.description
}

/// The same context, as far as its fields go.
pub open spec fn same_context(a: FlowContext, b: FlowContext) -> bool {
    &&& a.trace_id == b.trace_id
    &&& a.ok == b.ok
    &&& a.errors@ == b.errors@
    &&& a.step_logs@ == b.step_logs@
    &&& a.variables@ == b.variables@
    &&& a.snapshots@.dom() == b.snapshots@.dom()
    &&& forall|k: Seq<char>| #[trigger] a.snapshots@.contains_key(k) ==> same_snapshot(a.snapshots@[k], b.snapshots@[k])
}

impl FlowContext {
    /// A copy of the context: variables, errors, step logs and snapshots.
    pub fn duplicate(&self) -> (r: FlowContext)
        ensures
            same_context(r, *self),
    {
        let mut logs: Vec<StepLog> = Vec::new();
        let mut i: usize = 0;
        while i < self.step_logs.len()
            invariant
                i <= self.step_logs@.len(),
                logs@ == self.step_logs@.take(i as int),
            decreases self.step_logs@.len() - i,
        {
            logs.push(self.step_logs[i].duplicate());
            proof {
                assert(logs@ =~= self.step_logs@.take(i as int + 1));
            }
            i = i + 1;
        }
        proof {
            assert(self.step_logs@.take(self.step_logs@.len() as int) =~= self.step_logs@);
        }
        let es = self.snapshots.entries();
        let mut snaps: StrMap<ContextSnapshot> = StrMap::new();
        let mut j: usize = 0;
        proof {
            assert forall|k: int| 0 <= k < es@.len() implies #[trigger] es@[k].0@ == self.snapshots.key_seq()[k] && es@[k].1 == self.snapshots.value_seq()[k] by {
                assert(es@[k].0@ == self.snapshots.key_seq()[k]);
            }
        }
        while j < es.len()
            invariant
                j <= es@.len(),
                es@.len() == self.snapshots.key_seq().len(),
                forall|k: int| 0 <= k < es@.len() ==> #[trigger] es@[k].0@ == self.snapshots.key_seq()[k] && es@[k].1 == self.snapshots.value_seq()[k],
                forall|x: Seq<char>| #[trigger] self.snapshots@.contains_key(x) <==> self.snapshots.key_seq().contains(x),
                forall|k: int| 0 <= k < self.snapshots.key_seq().len() ==> #[trigger] self.snapshots@[self.snapshots.key_seq()[k]] == self.snapshots.value_seq()[k],
                self.snapshots.key_seq().no_duplicates(),
                snaps@.dom() == self.snapshots.key_seq().take(j as int).to_set(),
                forall|x: Seq<char>| #[trigger] snaps@.contains_key(x) ==> same_snapshot(snaps@[x], self.snapshots@[x]),
            decreases es@.len() - j,
        {
            let key = es[j].0.clone();
            let s = es[j].1.duplicate();
            proof {
                assert(es@[j as int].0@ == self.snapshots.key_seq()[j as int]);
                assert(self.snapshots@[key@] == es@[j as int].1);
            }
            snaps.insert(key, s);
            proof {
                let a = self.snapshots.key_seq().take(j as int);
                let b = self.snapshots.key_seq().take(j as int + 1);
                assert(b =~= a.push(key@));
                assert forall|x: Seq<char>| b.to_set().contains(x) <==> snaps@.dom().contains(x) by {
                    if b.contains(x) {
                        let m = choose|m: int| 0 <= m < b.len() && b[m] == x;
                        if m < j {
                            assert(a[m] == x);
                            assert(a.contains(x));
                        }
                    }
                    if snaps@.dom().contains(x) && x != key@ {
                        assert(a.to_set().contains(x));
                        let m = choose|m: int| 0 <= m < a.len() && a[m] == x;
                        assert(b[m] == x);
                    }
                    if x == key@ {
                        assert(b[j as int] == x);
                    }
                }
                assert(snaps@.dom() =~= b.to_set());
            }
            j = j + 1;
        }
        proof {
            assert(self.snapshots.key_seq().take(es@.len() as int) =~= self.snapshots.key_seq());
            assert forall|x: Seq<char>| snaps@.dom().contains(x) <==> self.snapshots@.dom().contains(x) by {
                if self.snapshots@.contains_key(x) {
                    assert(self.snapshots.key_seq().contains(x));
                }
            }
            assert(snaps@.dom() =~= self.snapshots@.dom());
        }
        FlowContext {
            trace_id: self.trace_id.clone(),
            ok: self.ok,
            errors: copy_strings(&self.errors),
            step_logs: logs,
            variables: self.variables.duplicate(),
            snapshots: snaps,
        }
    }
}

} // verus!
