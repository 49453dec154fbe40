//! Log records of a flow: what is logged, at which level, under which trace
//! id and with which fields. Writing the records out happens outside.

use vstd::prelude::*;
use std::time::Instant;
use crate::context::{FlowContext, StepLog, StepStatus, count_status, count_logs};
use crate::runtime::LogLevel;
use crate::ids::{duration_between, duration_millis, new_uuid_string, span_between, whole_millis};
use crate::text::{decimal, decimal_string, decimal_string_wide};

verus! {

/// One log event: level, trace id, message and named fields.
#[derive(Debug)]
pub struct LogRecord {
    pub level: LogLevel,
    pub trace_id: String,
    pub message: String,
    pub fields: Vec<(String, String)>,
}

/// Logs under one trace id.
#[derive(Debug)]
pub struct Logger {
    pub trace_id: String,
}

pub open spec fn fields_view(v: Seq<(String, String)>) -> Seq<(Seq<char>, Seq<char>)> {
    v.map_values(|p: (String, String)| (p.0@, p.1@))
}

/// The whole milliseconds from a step's start to its end, as
/// `end.duration_since(start).as_millis()` gives them; zero while it has
/// not ended.
pub open spec fn step_millis(l: StepLog) -> nat {
    match l.end_time {
        Some(e) => whole_millis(span_between(l.start_time, e)) as nat,
        None => 0,
    }
}

/// The milliseconds from a step's start to its end; zero while it has not
/// ended.
fn elapsed_millis(start: &Instant, end: &Option<Instant>) -> (r: u128)
    ensures
        end is None ==> r == 0,
        end matches Some(e) ==> r == whole_millis(span_between(*start, *e)),
{
    match end {
        Some(e) => duration_millis(&duration_between(start, e)),
        None => 0,
    }
}

fn record(level: LogLevel, trace_id: &String, message: &str, fields: Vec<(String, String)>) -> (r: LogRecord)
    ensures
        r.level == level,
        r.trace_id@ == trace_id@,
        r.message@ == message@,
        r.fields == fields,
{
    LogRecord { level, trace_id: trace_id.clone(), message: message.to_string(), fields }
}

fn field(name: &str, value: String) -> (r: (String, String))
    ensures
        r.0@ == name@,
        r.1 == value,
{
    (name.to_string(), value)
}

/// The fields of a step log's record: its trace id and name, and, once it
/// ended, how long it took and for a failure the error.
pub open spec fn step_record_ok(l: StepLog, r: LogRecord) -> bool {
    &&& r.trace_id@ == l.trace_id@
    &&& r.fields@.len() >= 2
    &&& r.fields@[0].0@ == "trace_id"@ && r.fields@[0].1@ == l.trace_id@
    &&& r.fields@[1].0@ == "step_name"@ && r.fields@[1].1@ == l.step_name@
    &&& match l.status {
        StepStatus::Success => r.level == LogLevel::Info && r.message@ == "Step completed successfully"@
            && r.fields@.len() == 3 && r.fields@[2].0@ == "duration_ms"@ && r.fields@[2].1@ == decimal(step_millis(l)),
        StepStatus::Failed => r.level == LogLevel::Error && r.message@ == "Step failed"@
            && r.fields@.len() == 4 && r.fields@[2].0@ == "duration_ms"@ && r.fields@[2].1@ == decimal(step_millis(l))
            && r.fields@[3].0@ == "error"@ && r.fields@[3].1@ == match l.error_message {
                Some(e) => e@,
                None => "Unknown error"@,
            },
        StepStatus::Skipped => r.level == LogLevel::Warn && r.message@ == "Step skipped"@
            && r.fields@.len() == 3 && r.fields@[2].0@ == "duration_ms"@ && r.fields@[2].1@ == decimal(step_millis(l)),
        StepStatus::Timeout => r.level == LogLevel::Error && r.message@ == "Step timed out"@
            && r.fields@.len() == 3 && r.fields@[2].0@ == "duration_ms"@ && r.fields@[2].1@ == decimal(step_millis(l)),
        StepStatus::Running => r.level == LogLevel::Warn && r.message@ == "Step still running"@
            && r.fields@.len() == 2,
    }
}

impl Logger {
    /// A logger under a fresh random trace id.
    pub fn new() -> (r: Self)
        ensures
            r.trace_id@.len() == 36,
    {
        Logger { trace_id: new_uuid_string() }
    }

    /// A logger under the given trace id.
    pub fn with_trace_id(trace_id: String) -> (r: Self)
        ensures
            r.trace_id == trace_id,
    {
        Logger { trace_id }
    }

    fn at(&self, level: LogLevel, message: &str) -> (r: LogRecord)
        ensures
            r.level == level,
            r.trace_id@ == self.trace_id@,
            r.message@ == message@,
            r.fields@.len() == 0,
    {
        record(level, &self.trace_id, message, Vec::new())
    }

    /// An information record.
    pub fn info(&self, message: &str) -> (r: LogRecord)
        ensures
            r.level == LogLevel::Info,
            r.trace_id@ == self.trace_id@,
            r.message@ == message@,
            r.fields@.len() == 0,
    {
        self.at(LogLevel::Info, message)
    }

    /// A warning record.
    pub fn warn(&self, message: &str) -> (r: LogRecord)
        ensures
            r.level == LogLevel::Warn,
            r.trace_id@ == self.trace_id@,
            r.message@ == message@,
            r.fields@.len() == 0,
    {
        self.at(LogLevel::Warn, message)
    }

    /// An error record.
    pub fn error(&self, message: &str) -> (r: LogRecord)
        ensures
            r.level == LogLevel::Error,
            r.trace_id@ == self.trace_id@,
            r.message@ == message@,
            r.fields@.len() == 0,
    {
        self.at(LogLevel::Error, message)
    }

    /// A debugging record.
    pub fn debug(&self, message: &str) -> (r: LogRecord)
        ensures
            r.level == LogLevel::Debug,
            r.trace_id@ == self.trace_id@,
            r.message@ == message@,
            r.fields@.len() == 0,
    {
        self.at(LogLevel::Debug, message)
    }

    /// The summary of a flow under the flow's trace id: step counts by
    /// status, numbers of variables and errors, then one error record per
    /// error.
    pub fn log_flow_summary(&self, context: &FlowContext) -> (r: Vec<LogRecord>)
        ensures
            r@.len() == 1 + context.errors@.len(),
            r@[0].level == LogLevel::Info,
            r@[0].trace_id@ == context.trace_id@,
            r@[0].message@ == "Flow execution summary"@,
            fields_view(r@[0].fields@) == seq![
                ("total_steps"@, decimal(context.step_logs@.len() as nat)),
                ("success"@, decimal(count_status(context.step_logs@, StepStatus::Success))),
                ("failed"@, decimal(count_status(context.step_logs@, StepStatus::Failed))),
                ("skipped"@, decimal(count_status(context.step_logs@, StepStatus::Skipped))),
                ("timeout"@, decimal(count_status(context.step_logs@, StepStatus::Timeout))),
                ("variables"@, decimal(context.variables@.dom().len())),
                ("errors"@, decimal(context.errors@.len() as nat)),
            ],
            forall|i: int| 0 <= i < context.errors@.len() ==> {
                let e = #[trigger] r@[i + 1];
                &&& e.level == LogLevel::Error
                &&& e.trace_id@ == context.trace_id@
                &&& e.message@ == "Flow error: "@ + context.errors@[i]@
                &&& e.fields@.len() == 0
            },
    {
        let s = context.summary();
        let mut fields: Vec<(String, String)> = Vec::new();
        fields.push(field("total_steps", decimal_string(s.total_steps as u64)));
        fields.push(field("success", decimal_string(s.success as u64)));
        fields.push(field("failed", decimal_string(s.failed as u64)));
        fields.push(field("skipped", decimal_string(s.skipped as u64)));
        fields.push(field("timeout", decimal_string(s.timeout as u64)));
        fields.push(field("variables", decimal_string(s.variables as u64)));
        fields.push(field("errors", decimal_string(s.errors as u64)));
        proof {
            assert(fields_view(fields@) =~= seq![
                ("total_steps"@, decimal(context.step_logs@.len() as nat)),
                ("success"@, decimal(count_status(context.step_logs@, StepStatus::Success))),
                ("failed"@, decimal(count_status(context.step_logs@, StepStatus::Failed))),
                ("skipped"@, decimal(count_status(context.step_logs@, StepStatus::Skipped))),
                ("timeout"@, decimal(count_status(context.step_logs@, StepStatus::Timeout))),
                ("variables"@, decimal(context.variables@.dom().len())),
                ("errors"@, decimal(context.errors@.len() as nat)),
            ]);
        }
        let mut out: Vec<LogRecord> = Vec::new();
        out.push(record(LogLevel::Info, &context.trace_id, "Flow execution summary", fields));
        let mut i: usize = 0;
        while i < context.errors.len()
            invariant
                i <= context.errors@.len(),
                out@.len() == 1 + i,
                out@[0].level == LogLevel::Info,
                out@[0].trace_id@ == context.trace_id@,
                out@[0].message@ == "Flow execution summary"@,
                fields_view(out@[0].fields@) == seq![
                    ("total_steps"@, decimal(context.step_logs@.len() as nat)),
                    ("success"@, decimal(count_status(context.step_logs@, StepStatus::Success))),
                    ("failed"@, decimal(count_status(context.step_logs@, StepStatus::Failed))),
                    ("skipped"@, decimal(count_status(context.step_logs@, StepStatus::Skipped))),
                    ("timeout"@, decimal(count_status(context.step_logs@, StepStatus::Timeout))),
                    ("variables"@, decimal(context.variables@.dom().len())),
                    ("errors"@, decimal(context.errors@.len() as nat)),
                ],
                forall|k: int| 0 <= k < i ==> {
                    let e = #[trigger] out@[k + 1];
                    &&& e.level == LogLevel::Error
                    &&& e.trace_id@ == context.trace_id@
                    &&& e.message@ == "Flow error: "@ + context.errors@[k]@
                    &&& e.fields@.len() == 0
                },
            decreases context.errors@.len() - i,
        {
            let mut msg = "Flow error: ".to_string();
            msg.append(context.errors[i].as_str());
            let ghost before = out@;
            out.push(record(LogLevel::Error, &context.trace_id, msg.as_str(), Vec::new()));
            proof {
                assert forall|k: int| 0 <= k < i implies #[trigger] out@[k + 1] == before[k + 1] by {}
                assert(out@[0] == before[0]);
            }
            i = i + 1;
        }
        out
    }

    /// One record per step log, under the step's trace id: its name, how
    /// long it took once it ended, and for a failure its error.
    pub fn log_step_details(&self, context: &FlowContext) -> (r: Vec<LogRecord>)
        ensures
            r@.len() == context.step_logs@.len(),
            forall|i: int| 0 <= i < r@.len() ==> step_record_ok(context.step_logs@[i], #[trigger] r@[i]),
    {
        let mut out: Vec<LogRecord> = Vec::new();
        let mut i: usize = 0;
        while i < context.step_logs.len()
            invariant
                i <= context.step_logs@.len(),
                out@.len() == i,
                forall|k: int| 0 <= k < i ==> step_record_ok(context.step_logs@[k], #[trigger] out@[k]),
            decreases context.step_logs@.len() - i,
        {
            let l = &context.step_logs[i];
            let mut fields: Vec<(String, String)> = Vec::new();
            fields.push(field("trace_id", l.trace_id.clone()));
            fields.push(field("step_name", l.step_name.clone()));
            let rec = match l.status {
                StepStatus::Running => record(LogLevel::Warn, &l.trace_id, "Step still running", fields),
                _ => {
                    let millis = elapsed_millis(&l.start_time, &l.end_time);
                    fields.push(field("duration_ms", decimal_string_wide(millis)));
                    match l.status {
                        StepStatus::Success => record(LogLevel::Info, &l.trace_id, "Step completed successfully", fields),
                        StepStatus::Failed => {
                            let e = match &l.error_message {
                                Some(m) => m.clone(),
                                None => "Unknown error".to_string(),
                            };
                            fields.push(field("error", e));
                            record(LogLevel::Error, &l.trace_id, "Step failed", fields)
                        },
                        StepStatus::Skipped => record(LogLevel::Warn, &l.trace_id, "Step skipped", fields),
                        _ => record(LogLevel::Error, &l.trace_id, "Step timed out", fields),
                    }
                },
            };
            out.push(rec);
            i = i + 1;
        }
        out
    }
}

impl FlowContext {
    /// The lines of a printed summary: the trace id, the number of steps,
    /// the counts by status, the errors and the variables.
    pub fn print_summary(&self) -> (r: Vec<String>)
        ensures
            r@.len() == 3 + (if self.errors@.len() > 0 { 1 + self.errors@.len() } else { 0 })
                + (if self.variables.key_seq().len() > 0 { 1 + self.variables.key_seq().len() } else { 0 }) + 1,
            r@[0]@ == "\n=== Flow Summary [trace_id: "@ + self.trace_id@ + "] ==="@,
            r@[1]@ == "Total steps: "@ + decimal(self.step_logs@.len() as nat),
            r@[2]@ == "Success: "@ + decimal(count_status(self.step_logs@, StepStatus::Success))
                + ", Failed: "@ + decimal(count_status(self.step_logs@, StepStatus::Failed))
                + ", Skipped: "@ + decimal(count_status(self.step_logs@, StepStatus::Skipped))
                + ", Timeout: "@ + decimal(count_status(self.step_logs@, StepStatus::Timeout)),
            self.errors@.len() > 0 ==> r@[3]@ == "Errors: "@ + decimal(self.errors@.len() as nat)
                && forall|i: int| 0 <= i < self.errors@.len() ==> (#[trigger] r@[4 + i])@ == "  - "@ + self.errors@[i]@,
            self.variables.key_seq().len() > 0 ==> {
                let v: int = 3 + (if self.errors@.len() > 0 { 1 + self.errors@.len() } else { 0 }) as int;
                &&& r@[v]@ == "Variables:"@
                &&& forall|i: int| 0 <= i < self.variables.key_seq().len() ==> (#[trigger] r@[v + 1 + i])@
                    == "  "@ + self.variables.key_seq()[i] + " = "@ + self.variables.value_seq()[i]@
            },
            r@.last()@ == "==============================\n"@,
    {
        let mut lines: Vec<String> = Vec::new();
        let mut head = "\n=== Flow Summary [trace_id: ".to_string();
        head.append(self.trace_id.as_str());
        head.append("] ===");
        lines.push(head);
        let mut steps = "Total steps: ".to_string();
        let n = decimal_string(self.step_logs.len() as u64);
        steps.append(n.as_str());
        lines.push(steps);
        let mut counts = "Success: ".to_string();
        counts.append(decimal_string(count_logs(&self.step_logs, StepStatus::Success) as u64).as_str());
        counts.append(", Failed: ");
        counts.append(decimal_string(count_logs(&self.step_logs, StepStatus::Failed) as u64).as_str());
        counts.append(", Skipped: ");
        counts.append(decimal_string(count_logs(&self.step_logs, StepStatus::Skipped) as u64).as_str());
        counts.append(", Timeout: ");
        counts.append(decimal_string(count_logs(&self.step_logs, StepStatus::Timeout) as u64).as_str());
        lines.push(counts);
        let ghost fixed = lines@;
        if self.errors.len() > 0 {
            let mut e = "Errors: ".to_string();
            e.append(decimal_string(self.errors.len() as u64).as_str());
            lines.push(e);
            let mut i: usize = 0;
            while i < self.errors.len()
                invariant
                    i <= self.errors@.len(),
                    lines@.len() == 4 + i,
                    forall|k: int| 0 <= k < 3 ==> #[trigger] lines@[k] == fixed[k],
                    lines@[3]@ == "Errors: "@ + decimal(self.errors@.len() as nat),
                    forall|k: int| 0 <= k < i ==> (#[trigger] lines@[4 + k])@ == "  - "@ + self.errors@[k]@,
                decreases self.errors@.len() - i,
            {
                let mut l = "  - ".to_string();
                l.append(self.errors[i].as_str());
                let ghost before = lines@;
                lines.push(l);
                proof {
                    assert forall|k: int| 0 <= k < 3 implies #[trigger] lines@[k] == fixed[k] by {
                        assert(lines@[k] == before[k]);
                    }
                    assert forall|k: int| 0 <= k < i implies (#[trigger] lines@[4 + k])@ == "  - "@ + self.errors@[k]@ by {
                        assert(lines@[4 + k] == before[4 + k]);
                    }
                }
                i = i + 1;
            }
        }
        let ghost after_errors = lines@;
        let es = self.variables.entries();
        if es.len() > 0 {
            lines.push("Variables:".to_string());
            proof {
                assert forall|i: int| 0 <= i < es@.len() implies #[trigger] es@[i].0@ == self.variables.key_seq()[i]
                    && es@[i].1 == self.variables.value_seq()[i] by {
                    assert(es@[i].0@ == self.variables.key_seq()[i]);
                }
            }
            let mut j: usize = 0;
            while j < es.len()
                invariant
                    j <= es@.len(),
                    es@.len() == self.variables.key_seq().len(),
                    es@.len() == self.variables.value_seq().len(),
                    forall|i: int| 0 <= i < es@.len() ==> #[trigger] es@[i].0@ == self.variables.key_seq()[i]
                        && es@[i].1 == self.variables.value_seq()[i],
                    lines@.len() == after_errors.len() + 1 + j,
                    forall|k: int| 0 <= k < after_errors.len() ==> #[trigger] lines@[k] == after_errors[k],
                    lines@[after_errors.len() as int]@ == "Variables:"@,
                    forall|i: int| 0 <= i < j ==> (#[trigger] lines@[after_errors.len() + 1 + i])@
                        == "  "@ + self.variables.key_seq()[i] + " = "@ + self.variables.value_seq()[i]@,
                decreases es@.len() - j,
            {
                let mut l = "  ".to_string();
                l.append(es[j].0.as_str());
                l.append(" = ");
                l.append(es[j].1.as_str());
                let ghost before = lines@;
                lines.push(l);
                proof {
                    assert forall|k: int| 0 <= k < after_errors.len() implies #[trigger] lines@[k] == after_errors[k] by {
                        assert(lines@[k] == before[k]);
                    }
                    assert(lines@[after_errors.len() as int] == before[after_errors.len() as int]);
                    assert forall|i: int| 0 <= i < j + 1 implies (#[trigger] lines@[after_errors.len() + 1 + i])@
                        == "  "@ + self.variables.key_seq()[i] + " = "@ + self.variables.value_seq()[i]@ by {
                        if i < j {
                            assert(lines@[after_errors.len() + 1 + i] == before[after_errors.len() + 1 + i]);
                        }
                    }
                }
                j = j + 1;
            }
        }
        lines.push("==============================\n".to_string());
        lines
    }
}

} // verus!
