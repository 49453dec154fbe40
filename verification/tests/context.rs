use flowbuilder::context::{FlowContext, StepLog, StepStatus};
use flowbuilder::logger::Logger;
use flowbuilder::runtime::LogLevel;
use flowbuilder::tokens::{tokenize, ExpressionToken};

#[test]
fn snapshot_rollback_restores_variables_and_errors() {
    let mut ctx = FlowContext::new_with_trace_id("t1".to_string());
    ctx.set_variable("a".to_string(), "1".to_string());
    ctx.create_snapshot("s1".to_string(), "before".to_string()).unwrap();
    ctx.set_variable("a".to_string(), "2".to_string());
    ctx.set_variable("b".to_string(), "3".to_string());
    ctx.errors.push("late".to_string());
    ctx.ok = false;
    ctx.rollback_to_snapshot("s1").unwrap();
    assert_eq!(ctx.get_variable("a").unwrap(), "1");
    assert!(ctx.get_variable("b").is_none());
    assert!(ctx.errors.is_empty());
    assert!(ctx.ok);
    assert_eq!(ctx.trace_id, "t1");
}

#[test]
fn snapshot_ids_are_unique_and_removable() {
    let mut ctx = FlowContext::new_with_trace_id("t".to_string());
    ctx.create_snapshot("s".to_string(), "d".to_string()).unwrap();
    assert_eq!(ctx.create_snapshot("s".to_string(), "again".to_string()).unwrap_err(), "Snapshot with id 's' already exists");
    assert_eq!(ctx.list_snapshots().len(), 1);
    assert_eq!(ctx.list_snapshots()[0].description, "d");
    ctx.remove_snapshot("s").unwrap();
    assert_eq!(ctx.remove_snapshot("s").unwrap_err(), "Snapshot 's' not found");
    assert_eq!(ctx.rollback_to_snapshot("s").unwrap_err(), "Snapshot 's' not found");
}

#[test]
fn step_logs_close_the_last_run_of_a_step() {
    let mut ctx = FlowContext::new_with_trace_id("tr".to_string());
    ctx.start_step("a".to_string());
    ctx.end_step_success("a");
    ctx.start_step("b".to_string());
    ctx.end_step_failed("b", "bad");
    ctx.start_step("c".to_string());
    ctx.end_step_skipped("c", "no need");
    ctx.start_step("d".to_string());
    ctx.end_step_timeout("d");
    ctx.start_step("a".to_string());
    assert_eq!(ctx.step_logs[0].status, StepStatus::Success);
    assert_eq!(ctx.step_logs[1].status, StepStatus::Failed);
    assert_eq!(ctx.step_logs[1].error_message.as_deref(), Some("bad"));
    assert_eq!(ctx.step_logs[4].status, StepStatus::Running);
    assert_eq!(ctx.errors, vec!["[tr] b: bad".to_string(), "[tr] d: timeout".to_string()]);
    assert!(ctx.ok);
    let s = ctx.summary();
    assert_eq!((s.total_steps, s.success, s.failed, s.skipped, s.timeout, s.errors), (5, 1, 1, 1, 1, 2));
}

#[test]
fn duplicate_keeps_everything() {
    let mut ctx = FlowContext::new_with_trace_id("x".to_string());
    ctx.set_variable("k".to_string(), "v".to_string());
    ctx.start_step("s".to_string());
    let copy = ctx.duplicate();
    assert_eq!(copy.trace_id, "x");
    assert_eq!(copy.get_variable("k").unwrap(), "v");
    assert_eq!(copy.step_logs.len(), 1);
}

#[test]
fn printed_summary_lines() {
    let mut ctx = FlowContext::new_with_trace_id("p".to_string());
    ctx.start_step("a".to_string());
    ctx.end_step_success("a");
    ctx.set_variable("k".to_string(), "v".to_string());
    let lines = ctx.print_summary();
    assert_eq!(lines[0], "\n=== Flow Summary [trace_id: p] ===");
    assert_eq!(lines[1], "Total steps: 1");
    assert_eq!(lines[2], "Success: 1, Failed: 0, Skipped: 0, Timeout: 0");
    assert_eq!(lines[3], "Variables:");
    assert_eq!(lines[4], "  k = v");
    assert_eq!(lines[5], "==============================\n");
    assert_eq!(lines.len(), 6);
}

#[test]
fn logger_records_carry_the_trace_id() {
    let logger = Logger::with_trace_id("trace-9".to_string());
    let r = logger.warn("careful");
    assert_eq!(r.level, LogLevel::Warn);
    assert_eq!(r.trace_id, "trace-9");
    assert_eq!(r.message, "careful");
    assert_eq!(Logger::new().trace_id.chars().count(), 36);
    let mut ctx = FlowContext::new_with_trace_id("c".to_string());
    ctx.start_step("s".to_string());
    ctx.end_step_failed("s", "e1");
    let summary = logger.log_flow_summary(&ctx);
    assert_eq!(summary.len(), 2);
    assert_eq!(summary[0].level, LogLevel::Info);
    let details = logger.log_step_details(&ctx);
    assert_eq!(details.len(), 1);
    assert_eq!(details[0].message, "Step failed");
    assert_eq!(details[0].fields[3], ("error".to_string(), "e1".to_string()));
}

#[test]
fn tokenize_splits_literals_and_expressions() {
    let ts = tokenize("a ${env:X} b ${{ vars.y }} $env:Z").unwrap();
    let shapes: Vec<String> = ts
        .iter()
        .map(|t| match t {
            ExpressionToken::Literal(s) => format!("L({s})"),
            ExpressionToken::ProviderExpression { provider, expression } => format!("P({provider}:{expression})"),
            ExpressionToken::LegacyExpression(s) => format!("G({s})"),
        })
        .collect();
    assert_eq!(shapes, vec!["L(a )", "P(env:X)", "L( b )", "P(ctx:vars.y)", "L( )", "P(env:Z)"]);
    assert!(tokenize("").unwrap().is_empty());
    let ts = tokenize("${step.outputs.x}").unwrap();
    assert!(matches!(&ts[0], ExpressionToken::ProviderExpression { provider, expression } if provider == "ctx" && expression == "step.outputs.x"));
}

#[test]
fn step_details_carry_the_duration() {
    let start = std::time::Instant::now();
    let mut ctx = FlowContext::new_with_trace_id("t".to_string());
    ctx.step_logs.push(StepLog {
        step_name: "s".to_string(),
        start_time: start,
        end_time: Some(start),
        status: StepStatus::Success,
        error_message: None,
        trace_id: "t".to_string(),
    });
    let records = Logger::with_trace_id("t".to_string()).log_step_details(&ctx);
    assert_eq!(records.len(), 1);
    assert_eq!(records[0].fields[2], ("duration_ms".to_string(), "0".to_string()));
    assert_eq!(records[0].message, "Step completed successfully");
}

#[test]
fn rollback_to_unknown_snapshot_changes_nothing() {
    let mut ctx = FlowContext::new_with_trace_id("t9".to_string());
    ctx.set_variable("a".to_string(), "1".to_string());
    ctx.create_snapshot("s1".to_string(), "first".to_string()).unwrap();
    ctx.set_variable("a".to_string(), "2".to_string());
    ctx.start_step("step".to_string());
    assert_eq!(ctx.rollback_to_snapshot("s2").unwrap_err(), "Snapshot 's2' not found");
    assert_eq!(ctx.get_variable("a").unwrap(), "2");
    assert_eq!(ctx.step_logs.len(), 1);
    assert_eq!(ctx.list_snapshots().len(), 1);
    ctx.rollback_to_snapshot("s1").unwrap();
    assert_eq!(ctx.get_variable("a").unwrap(), "1");
    assert_eq!(ctx.step_logs.len(), 1);
    assert_eq!(ctx.list_snapshots().len(), 1);
    assert_eq!(ctx.trace_id, "t9");
}

#[test]
fn flow_executor_is_made_by_new_and_default() {
    let _a: flowbuilder::context::FlowExecutor = flowbuilder::context::FlowExecutor::new();
    let _b: flowbuilder::context::FlowExecutor = Default::default();
}
