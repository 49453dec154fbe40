use flowbuilder::parallel::{next_batch_len, ParallelConfig, ParallelExecutor, ParallelResults, ParallelRoute, StepTally};
use std::time::Duration;

#[test]
fn test_parallel_config_creation() {
    let config = ParallelConfig::default();
    assert!(config.max_concurrency.is_none());
    assert!(config.step_timeout.is_none());
    assert!(!config.fail_fast);
    assert!(config.batch_size.is_none());

    let config = ParallelConfig::with_max_concurrency(5).timeout(Duration::from_secs(10)).with_fail_fast().batch_size(3);
    assert_eq!(config.max_concurrency, Some(5));
    assert_eq!(config.step_timeout, Some(Duration::from_secs(10)));
    assert!(config.fail_fast);
    assert_eq!(config.batch_size, Some(3));
}

#[test]
fn test_parallel_executor_creation() {
    let executor = ParallelExecutor::new();
    assert_eq!(executor.config().max_concurrency, None);
    let executor = ParallelExecutor::with_config(ParallelConfig::with_max_concurrency(3));
    assert_eq!(executor.config().max_concurrency, Some(3));
}

#[test]
fn test_empty_steps_execution() {
    let executor = ParallelExecutor::new();
    assert_eq!(executor.route(0), ParallelRoute::Empty);
    let results = executor.results(StepTally { success_count: 0, errors: vec![] }, Duration::ZERO);
    assert_eq!(results.success_count, 0);
    assert_eq!(results.failed_count, 0);
    assert!(results.errors.is_empty());
    assert!(executor.failure_summary(&results, false).is_none());
}

#[test]
fn test_parallel_results_display() {
    let results = ParallelResults {
        success_count: 3,
        failed_count: 1,
        errors: vec!["Test error".to_string()],
        total_duration: Duration::from_millis(100),
    };
    assert_eq!(results.success_count, 3);
    assert_eq!(results.failed_count, 1);
    assert_eq!(results.errors.len(), 1);
    assert_eq!(results.total_duration, Duration::from_millis(100));
}

#[test]
fn test_config_chaining() {
    let config = ParallelConfig::default().max_concurrency(5).timeout(Duration::from_secs(30)).with_fail_fast().batch_size(10);
    assert_eq!(config.max_concurrency, Some(5));
    assert_eq!(config.step_timeout, Some(Duration::from_secs(30)));
    assert!(config.fail_fast);
    assert_eq!(config.batch_size, Some(10));
}

#[test]
fn test_convenience_constructors() {
    assert!(ParallelConfig::fail_fast().fail_fast);
    assert_eq!(ParallelConfig::batched(5).batch_size, Some(5));
    assert_eq!(ParallelConfig::with_timeout(Duration::from_secs(60)).step_timeout, Some(Duration::from_secs(60)));
}

#[test]
fn routes_follow_the_settings() {
    assert_eq!(ParallelExecutor::new().route(3), ParallelRoute::Unlimited);
    assert_eq!(ParallelExecutor::with_config(ParallelConfig::with_max_concurrency(2)).route(3), ParallelRoute::Limited(2));
    assert_eq!(
        ParallelExecutor::with_config(ParallelConfig::with_max_concurrency(2).batch_size(4)).route(3),
        ParallelRoute::Batched(4)
    );
}

#[test]
fn tally_records_successes_and_errors() {
    let executor = ParallelExecutor::new();
    let mut tally = StepTally { success_count: 0, errors: vec![] };
    assert!(executor.record_step(&mut tally, 0, Ok(())).is_none());
    assert!(executor.record_step(&mut tally, 12, Err("broken".to_string())).is_none());
    assert_eq!(tally.success_count, 1);
    assert_eq!(tally.errors, vec!["Step 12: broken".to_string()]);
    let results = executor.results(tally, Duration::from_millis(5));
    assert_eq!(results.failed_count, 1);
    assert_eq!(executor.failure_summary(&results, false).unwrap(), "Parallel execution failed: 1 errors occurred");
    assert_eq!(executor.failure_summary(&results, true).unwrap(), "Batched execution failed: 1 errors occurred");
}

#[test]
fn fail_fast_stops_at_first_error() {
    let executor = ParallelExecutor::with_config(ParallelConfig::fail_fast());
    let mut tally = StepTally { success_count: 0, errors: vec![] };
    let stop = executor.record_step(&mut tally, 1, Err("boom".to_string()));
    assert_eq!(stop.unwrap(), "Fail-fast enabled: boom");
    assert_eq!(tally.errors[0], "Step 1: boom");
}

#[test]
fn batches_take_what_is_left() {
    assert_eq!(next_batch_len(3, 10), 3);
    assert_eq!(next_batch_len(3, 2), 2);
    assert_eq!(next_batch_len(3, 3), 3);
}

#[test]
fn named_steps_are_recorded_with_their_names() {
    let executor = ParallelExecutor::with_config(ParallelConfig::fail_fast());
    let mut tally = StepTally { success_count: 0, errors: vec![] };
    assert!(executor.record_named_step(&mut tally, 0, "load", Ok(())).is_none());
    let stop = executor.record_named_step(&mut tally, 4, "save", Err("disk full".to_string()));
    assert_eq!(stop.unwrap(), "Fail-fast enabled: Step 4 (save) failed: disk full");
    assert_eq!(tally.errors, vec!["Step 4 (save): disk full".to_string()]);
    assert_eq!(tally.success_count, 1);
}

#[test]
fn step_labels_and_timeouts() {
    assert_eq!(flowbuilder::parallel::step_label(7), "parallel_step_7");
    assert_eq!(flowbuilder::parallel::step_timeout_error(3, None), "Step 3 timed out");
    assert_eq!(flowbuilder::parallel::step_timeout_error(3, Some("fetch")), "Step 3 (fetch) timed out");
}
