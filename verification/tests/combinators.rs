use flowbuilder::combinators::{loop_step, retry_step, wait_checks_again, wait_failed_message, JoinTally, LoopStep, RetryStep};

#[test]
fn retried_step_gives_up_after_its_retries() {
    assert_eq!(retry_step(0, 2, true), RetryStep::Succeeded);
    assert_eq!(retry_step(0, 2, false), RetryStep::Retry);
    assert_eq!(retry_step(1, 2, false), RetryStep::Retry);
    assert_eq!(retry_step(2, 2, false), RetryStep::GiveUp);
    assert_eq!(retry_step(0, 0, false), RetryStep::GiveUp);
}

#[test]
fn loop_checks_limit_before_condition() {
    assert_eq!(loop_step(0, 3, true), LoopStep::Run);
    assert_eq!(loop_step(1, 3, false), LoopStep::ConditionFalse);
    assert_eq!(loop_step(3, 3, true), LoopStep::LimitReached);
    assert_eq!(loop_step(0, 0, true), LoopStep::LimitReached);
}

#[test]
fn wait_checks_up_to_its_limit() {
    assert!(wait_checks_again(0, 2));
    assert!(wait_checks_again(1, 2));
    assert!(!wait_checks_again(2, 2));
    assert!(!wait_checks_again(0, 0));
    assert_eq!(wait_failed_message(5), "wait_until: condition not met after 5 retries");
}

#[test]
fn join_tally_sets_counts_and_reports_failures() {
    let mut tally = JoinTally::new();
    tally.record(true);
    tally.record(false);
    tally.record(true);
    assert_eq!(tally.total(), 3);
    let vars = tally.variables("join");
    assert_eq!(
        vars,
        vec![
            ("join_parallel_success".to_string(), "2".to_string()),
            ("join_parallel_failed".to_string(), "1".to_string()),
            ("join_parallel_total".to_string(), "3".to_string()),
        ]
    );
    assert_eq!(tally.outcome().unwrap_err(), "parallel execution had 1 failures out of 3 tasks");
    let mut clean = JoinTally::new();
    clean.record(true);
    assert!(clean.outcome().is_ok());
}
