use flowbuilder::flow_orchestrator::{
    BranchCondition, ErrorRecoveryStrategy, FlowNode, FlowOrchestrator, FlowState, OrchestratorConfig, Recovery, RetryConfig, Round,
};
use flowbuilder::scheduler::{Priority, ScheduledTask, SchedulerConfig, SchedulingStrategy, TaskScheduler, TaskStatus};
use flowbuilder::strmap::StrMap;
use std::time::{Duration, Instant};

fn scheduled(id: &str, name: &str, priority: Priority, dependencies: Vec<String>) -> ScheduledTask {
    ScheduledTask {
        id: id.to_string(),
        name: name.to_string(),
        description: None,
        priority,
        estimated_duration: None,
        created_at: Instant::now(),
        started_at: None,
        completed_at: None,
        status: TaskStatus::Pending,
        dependencies,
        metadata: StrMap::new(),
    }
}

/// Runs a task the way the scheduling loop does, with work that succeeds or
/// fails as told.
fn execute(scheduler: &mut TaskScheduler, mut task: ScheduledTask, succeeds: bool) -> ScheduledTask {
    scheduler.begin_task(&mut task);
    scheduler.finish_task(&mut task, succeeds);
    task
}

#[test]
fn test_scheduler_basic_functionality() {
    let mut scheduler = TaskScheduler::with_default_config();
    let mut task = scheduled("t-1", "test_task", Priority::Normal, Vec::new());
    task.description = Some("测试任务".to_string());
    task.estimated_duration = Some(Duration::from_millis(100));
    let task_id = scheduler.submit_task(task);
    assert_eq!(scheduler.get_task_status(&task_id), Some(TaskStatus::Pending));

    let mut runs = 0;
    if let Some(task) = scheduler.get_next_task() {
        runs += 1;
        execute(&mut scheduler, task, true);
    }
    assert_eq!(runs, 1);
    assert_eq!(scheduler.get_task_status(&task_id), Some(TaskStatus::Completed));
}

#[test]
fn scheduler_simple_test_scheduler_priority_ordering() {
    let mut scheduler = TaskScheduler::with_default_config();
    for (priority, name) in [
        (Priority::Low, "低优先级"),
        (Priority::High, "高优先级"),
        (Priority::Normal, "普通优先级"),
        (Priority::Critical, "紧急优先级"),
    ] {
        scheduler.submit_task(scheduled(name, name, priority, Vec::new()));
    }
    let first_task = scheduler.get_next_task().unwrap();
    assert_eq!(first_task.priority, Priority::Critical);
    let second_task = scheduler.get_next_task().unwrap();
    assert_eq!(second_task.priority, Priority::High);
}

#[test]
fn tests_test_scheduler_priority_ordering() {
    let mut scheduler = TaskScheduler::with_default_config();
    for (priority, name) in [
        (Priority::Low, "低优先级"),
        (Priority::High, "高优先级"),
        (Priority::Normal, "普通优先级"),
        (Priority::Critical, "紧急优先级"),
    ] {
        scheduler.submit_task(scheduled(name, name, priority, Vec::new()));
    }
    let mut order = Vec::new();
    for _ in 0..4 {
        if let Some(task) = scheduler.get_next_task() {
            let done = execute(&mut scheduler, task, true);
            order.push(done.name);
        }
    }
    assert_eq!(order[0], "紧急优先级");
    assert_eq!(order[1], "高优先级");
    assert_eq!(order[2], "普通优先级");
    assert_eq!(order[3], "低优先级");
}

#[test]
fn test_scheduler_dependency_checking() {
    let mut config = SchedulerConfig::default();
    config.enable_dependency_check = true;
    let mut scheduler = TaskScheduler::new(config);
    scheduler.submit_task(scheduled("task1", "Task 1", Priority::Normal, Vec::new()));
    scheduler.submit_task(scheduled("task2", "Task 2", Priority::High, vec!["task1".to_string()]));

    let task = scheduler.get_next_task().unwrap();
    assert!(!scheduler.can_schedule_task(&task));
    assert_eq!(task.id, "task2");

    let task = scheduler.get_next_task().unwrap();
    assert!(scheduler.can_schedule_task(&task));
    assert_eq!(task.id, "task1");
}

#[test]
fn test_scheduler_stats() {
    let mut scheduler = TaskScheduler::with_default_config();
    let mut task = scheduled("s", "Test Task", Priority::Normal, Vec::new());
    task.estimated_duration = Some(Duration::from_millis(100));
    scheduler.submit_task(task);
    let stats = scheduler.get_stats();
    assert_eq!(stats.pending_tasks, 1);
    assert_eq!(stats.running_tasks, 0);
    assert_eq!(stats.completed_tasks, 0);
    assert_eq!(stats.total_scheduled, 1);
}

#[test]
fn scheduler_counts_follow_a_run() {
    let mut scheduler = TaskScheduler::with_default_config();
    scheduler.submit_task(scheduled("ok", "ok", Priority::Normal, Vec::new()));
    scheduler.submit_task(scheduled("bad", "bad", Priority::Low, Vec::new()));
    let t = scheduler.get_next_task().unwrap();
    let mut t = t;
    scheduler.begin_task(&mut t);
    assert_eq!(t.status, TaskStatus::Running);
    assert_eq!(scheduler.get_stats().running_tasks, 1);
    assert_eq!(scheduler.get_stats().pending_tasks, 1);
    scheduler.finish_task(&mut t, true);
    let t2 = scheduler.get_next_task().unwrap();
    let done = execute(&mut scheduler, t2, false);
    assert_eq!(done.status, TaskStatus::Failed);
    let stats = scheduler.get_stats();
    assert_eq!((stats.pending_tasks, stats.running_tasks, stats.completed_tasks, stats.failed_tasks), (0, 0, 1, 1));
    assert_eq!(scheduler.get_task_status("bad"), Some(TaskStatus::Failed));
    assert!(scheduler.get_next_task().is_none());
}

#[test]
fn fifo_scheduler_hands_out_in_arrival_order() {
    let mut config = SchedulerConfig::default();
    config.strategy = SchedulingStrategy::FirstInFirstOut;
    let mut scheduler = TaskScheduler::new(config);
    scheduler.submit_task(scheduled("a", "a", Priority::Low, Vec::new()));
    scheduler.submit_task(scheduled("b", "b", Priority::Critical, Vec::new()));
    assert_eq!(scheduler.get_next_task().unwrap().id, "a");
    assert_eq!(scheduler.get_next_task().unwrap().id, "b");
    assert!(scheduler.get_next_task().is_none());
}

#[test]
fn scheduler_slots_limit_concurrency() {
    let mut config = SchedulerConfig::default();
    config.max_concurrent_tasks = 1;
    config.enable_dependency_check = false;
    let mut scheduler = TaskScheduler::new(config);
    scheduler.submit_task(scheduled("a", "a", Priority::Normal, Vec::new()));
    scheduler.submit_task(scheduled("b", "b", Priority::Normal, vec!["zzz".to_string()]));
    let mut a = scheduler.get_next_task().unwrap();
    assert!(scheduler.can_schedule_task(&a));
    scheduler.begin_task(&mut a);
    let b = scheduler.get_next_task().unwrap();
    assert!(!scheduler.can_schedule_task(&b));
    scheduler.finish_task(&mut a, true);
    assert!(scheduler.can_schedule_task(&b));
}

#[test]
fn scheduler_start_twice_is_an_error() {
    let mut scheduler = TaskScheduler::with_default_config();
    assert!(scheduler.start().is_ok());
    assert_eq!(scheduler.start().unwrap_err(), "调度器已在运行");
    scheduler.stop();
    assert!(!scheduler.is_started());
    assert!(scheduler.start().is_ok());
}

#[test]
fn priority_values_rank_from_one_to_four() {
    assert_eq!(Priority::Low.value(), 1);
    assert_eq!(Priority::Normal.value(), 2);
    assert_eq!(Priority::High.value(), 3);
    assert_eq!(Priority::Critical.value(), 4);
    assert_eq!(Priority::default(), Priority::Normal);
    let task = ScheduledTask::new("n".to_string(), Priority::High);
    assert_eq!(task.id.chars().count(), 36);
    assert_eq!(task.status, TaskStatus::Pending);
}

fn flow_node(id: &str, name: &str) -> FlowNode {
    FlowNode::new(id.to_string()).name(name.to_string())
}

/// Runs every node the way the orchestration loop does: ready nodes run in
/// turn, a node whose condition is false is skipped, and every node succeeds.
fn run_all(orchestrator: &mut FlowOrchestrator) -> Vec<String> {
    let mut results = Vec::new();
    orchestrator.begin_run();
    loop {
        let ready = orchestrator.get_ready_nodes();
        if ready.is_empty() {
            break;
        }
        for id in ready {
            let runs = match &orchestrator.node(&id).unwrap().condition {
                Some(c) => orchestrator.evaluate_condition(c, true),
                None => true,
            };
            if runs {
                orchestrator.mark_running(&id);
                orchestrator.mark_completed(&id, 1);
            } else {
                orchestrator.mark_skipped(&id);
            }
            results.push(id);
        }
    }
    orchestrator.end_run();
    results
}

#[test]
fn test_orchestrator_basic_flow() {
    let mut orchestrator = FlowOrchestrator::new();
    let mut node = flow_node("test_node", "测试节点");
    node.description = Some("基本流程测试".to_string());
    node.timeout = Some(Duration::from_secs(5));
    orchestrator.add_node(node);
    let results = run_all(&mut orchestrator);
    assert_eq!(results.len(), 1);
    assert!(results.contains(&"test_node".to_string()));
    assert_eq!(orchestrator.get_node_state("test_node"), Some(FlowState::Completed));
    assert!(!orchestrator.has_pending());
}

#[test]
fn test_orchestrator_branch_condition() {
    let mut orchestrator = FlowOrchestrator::new();
    let mut node_true = flow_node("node_true", "条件为真的节点");
    node_true.condition = Some(BranchCondition::Boolean(true));
    let mut node_false = flow_node("node_false", "条件为假的节点");
    node_false.condition = Some(BranchCondition::Boolean(false));
    orchestrator.add_node(node_true);
    orchestrator.add_node(node_false);
    let results = run_all(&mut orchestrator);
    assert!(results.len() <= 2);
    assert_eq!(orchestrator.get_node_state("node_true"), Some(FlowState::Completed));
    assert_eq!(orchestrator.get_node_state("node_false"), Some(FlowState::Cancelled));
}

#[test]
fn test_orchestrator_dependency_execution() {
    let mut orchestrator = FlowOrchestrator::new();
    let mut a = flow_node("node_a", "节点A");
    a.next_nodes = vec!["node_b".to_string()];
    let mut b = flow_node("node_b", "节点B");
    b.next_nodes = vec!["node_c".to_string()];
    orchestrator.add_node(a);
    orchestrator.add_node(b);
    orchestrator.add_node(flow_node("node_c", "节点C"));
    orchestrator.add_dependency("node_b".to_string(), "node_a".to_string());
    orchestrator.add_dependency("node_c".to_string(), "node_b".to_string());

    assert_eq!(orchestrator.get_ready_nodes(), vec!["node_a".to_string()]);
    let results = run_all(&mut orchestrator);
    assert_eq!(results.len(), 3);
    assert_eq!(results, vec!["node_a".to_string(), "node_b".to_string(), "node_c".to_string()]);
}

#[test]
fn expression_conditions_are_true_unless_false() {
    let orchestrator = FlowOrchestrator::new();
    assert!(orchestrator.evaluate_condition(&BranchCondition::Expression("true".to_string()), false));
    assert!(!orchestrator.evaluate_condition(&BranchCondition::Expression("false".to_string()), true));
    assert!(orchestrator.evaluate_condition(&BranchCondition::Expression("x > 1".to_string()), false));
    assert!(!orchestrator.evaluate_condition(&BranchCondition::Custom, false));
}

#[test]
fn failures_follow_the_recovery_strategy() {
    let mut orchestrator = FlowOrchestrator::new();
    let fail_fast = flow_node("n1", "one");
    orchestrator.add_node(flow_node("n1", "one"));
    match orchestrator.handle_error(&fail_fast, "boom".to_string()) {
        Recovery::Fail(m, cause) => {
            assert_eq!(m, "节点 n1 执行失败");
            assert_eq!(cause, "boom");
        }
        other => panic!("unexpected {:?}", other),
    }
    assert_eq!(orchestrator.get_node_state("n1"), Some(FlowState::Failed));
    assert_eq!(orchestrator.get_stats().1, 1);

    let mut skip = flow_node("n2", "two");
    skip.error_recovery = ErrorRecoveryStrategy::Skip;
    assert!(matches!(orchestrator.handle_error(&skip, "e".to_string()), Recovery::Skipped));
    assert_eq!(orchestrator.get_node_state("n2"), Some(FlowState::Failed));

    let mut fallback = flow_node("n3", "three");
    fallback.error_recovery = ErrorRecoveryStrategy::Fallback { fallback_flow_id: "backup".to_string() };
    match orchestrator.handle_error(&fallback, "e".to_string()) {
        Recovery::RunFallback(f) => assert_eq!(f, "backup"),
        other => panic!("unexpected {:?}", other),
    }

    let mut retry = flow_node("n4", "four");
    retry.error_recovery = ErrorRecoveryStrategy::Retry { max_attempts: 2, delay: Duration::from_millis(1) };
    match orchestrator.handle_error(&retry, "kept".to_string()) {
        Recovery::Propagate(e) => assert_eq!(e, "kept"),
        other => panic!("unexpected {:?}", other),
    }

    let mut rollback = flow_node("n5", "five");
    rollback.error_recovery = ErrorRecoveryStrategy::Rollback { checkpoint_id: "cp".to_string() };
    match orchestrator.handle_error(&rollback, "e".to_string()) {
        Recovery::RollbackFailed(m) => assert_eq!(m, "检查点不存在: cp"),
        other => panic!("unexpected {:?}", other),
    }
}

#[test]
fn checkpoint_round_trip_restores_states() {
    let mut orchestrator = FlowOrchestrator::new();
    orchestrator.add_node(flow_node("a", "A"));
    orchestrator.add_node(flow_node("b", "B"));
    orchestrator.mark_running("a");
    orchestrator.mark_completed("a", 3);
    orchestrator.create_checkpoint("cp1");
    orchestrator.mark_running("b");
    assert_eq!(orchestrator.get_node_state("b"), Some(FlowState::Running));
    assert!(orchestrator.restore_checkpoint("cp1").is_ok());
    assert_eq!(orchestrator.get_node_state("a"), Some(FlowState::Completed));
    assert_eq!(orchestrator.get_node_state("b"), None);
    assert_eq!(orchestrator.get_stats(), (1, 0, 2, 1));
    assert_eq!(orchestrator.get_all_node_states().len(), 1);
    assert_eq!(orchestrator.restore_checkpoint("nope").unwrap_err(), "检查点不存在: nope");
}

#[test]
fn checkpoints_off_saves_nothing() {
    let mut config = OrchestratorConfig::default();
    config.enable_checkpoints = false;
    let mut orchestrator = FlowOrchestrator::with_config(config);
    orchestrator.create_checkpoint("cp");
    assert!(orchestrator.restore_checkpoint("cp").is_err());
    assert!(!orchestrator.config().enable_checkpoints);
}

#[test]
fn retries_stop_at_the_limit() {
    let orchestrator = FlowOrchestrator::new();
    let plain = flow_node("n", "n");
    assert!(orchestrator.should_retry(&plain, 2));
    assert!(!orchestrator.should_retry(&plain, 3));
    let mut limited = flow_node("m", "m");
    let mut retry = RetryConfig::default();
    retry.max_attempts = 1;
    limited.retry_config = Some(retry);
    assert!(!orchestrator.should_retry(&limited, 1));
    assert_eq!(RetryConfig::default().backoff_multiplier, "2.0");
}

#[test]
fn missing_node_is_reported() {
    let orchestrator = FlowOrchestrator::new();
    assert_eq!(orchestrator.node("ghost").unwrap_err(), "节点不存在: ghost");
}

#[test]
fn next_round_runs_ready_nodes_then_finishes() {
    let mut o = FlowOrchestrator::new();
    o.add_node(flow_node("a", "A"));
    o.add_node(flow_node("b", "B"));
    o.add_dependency("b".to_string(), "a".to_string());
    match o.next_round() {
        Round::Run(ids) => assert_eq!(ids, vec!["a".to_string()]),
        other => panic!("unexpected {:?}", other),
    }
    o.mark_running("a");
    assert!(matches!(o.next_round(), Round::Wait));
    o.mark_completed("a", 1);
    match o.next_round() {
        Round::Run(ids) => assert_eq!(ids, vec!["b".to_string()]),
        other => panic!("unexpected {:?}", other),
    }
    o.mark_running("b");
    o.mark_completed("b", 1);
    assert!(matches!(o.next_round(), Round::Finished));
}

#[test]
fn equal_priorities_go_by_creation_time() {
    let mut scheduler = TaskScheduler::with_default_config();
    let first = ScheduledTask::new("first".to_string(), Priority::Normal);
    let first_id = first.id.clone();
    let pause = Instant::now();
    while pause.elapsed() < Duration::from_millis(2) {}
    let second = ScheduledTask::new("second".to_string(), Priority::Normal);
    scheduler.submit_task(second);
    scheduler.submit_task(first);
    assert_eq!(scheduler.get_next_task().unwrap().id, first_id);
}
