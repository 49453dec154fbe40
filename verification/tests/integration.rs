use flowbuilder::config::{Action, ActionDefinition, ActionType, FlowControl, Task, TaskDefinition, Workflow, WorkflowConfig};
use flowbuilder::flow_orchestrator::ErrorRecoveryStrategy;
use flowbuilder::integration::{determine_max_concurrent_tasks, YamlRuntimeIntegrator};
use flowbuilder::scheduler::{Priority, SchedulingStrategy, TaskStatus};
use flowbuilder::strmap::StrMap;
use flowbuilder::yaml::YamlValue;

fn action(id: &str) -> Action {
    Action {
        action: ActionDefinition {
            id: id.to_string(),
            name: format!("{id} action"),
            description: String::new(),
            flow: FlowControl::default(),
            outputs: StrMap::new(),
            action_type: ActionType::Builtin,
            parameters: StrMap::new(),
        },
    }
}

fn workflow(env: &[(&str, &str)], tasks: Vec<(&str, &str, usize)>) -> WorkflowConfig {
    let mut env_map = StrMap::new();
    for (k, v) in env {
        env_map.insert(k.to_string(), v.to_string());
    }
    let mut vars = StrMap::new();
    vars.insert("name".to_string(), YamlValue::String("Test Workflow".to_string()));
    let tasks = tasks
        .into_iter()
        .map(|(id, name, n)| Task {
            task: TaskDefinition {
                id: id.to_string(),
                name: name.to_string(),
                description: format!("{name} description"),
                actions: (0..n).map(|i| action(&format!("{id}_{i}"))).collect(),
            },
        })
        .collect();
    WorkflowConfig { workflow: Workflow { version: "1.0".to_string(), env: env_map, vars, template: None, tasks } }
}

#[test]
fn test_yaml_runtime_integration() {
    let cfg = workflow(&[("FLOWBUILDER_ENV", "test"), ("FLOWBUILDER_MAX_CONCURRENT", "5")], vec![("task1", "Test Task", 1)]);
    let integrator = YamlRuntimeIntegrator::new(cfg).unwrap();

    let scheduler = integrator.create_scheduler_from_config(None).unwrap();
    assert!(scheduler.get_stats().total_scheduled == 0);

    let orchestrator = integrator.create_orchestrator_from_config(None).unwrap();
    assert!(orchestrator.get_all_node_states().is_empty());

    let tasks = integrator.convert_to_scheduled_tasks().unwrap();
    assert_eq!(tasks.len(), 1);
    assert_eq!(tasks[0].name, "Test Task");

    let nodes = integrator.convert_to_flow_nodes().unwrap();
    assert_eq!(nodes.len(), 1);
    assert_eq!(nodes[0].id, "task1");
}

#[test]
fn max_concurrency_setting_is_read_as_a_number() {
    assert_eq!(determine_max_concurrent_tasks(None), 10);
    assert_eq!(determine_max_concurrent_tasks(Some("5")), 5);
    assert_eq!(determine_max_concurrent_tasks(Some("+7")), 7);
    assert_eq!(determine_max_concurrent_tasks(Some("-1")), 10);
    assert_eq!(determine_max_concurrent_tasks(Some("five")), 10);
    assert_eq!(determine_max_concurrent_tasks(Some("")), 10);
    assert_eq!(determine_max_concurrent_tasks(Some("99999999999999999999999")), 10);
    let integrator = YamlRuntimeIntegrator::new(workflow(&[], vec![])).unwrap();
    let mut scheduler = integrator.create_scheduler_from_config(Some("1")).unwrap();
    scheduler.submit_task(flowbuilder::scheduler::ScheduledTask::new("x".to_string(), Priority::Low));
    scheduler.submit_task(flowbuilder::scheduler::ScheduledTask::new("y".to_string(), Priority::Low));
    let mut first = scheduler.get_next_task().unwrap();
    assert!(scheduler.can_schedule_task(&first));
    scheduler.begin_task(&mut first);
    let second = scheduler.get_next_task().unwrap();
    assert!(!scheduler.can_schedule_task(&second));
    assert_eq!(integrator.create_orchestrator_from_config(Some("4")).unwrap().config().max_parallelism, 4);
}

#[test]
fn strategy_and_verbosity_come_from_the_workflow_env() {
    let cases = [
        ("fifo", SchedulingStrategy::FirstInFirstOut),
        ("round_robin", SchedulingStrategy::RoundRobin),
        ("shortest_job", SchedulingStrategy::ShortestJobFirst),
        ("other", SchedulingStrategy::Priority),
    ];
    for (name, strategy) in cases {
        let integrator = YamlRuntimeIntegrator::new(workflow(&[("FLOWBUILDER_STRATEGY", name)], vec![])).unwrap();
        let mut scheduler = integrator.create_scheduler_from_config(None).unwrap();
        scheduler.submit_task(flowbuilder::scheduler::ScheduledTask::new("a".to_string(), Priority::Low));
        scheduler.submit_task(flowbuilder::scheduler::ScheduledTask::new("b".to_string(), Priority::High));
        let first = scheduler.get_next_task().unwrap();
        if strategy == SchedulingStrategy::FirstInFirstOut {
            assert_eq!(first.name, "a");
        } else {
            assert_eq!(first.name, "b");
        }
    }
    for (value, verbose) in [("true", true), ("1", true), ("yes", false)] {
        let integrator = YamlRuntimeIntegrator::new(workflow(&[("FLOWBUILDER_VERBOSE", value)], vec![])).unwrap();
        assert_eq!(integrator.create_orchestrator_from_config(None).unwrap().config().verbose_logging, verbose);
    }
    let integrator = YamlRuntimeIntegrator::new(workflow(&[], vec![])).unwrap();
    assert!(!integrator.create_orchestrator_from_config(None).unwrap().config().verbose_logging);
}

#[test]
fn scheduled_tasks_take_priority_and_metadata_from_the_task() {
    let cfg = workflow(
        &[],
        vec![("a", "URGENT fix", 2), ("b", "High load", 1), ("c", "slow", 3), ("d", "Backup", 0), ("e", "nightly", 1)],
    );
    let integrator = YamlRuntimeIntegrator::new(cfg).unwrap();
    let tasks = integrator.convert_to_scheduled_tasks().unwrap();
    let priorities: Vec<Priority> = tasks.iter().map(|t| t.priority).collect();
    assert_eq!(priorities, vec![Priority::Critical, Priority::High, Priority::Low, Priority::Normal, Priority::Normal]);
    assert_eq!(tasks[0].metadata.get("task_id").unwrap(), "a");
    assert_eq!(tasks[0].metadata.get("task_name").unwrap(), "URGENT fix");
    assert_eq!(tasks[0].metadata.get("action_count").unwrap(), "2");
    assert_eq!(tasks[2].metadata.get("action_count").unwrap(), "3");
    assert_eq!(tasks[0].description.as_deref(), Some("URGENT fix description"));
    assert_eq!(tasks[0].status, TaskStatus::Pending);
    assert!(tasks[0].dependencies.is_empty());
    assert_eq!(tasks[0].estimated_duration, Some(std::time::Duration::from_millis(200)));
    assert_ne!(tasks[0].id, tasks[1].id);
}

#[test]
fn flow_nodes_fail_fast_with_a_time_limit() {
    let integrator = YamlRuntimeIntegrator::new(workflow(&[], vec![("a", "A", 1), ("b", "B", 1)])).unwrap();
    let nodes = integrator.convert_to_flow_nodes().unwrap();
    assert_eq!(nodes.len(), 2);
    assert_eq!(nodes[1].name, "B");
    assert_eq!(nodes[1].description.as_deref(), Some("B description"));
    assert!(matches!(nodes[1].error_recovery, ErrorRecoveryStrategy::FailFast));
    assert_eq!(nodes[1].timeout, Some(std::time::Duration::from_secs(300)));
    assert!(nodes[1].retry_config.is_none());
    assert!(nodes[1].condition.is_none());
}
