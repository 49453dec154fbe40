use flowbuilder::config::{Action, ActionDefinition, ActionType, FlowControl, Task, TaskDefinition, Workflow, WorkflowConfig, WorkflowLoader};
use flowbuilder::config_parser::YamlConfigParser;
use flowbuilder::dynamic::{DynamicFlowError, DynamicFlowExecutor};
use flowbuilder::orchestrator::{EnhancedFlowOrchestrator, PlanError};
use flowbuilder::plan::{ActionSpec, ExecutionNode, ExecutorStatus};
use flowbuilder::runtime::ExecutorConfig;
use flowbuilder::strmap::StrMap;
use flowbuilder::yaml::YamlValue;

fn action(id: &str, name: &str, action_type: ActionType, next: Option<&str>, next_if: Option<&str>) -> Action {
    let mut flow = FlowControl::default();
    flow.next = next.map(|s| s.to_string());
    flow.next_if = next_if.map(|s| s.to_string());
    Action {
        action: ActionDefinition {
            id: id.to_string(),
            name: name.to_string(),
            description: format!("{name} description"),
            flow,
            outputs: StrMap::new(),
            action_type,
            parameters: StrMap::new(),
        },
    }
}

fn task(id: &str, name: &str, description: &str, actions: Vec<Action>) -> Task {
    Task {
        task: TaskDefinition {
            id: id.to_string(),
            name: name.to_string(),
            description: description.to_string(),
            actions,
        },
    }
}

fn config(version: &str, env: &[(&str, &str)], vars: &[(&str, &str)], tasks: Vec<Task>) -> WorkflowConfig {
    let mut env_map = StrMap::new();
    for (k, v) in env {
        env_map.insert(k.to_string(), v.to_string());
    }
    let mut var_map = StrMap::new();
    for (k, v) in vars {
        var_map.insert(k.to_string(), YamlValue::String(v.to_string()));
    }
    WorkflowConfig {
        workflow: Workflow { version: version.to_string(), env: env_map, vars: var_map, template: None, tasks },
    }
}

fn test_workflow() -> WorkflowConfig {
    config(
        "1.0",
        &[("TEST_ENV", "test")],
        &[("name", "Test Workflow")],
        vec![task("task1", "Test Task", "A test task", vec![action("action1", "Test Action", ActionType::Builtin, None, None)])],
    )
}

#[test]
fn test_yaml_parser_creation() {
    let parser = YamlConfigParser::new(test_workflow());
    assert!(parser.validate().is_ok());
}

#[test]
fn test_parse_nodes() {
    let parser = YamlConfigParser::new(test_workflow());
    let nodes = parser.parse().unwrap();
    assert_eq!(nodes.len(), 1);
    assert_eq!(nodes[0].id, "task1");
    assert_eq!(nodes[0].name, "Test Task");
    assert_eq!(nodes[0].action_spec.action_type, "builtin");
}

#[test]
fn test_parse_full_result() {
    let parser = YamlConfigParser::new(test_workflow());
    let result = parser.parse_full().unwrap();
    assert_eq!(result.nodes.len(), 1);
    assert_eq!(result.workflow_name, "Test Workflow");
    assert_eq!(result.workflow_version, "1.0");
    assert!(result.env_vars.contains_key("TEST_ENV"));
    assert!(result.flow_vars.contains_key("name"));
}

#[test]
fn parser_validation_names_the_first_problem() {
    let parser = YamlConfigParser::new(config("1.0", &[], &[], vec![]));
    assert_eq!(parser.validate().unwrap_err(), "工作流没有任务");
    let parser = YamlConfigParser::new(config("1.0", &[], &[], vec![task("t", "T", "", vec![])]));
    assert_eq!(parser.validate().unwrap_err(), "任务 t 没有动作");
    let parser = YamlConfigParser::new(config("1.0", &[], &[], vec![task("", "T", "", vec![])]));
    assert_eq!(parser.validate().unwrap_err(), "任务ID不能为空");
    let parser = YamlConfigParser::new(config(
        "1.0",
        &[],
        &[],
        vec![task("t", "T", "", vec![action("a", "", ActionType::Cmd, None, None)])],
    ));
    assert_eq!(parser.validate().unwrap_err(), "动作名称不能为空");
}

#[test]
fn parse_reports_task_without_actions() {
    let parser = YamlConfigParser::new(config("1.0", &[], &[], vec![task("empty", "E", "", vec![])]));
    assert_eq!(parser.parse().unwrap_err(), "任务 empty 没有动作");
}

#[test]
fn parse_sets_dependencies_priority_and_condition() {
    let cfg = config(
        "1.0",
        &[],
        &[],
        vec![
            task("a", "Critical setup", "", vec![action("a1", "A1", ActionType::Cmd, Some("b"), Some("x == x"))]),
            task("b", "Cleanup low", "", vec![action("b1", "B1", ActionType::Http, None, None)]),
        ],
    );
    let parser = YamlConfigParser::new(cfg);
    let nodes = parser.parse().unwrap();
    assert_eq!(nodes[0].priority, 1);
    assert_eq!(nodes[0].condition.as_deref(), Some("x == x"));
    assert_eq!(nodes[0].action_spec.action_type, "cmd");
    assert!(nodes[0].dependencies.is_empty());
    assert_eq!(nodes[1].priority, 200);
    assert_eq!(nodes[1].dependencies, vec!["a".to_string()]);
    assert_eq!(nodes[1].action_spec.action_type, "http");
}

#[test]
fn workflow_name_defaults_when_missing() {
    let parser = YamlConfigParser::new(config("3", &[], &[], vec![]));
    assert_eq!(parser.get_workflow_name(), "Unknown Workflow");
    assert_eq!(parser.get_workflow_version(), "3");
}

#[test]
fn test_validate_config() {
    let cfg = config("1.0", &[], &[], vec![task("task1", "Test Task", "A test task", vec![])]);
    assert!(WorkflowLoader::validate(&cfg).is_ok());
}

#[test]
fn test_validate_duplicate_task_ids() {
    let cfg = config(
        "1.0",
        &[],
        &[],
        vec![task("task1", "Test Task 1", "A test task", vec![]), task("task1", "Test Task 2", "Another test task", vec![])],
    );
    assert!(WorkflowLoader::validate(&cfg).is_err());
}

#[test]
fn loader_validation_errors() {
    let cfg = config("", &[], &[], vec![task("t", "T", "", vec![])]);
    assert_eq!(WorkflowLoader::validate(&cfg).unwrap_err(), "Workflow version cannot be empty");
    let cfg = config("1.0", &[], &[], vec![]);
    assert!(WorkflowLoader::validate(&cfg).is_err());
}

fn node(id: &str, name: &str) -> ExecutionNode {
    ExecutionNode::new(
        id.to_string(),
        name.to_string(),
        ActionSpec { action_type: "test".to_string(), parameters: StrMap::new(), outputs: StrMap::new() },
    )
}

#[test]
fn test_orchestrator_creation() {
    let orchestrator = EnhancedFlowOrchestrator::new();
    assert!(orchestrator.config().enable_parallel_optimization);
}

#[test]
fn test_dependency_graph_build() {
    let orchestrator = EnhancedFlowOrchestrator::new();
    let node1 = node("node1", "Node 1");
    let node2 = node("node2", "Node 2").add_dependency("node1".to_string());
    let nodes = vec![node1, node2];
    let graph = orchestrator.build_dependency_graph(&nodes).unwrap();
    assert_eq!(graph.len(), 2);
    assert_eq!(graph.get("node1").unwrap().len(), 0);
    assert_eq!(graph.get("node2").unwrap().len(), 1);
}

#[test]
fn dependency_graph_reports_missing_dependency() {
    let orchestrator = EnhancedFlowOrchestrator::new();
    let nodes = vec![node("a", "A").add_dependency("ghost".to_string())];
    match orchestrator.build_dependency_graph(&nodes) {
        Err(PlanError::MissingDependency { node, dependency }) => {
            assert_eq!(node, "a");
            assert_eq!(dependency, "ghost");
        }
        other => panic!("unexpected: {:?}", other.map(|g| g.len())),
    }
}

#[test]
fn topological_sort_layers_and_cycles() {
    let orchestrator = EnhancedFlowOrchestrator::new();
    let nodes = vec![
        node("c", "C").add_dependency("b".to_string()),
        node("a", "A"),
        node("b", "B").add_dependency("a".to_string()),
        node("d", "D").add_dependency("a".to_string()),
    ];
    let layers = orchestrator.topological_sort(&nodes).unwrap();
    let ids: Vec<Vec<String>> = layers.iter().map(|l| l.iter().map(|n| n.id.clone()).collect()).collect();
    assert_eq!(ids, vec![vec!["a".to_string()], vec!["b".to_string(), "d".to_string()], vec!["c".to_string()]]);

    let cyclic = vec![node("x", "X").add_dependency("y".to_string()), node("y", "Y").add_dependency("x".to_string())];
    assert_eq!(orchestrator.topological_sort(&cyclic).unwrap_err(), PlanError::CyclicDependency);
}

#[test]
fn plan_of_no_nodes_is_invalid() {
    let orchestrator = EnhancedFlowOrchestrator::new();
    let r = orchestrator.create_execution_plan(vec![], StrMap::new(), StrMap::new(), "w".to_string(), "1".to_string());
    assert_eq!(r.unwrap_err(), PlanError::InvalidPlan("执行计划验证失败: 执行计划不能为空".to_string()));
}

#[test]
fn test_workflow_info() {
    let cfg = config(
        "2.0",
        &[("ENV1", "value1"), ("ENV2", "value2")],
        &[("name", "Info Test Workflow"), ("var1", "value1")],
        vec![task("info_task", "Info Task", "Task for info testing", vec![action("info_action", "Info Action", ActionType::Builtin, None, None)])],
    );
    let executor = DynamicFlowExecutor::new(cfg).unwrap();
    let info = executor.get_workflow_info();
    assert_eq!(info.name, "Info Test Workflow");
    assert_eq!(info.version, "2.0");
    assert_eq!(info.task_count, 1);
    assert_eq!(info.env_var_count, 2);
    assert_eq!(info.flow_var_count, 2);
}

#[test]
fn test_execution_plan_preview() {
    let cfg = config(
        "1.0",
        &[("TEST_ENV", "preview")],
        &[("name", "Preview Test")],
        vec![task("preview_task", "Preview Task", "Task for preview testing", vec![action("preview_action", "Preview Action", ActionType::Builtin, None, None)])],
    );
    let executor = DynamicFlowExecutor::new(cfg).unwrap();
    let plan = executor.get_execution_plan_preview().unwrap();
    assert_eq!(plan.phases.len(), 1);
    assert_eq!(plan.metadata.total_nodes, 1);
    assert_eq!(plan.metadata.workflow_name, "Preview Test");
    assert_eq!(plan.env_vars.get("TEST_ENV").unwrap().as_str().unwrap(), "preview");
}

#[test]
fn test_workflow_complexity_analysis() {
    let cfg = config(
        "1.0",
        &[("TEST_ENV", "complexity")],
        &[("name", "Complexity Test")],
        vec![task("complex_task", "Complex Task", "A complex task for analysis", vec![action("complex_action", "Complex Action", ActionType::Builtin, None, Some("true"))])],
    );
    let executor = DynamicFlowExecutor::new(cfg).unwrap();
    let complexity = executor.analyze_workflow_complexity().unwrap();
    assert_eq!(complexity.total_nodes, 1);
    assert_eq!(complexity.conditional_nodes, 1);
    assert_eq!(complexity.total_phases, 1);
}

#[test]
fn test_execution_plan_dependency_phases() {
    let cfg = config(
        "1.0",
        &[],
        &[("name", "Execution Plan Test")],
        vec![
            task("setup_task", "Setup Task", "First task in the chain", vec![action("setup_action", "Setup Action", ActionType::Builtin, Some("notification_task"), None)]),
            task("notification_task", "Notification Task", "Second task in the chain", vec![action("notification_action", "Notification Action", ActionType::Builtin, Some("process_task"), None)]),
            task("process_task", "Process Task", "Third task in the chain", vec![action("process_action", "Process Action", ActionType::Builtin, None, None)]),
        ],
    );
    let executor = DynamicFlowExecutor::new(cfg).unwrap();
    let plan = executor.get_execution_plan_preview().unwrap();
    assert_eq!(plan.phases.len(), 3, "Should have 3 phases for dependent tasks");
    assert_eq!(plan.phases[0].nodes.len(), 1, "Phase 0 should have 1 node");
    assert_eq!(plan.phases[0].nodes[0].id, "setup_task", "Phase 0 should contain setup_task");
    assert_eq!(plan.phases[1].nodes.len(), 1, "Phase 1 should have 1 node");
    assert_eq!(plan.phases[1].nodes[0].id, "notification_task", "Phase 1 should contain notification_task");
    assert_eq!(plan.phases[2].nodes.len(), 1, "Phase 2 should have 1 node");
    assert_eq!(plan.phases[2].nodes[0].id, "process_task", "Phase 2 should contain process_task");
    assert_eq!(plan.phases[0].nodes[0].dependencies, Vec::<String>::new(), "setup_task should have no dependencies");
    assert_eq!(plan.phases[1].nodes[0].dependencies, vec!["setup_task"], "notification_task should depend on setup_task");
    assert_eq!(plan.phases[2].nodes[0].dependencies, vec!["notification_task"], "process_task should depend on notification_task");
}

#[test]
fn executor_rejects_invalid_configuration() {
    match DynamicFlowExecutor::new(config("1.0", &[], &[], vec![])) {
        Err(DynamicFlowError::InvalidConfig(e)) => assert_eq!(e, "工作流没有任务"),
        _ => panic!("expected an invalid configuration"),
    }
}

#[test]
fn next_to_unknown_task_adds_no_dependency() {
    let cfg = config(
        "1.0",
        &[],
        &[],
        vec![task("a", "A", "", vec![action("a1", "A1", ActionType::Builtin, Some("nowhere"), None)])],
    );
    let executor = DynamicFlowExecutor::new(cfg).unwrap();
    assert!(executor.validate_workflow().is_ok());
    let plan = executor.get_execution_plan_preview().unwrap();
    assert_eq!(plan.phases.len(), 1);
}

#[test]
fn executor_status_settings_and_stop() {
    let mut config_exec = ExecutorConfig::default();
    config_exec.max_concurrent_tasks = 3;
    let mut executor = DynamicFlowExecutor::with_executor_config(test_workflow(), config_exec).unwrap();
    assert_eq!(executor.executor_status(), ExecutorStatus::Idle);
    assert_eq!(executor.config().workflow.version, "1.0");
    assert_eq!(executor.evaluator().get_context_var("x").is_none(), true);
    executor.set_print_plan(true);
    executor.stop();
    assert_eq!(executor.executor_status(), ExecutorStatus::Stopped);
    assert!(executor.validate_workflow().is_ok());
}

#[test]
fn plan_errors_carry_their_messages() {
    let missing = PlanError::MissingDependency { node: "a".to_string(), dependency: "b".to_string() };
    assert_eq!(missing.message(), "节点 a 依赖的节点 b 不存在");
    assert_eq!(PlanError::CyclicDependency.message(), "检测到循环依赖");
    assert_eq!(PlanError::InvalidPlan("x".to_string()).message(), "x");
}

#[test]
fn plan_holds_each_id_once_with_dependencies_first() {
    let orchestrator = EnhancedFlowOrchestrator::new();
    let nodes = vec![
        node("c", "C").add_dependency("b".to_string()).add_dependency("a".to_string()),
        node("a", "A"),
        node("b", "B").add_dependency("a".to_string()),
        node("a", "A again"),
    ];
    let plan = orchestrator
        .create_execution_plan(nodes, StrMap::new(), StrMap::new(), "w".to_string(), "1".to_string())
        .unwrap();
    let phases: Vec<Vec<String>> = plan.phases.iter().map(|p| p.nodes.iter().map(|n| n.id.clone()).collect()).collect();
    assert_eq!(phases, vec![vec!["a".to_string()], vec!["b".to_string()], vec!["c".to_string()]]);
    assert_eq!(plan.phases[0].nodes[0].name, "A again");
    assert_eq!(plan.metadata.total_nodes, 3);
}
