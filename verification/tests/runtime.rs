use flowbuilder::plan::{ActionSpec, ExecutionNode, ExecutorStatus, RetryConfig, RetryStrategy, TimeoutConfig};
use flowbuilder::runtime::{
    after_attempt, classify_action, command_outcome, missing_variable_error, node_max_retries, node_timeout_ms, plan_builtin,
    plan_command, plan_composite, plan_http, retry_delay, CompositeItem, timeout_error, ActionKind, AttemptDecision, BuiltinOp, EnhancedTaskExecutor,
    ExecutorConfig, HttpBody, HttpMethod, LogLevel, NodeResult, RetryDelay,
};
use flowbuilder::strmap::StrMap;
use flowbuilder::yaml::{YamlNumber, YamlValue};

fn text(s: &str) -> YamlValue {
    YamlValue::String(s.to_string())
}

fn spec(action_type: &str, params: Vec<(&str, YamlValue)>) -> ActionSpec {
    let mut parameters = StrMap::new();
    for (k, v) in params {
        parameters.insert(k.to_string(), v);
    }
    ActionSpec { action_type: action_type.to_string(), parameters, outputs: StrMap::new() }
}

fn node_with(retry: Option<RetryConfig>, timeout: Option<u64>) -> ExecutionNode {
    let mut n = ExecutionNode::new("n1".to_string(), "Node One".to_string(), spec("builtin", vec![]));
    n.retry_config = retry;
    n.timeout_config = timeout.map(|d| TimeoutConfig { duration: d, on_timeout: None });
    n
}

#[test]
fn test_executor_creation() {
    let executor = EnhancedTaskExecutor::new();
    assert_eq!(executor.status(), ExecutorStatus::Idle);
    assert_eq!(executor.config().max_concurrent_tasks, 10);
    assert_eq!(executor.config().default_timeout, 30000);
}

#[test]
fn test_unsupported_action_type() {
    let r = classify_action(&"unsupported".to_string());
    assert!(r.is_err());
    assert!(r.unwrap_err().contains("不支持的动作类型"));
}

#[test]
fn known_action_types_are_classified() {
    assert_eq!(classify_action(&"builtin".to_string()), Ok(ActionKind::Builtin));
    assert_eq!(classify_action(&"cmd".to_string()), Ok(ActionKind::Cmd));
    assert_eq!(classify_action(&"http".to_string()), Ok(ActionKind::Http));
    assert_eq!(classify_action(&"wasm".to_string()), Ok(ActionKind::Wasm));
    assert_eq!(classify_action(&"composite".to_string()), Ok(ActionKind::Composite));
    assert_eq!(classify_action(&"Builtin".to_string()).unwrap_err(), "不支持的动作类型: Builtin");
}

#[test]
fn test_builtin_set_variable_action() {
    let s = spec("builtin", vec![("operation", text("set_variable")), ("key", text("test_key")), ("value", text("test_value"))]);
    match plan_builtin(&s).unwrap() {
        BuiltinOp::SetVariable { key, value } => {
            assert_eq!(key, "test_key");
            assert_eq!(value.as_str().unwrap(), "test_value");
        }
        other => panic!("unexpected {:?}", other),
    }
}

#[test]
fn test_builtin_sleep_action() {
    let s = spec("builtin", vec![("operation", text("sleep")), ("duration", YamlValue::Number(YamlNumber::PosInt(50)))]);
    match plan_builtin(&s).unwrap() {
        BuiltinOp::Sleep { millis } => assert_eq!(millis, 50),
        other => panic!("unexpected {:?}", other),
    }
}

#[test]
fn builtin_log_levels_and_errors() {
    let s = spec("builtin", vec![("operation", text("log")), ("message", text("test message"))]);
    match plan_builtin(&s).unwrap() {
        BuiltinOp::Log { level, message } => {
            assert_eq!(level, LogLevel::Info);
            assert_eq!(message.as_str().unwrap(), "test message");
        }
        other => panic!("unexpected {:?}", other),
    }
    let s = spec("builtin", vec![("operation", text("log")), ("message", text("m")), ("level", text("warn"))]);
    assert!(matches!(plan_builtin(&s).unwrap(), BuiltinOp::Log { level: LogLevel::Warn, .. }));
    assert_eq!(plan_builtin(&spec("builtin", vec![])).unwrap_err(), "内置动作缺少 'operation' 参数");
    assert_eq!(plan_builtin(&spec("builtin", vec![("operation", text("jump"))])).unwrap_err(), "不支持的内置操作: jump");
    assert_eq!(
        plan_builtin(&spec("builtin", vec![("operation", text("sleep")), ("duration", text("soon"))])).unwrap_err(),
        "sleep 操作缺少有效的 'duration' 参数"
    );
    assert_eq!(
        plan_builtin(&spec("builtin", vec![("operation", text("set_variable")), ("key", text("k"))])).unwrap_err(),
        "set_variable 操作缺少 'value' 参数"
    );
    assert_eq!(missing_variable_error(&"k".to_string()), "变量 'k' 不存在");
}

#[test]
fn test_cmd_action() {
    let s = spec(
        "cmd",
        vec![
            ("command", text("echo")),
            ("args", YamlValue::Sequence(vec![text("hello world"), YamlValue::Bool(true)])),
            ("env", YamlValue::Mapping(vec![(text("A"), text("1")), (text("B"), YamlValue::Null)])),
        ],
    );
    let c = plan_command(&s).unwrap();
    assert_eq!(c.command, "echo");
    assert_eq!(c.args, vec!["hello world".to_string()]);
    assert!(c.working_dir.is_none());
    assert_eq!(c.env, vec![("A".to_string(), "1".to_string())]);
    let vars = command_outcome(Some(0), true, "hello world\n".to_string(), String::new()).unwrap();
    assert_eq!(vars[0], ("cmd_stdout".to_string(), "hello world\n".to_string()));
    assert_eq!(vars[2], ("cmd_exit_code".to_string(), "0".to_string()));
    assert_eq!(plan_command(&spec("cmd", vec![])).unwrap_err(), "命令动作缺少 'command' 参数");
}

#[test]
fn failed_command_reports_code_and_stderr() {
    let e = command_outcome(Some(-2), false, String::new(), "bad".to_string()).unwrap_err();
    assert_eq!(e, "命令执行失败，退出码: -2，错误输出: bad");
    let e = command_outcome(None, false, String::new(), "x".to_string()).unwrap_err();
    assert_eq!(e, "命令执行失败，退出码: -1，错误输出: x");
    let ok = command_outcome(Some(137), true, String::new(), String::new()).unwrap();
    assert_eq!(ok[2].1, "137");
}

#[test]
fn test_http_action() {
    let s = spec("http", vec![("url", text("https://httpbin.org/get")), ("method", text("GET"))]);
    let p = plan_http(&s).unwrap();
    assert_eq!(p.url, "https://httpbin.org/get");
    assert_eq!(p.method, HttpMethod::Get);
    assert!(p.body.is_none());
}

#[test]
fn http_method_case_body_and_errors() {
    let s = spec("http", vec![("url", text("u")), ("method", text("post")), ("body", text("hi")), ("content_type", text("text/plain"))]);
    let p = plan_http(&s).unwrap();
    assert_eq!(p.method, HttpMethod::Post);
    assert!(matches!(p.body, Some(HttpBody::Text(ref t)) if t == "hi"));
    let s = spec("http", vec![("url", text("u")), ("method", text("fetch"))]);
    assert_eq!(plan_http(&s).unwrap_err(), "不支持的HTTP方法: fetch");
    let s = spec("http", vec![("url", text("u")), ("body", text("x")), ("content_type", text("application/xml"))]);
    assert_eq!(plan_http(&s).unwrap_err(), "不支持的Content-Type: application/xml");
    assert_eq!(plan_http(&spec("http", vec![])).unwrap_err(), "HTTP动作缺少 'url' 参数");
}

#[test]
fn timeouts_and_retries_of_nodes() {
    let config = ExecutorConfig::default();
    assert_eq!(node_timeout_ms(&node_with(None, None), &config), 30000);
    assert_eq!(node_timeout_ms(&node_with(None, Some(5)), &config), 5);
    assert_eq!(node_max_retries(&node_with(None, None)), 0);
    let retry = RetryConfig { max_retries: 2, delay: 100, strategy: RetryStrategy::Linear { increment: 50 } };
    assert_eq!(node_max_retries(&node_with(Some(retry), None)), 2);
    assert_eq!(timeout_error(&node_with(None, None)), "节点 Node One 执行超时");
}

#[test]
fn retry_delays_by_strategy() {
    let fixed = RetryConfig { max_retries: 3, delay: 100, strategy: RetryStrategy::Fixed };
    assert!(matches!(retry_delay(&fixed, 2), RetryDelay::Millis(100)));
    let linear = RetryConfig { max_retries: 3, delay: 100, strategy: RetryStrategy::Linear { increment: 50 } };
    assert!(matches!(retry_delay(&linear, 2), RetryDelay::Millis(200)));
    let exp = RetryConfig { max_retries: 3, delay: 100, strategy: RetryStrategy::Exponential { multiplier: "2.0".to_string() } };
    match retry_delay(&exp, 3) {
        RetryDelay::Exponential { base, multiplier, exponent } => {
            assert_eq!(base, 100);
            assert_eq!(multiplier, "2.0");
            assert_eq!(exponent, 3);
        }
        other => panic!("unexpected {:?}", other),
    }
}

#[test]
fn attempts_retry_until_the_limit() {
    let retry = RetryConfig { max_retries: 1, delay: 10, strategy: RetryStrategy::Fixed };
    let node = node_with(Some(retry), None);
    assert!(matches!(after_attempt(&node, 0, Ok(())), AttemptDecision::Succeeded));
    match after_attempt(&node, 0, Err("e".to_string())) {
        AttemptDecision::Retry { retry_count, delay } => {
            assert_eq!(retry_count, 1);
            assert!(delay.is_some());
        }
        other => panic!("unexpected {:?}", other),
    }
    match after_attempt(&node, 1, Err("last".to_string())) {
        AttemptDecision::Failed { error } => assert_eq!(error, "last"),
        other => panic!("unexpected {:?}", other),
    }
    let plain = node_with(None, None);
    assert!(matches!(after_attempt(&plain, 0, Err("x".to_string())), AttemptDecision::Failed { .. }));
}

#[test]
fn node_results_record_outcomes() {
    let node = node_with(None, None);
    let mut r = NodeResult::started(&node);
    assert!(r.success);
    r.record_retry(2);
    r.finish(Some("oops".to_string()));
    assert!(!r.success);
    assert_eq!(r.retry_count, 2);
    assert_eq!(r.error_message.as_deref(), Some("oops"));
    assert!(r.end_time.is_some());
}

#[test]
fn executor_states_follow_plans() {
    let mut executor = EnhancedTaskExecutor::new();
    executor.begin_plan();
    assert_eq!(executor.status(), ExecutorStatus::Running);
    executor.stop();
    assert_eq!(executor.status(), ExecutorStatus::Stopped);
}

#[test]
fn test_node_execution() {
    let node = ExecutionNode::new(
        "test_node".to_string(),
        "Test Node".to_string(),
        spec("builtin", vec![("operation", text("log")), ("message", text("test message"))]),
    );
    assert!(matches!(plan_builtin(&node.action_spec).unwrap(), BuiltinOp::Log { .. }));
    assert!(matches!(after_attempt(&node, 0, Ok(())), AttemptDecision::Succeeded));
    let mut result = NodeResult::started(&node);
    result.finish(None);
    assert!(result.success);
    assert_eq!(result.node_id, "test_node");
}

#[test]
fn test_wasm_action() {
    let s = spec("wasm", vec![("module", text("test.wasm")), ("function", text("main"))]);
    assert_eq!(classify_action(&s.action_type), Ok(ActionKind::Wasm));
}

#[test]
fn test_composite_action() {
    let sub = YamlValue::Mapping(vec![
        (text("type"), text("builtin")),
        (text("parameters"), YamlValue::Mapping(vec![(text("operation"), text("log")), (text("message"), text("composite test"))])),
        (text("outputs"), YamlValue::Mapping(vec![])),
    ]);
    let s = spec("composite", vec![("actions", YamlValue::Sequence(vec![sub]))]);
    let items = plan_composite(&s).unwrap();
    assert_eq!(items.len(), 1);
    match &items[0] {
        CompositeItem::Run(sub) => {
            assert_eq!(sub.action_type, "builtin");
            match plan_builtin(sub).unwrap() {
                BuiltinOp::Log { level, message } => {
                    assert_eq!(level, LogLevel::Info);
                    assert_eq!(message.as_str().unwrap(), "composite test");
                }
                other => panic!("unexpected {:?}", other),
            }
        }
        other => panic!("unexpected {:?}", other),
    }
}

#[test]
fn retries_wait_as_the_strategy_says() {
    let retry = RetryConfig { max_retries: 3, delay: 100, strategy: RetryStrategy::Linear { increment: 50 } };
    let node = node_with(Some(retry), None);
    match after_attempt(&node, 1, Err("e".to_string())) {
        AttemptDecision::Retry { retry_count, delay } => {
            assert_eq!(retry_count, 2);
            assert!(matches!(delay, Some(RetryDelay::Millis(200))));
        }
        other => panic!("unexpected {:?}", other),
    }
}

fn node_result(id: &str, success: bool) -> NodeResult {
    let node = ExecutionNode::new(id.to_string(), id.to_string(), ActionSpec { action_type: "test".to_string(), parameters: StrMap::new(), outputs: StrMap::new() });
    let mut r = NodeResult::started(&node);
    r.finish(if success { None } else { Some("failed".to_string()) });
    r
}

#[test]
fn statistics_take_total_and_average_time() {
    let start = std::time::Instant::now();
    let phase = |id: &str, nodes: Vec<NodeResult>| flowbuilder::runtime::PhaseResult {
        phase_id: id.to_string(),
        phase_name: id.to_string(),
        start_time: start,
        end_time: None,
        duration: std::time::Duration::ZERO,
        success: true,
        error_message: None,
        node_results: nodes,
    };
    let result = flowbuilder::runtime::ExecutionResult {
        plan_id: "p".to_string(),
        start_time: start,
        end_time: None,
        phase_results: vec![
            phase("one", vec![node_result("a", true), node_result("b", false)]),
            phase("two", vec![node_result("c", true), node_result("d", true)]),
        ],
        total_duration: std::time::Duration::from_nanos(1000),
        success: false,
        error_message: None,
    };
    let mut executor = EnhancedTaskExecutor::new();
    executor.update_stats(&result);
    let stats = executor.get_stats();
    assert_eq!((stats.total_tasks, stats.successful_tasks, stats.failed_tasks), (4, 3, 1));
    assert_eq!(stats.total_execution_time, std::time::Duration::from_nanos(1000));
    assert_eq!(stats.average_execution_time, std::time::Duration::from_nanos(250));

    let empty = flowbuilder::runtime::ExecutionResult {
        plan_id: "q".to_string(),
        start_time: start,
        end_time: None,
        phase_results: vec![],
        total_duration: std::time::Duration::from_nanos(70),
        success: true,
        error_message: None,
    };
    let mut fresh = EnhancedTaskExecutor::new();
    fresh.update_stats(&empty);
    assert_eq!(fresh.get_stats().total_execution_time, std::time::Duration::from_nanos(70));
    assert_eq!(fresh.get_stats().average_execution_time, std::time::Duration::ZERO);
}
