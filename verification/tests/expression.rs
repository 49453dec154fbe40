use flowbuilder::expression::{ExpressionEvaluator, ExpressionHost};
use flowbuilder::strmap::StrMap;
use flowbuilder::yaml::{YamlNumber, YamlValue};

/// A host that hands back what a jq query was asked over: the root and the
/// query text.
struct RecordingHost;

impl ExpressionHost for RecordingHost {
    fn float_text(&self, text: &str) -> String {
        text.to_string()
    }

    fn yaml_text(&self, value: &YamlValue) -> String {
        format!("{:?}", value)
    }

    fn jq_query(&self, root: &YamlValue, expression: &str) -> Result<YamlValue, String> {
        Ok(YamlValue::Sequence(vec![root.duplicate(), YamlValue::String(expression.to_string())]))
    }
}

fn same(a: &YamlValue, b: &YamlValue) -> bool {
    match (a, b) {
        (YamlValue::Null, YamlValue::Null) => true,
        (YamlValue::Bool(x), YamlValue::Bool(y)) => x == y,
        (YamlValue::Number(YamlNumber::PosInt(x)), YamlValue::Number(YamlNumber::PosInt(y))) => x == y,
        (YamlValue::Number(YamlNumber::NegInt(x)), YamlValue::Number(YamlNumber::NegInt(y))) => x == y,
        (YamlValue::Number(YamlNumber::Float(x)), YamlValue::Number(YamlNumber::Float(y))) => x == y,
        (YamlValue::String(x), YamlValue::String(y)) => x == y,
        (YamlValue::Sequence(x), YamlValue::Sequence(y)) => x.len() == y.len() && x.iter().zip(y.iter()).all(|(p, q)| same(p, q)),
        (YamlValue::Mapping(x), YamlValue::Mapping(y)) => {
            x.len() == y.len() && x.iter().zip(y.iter()).all(|(p, q)| same(&p.0, &q.0) && same(&p.1, &q.1))
        }
        (YamlValue::Tagged(t, x), YamlValue::Tagged(u, y)) => t == u && same(x, y),
        _ => false,
    }
}

fn text(s: &str) -> YamlValue {
    YamlValue::String(s.to_string())
}

fn num(n: u64) -> YamlValue {
    YamlValue::Number(YamlNumber::PosInt(n))
}

fn person(name: &str, age: u64) -> YamlValue {
    YamlValue::Mapping(vec![(text("name"), text(name)), (text("age"), num(age))])
}

fn create_test_evaluator() -> ExpressionEvaluator {
    let mut evaluator = ExpressionEvaluator::new();

    let mut env_vars = StrMap::new();
    env_vars.insert("TEST_ENV".to_string(), "test_value".to_string());
    env_vars.insert("DB_HOST".to_string(), "localhost".to_string());
    env_vars.insert("PORT".to_string(), "8080".to_string());
    evaluator.set_env_vars(env_vars);

    let mut flow_vars = StrMap::new();
    flow_vars.insert("app_name".to_string(), text("FlowBuilder"));
    flow_vars.insert("version".to_string(), text("1.0.0"));
    flow_vars.insert("debug".to_string(), YamlValue::Bool(true));
    flow_vars.insert("timeout".to_string(), num(30));
    evaluator.set_flow_vars(flow_vars);

    evaluator.set_context_var("setup.outputs.id", text("setup_123"));
    evaluator.set_context_var("setup.outputs.status", text("success"));
    evaluator.set_context_var("setup.outputs.payload", YamlValue::Sequence(vec![person("Alice", 30), person("Bob", 25)]));

    evaluator
}

fn eval_text(evaluator: &ExpressionEvaluator, s: &str) -> Result<YamlValue, String> {
    evaluator.evaluate_yaml(&RecordingHost, &text(s))
}

#[test]
fn test_env_var_evaluation() {
    let mut evaluator = ExpressionEvaluator::new();
    let mut env_vars = StrMap::new();
    env_vars.insert("TEST_VAR".to_string(), "test_value".to_string());
    evaluator.set_env_vars(env_vars);

    let result = evaluator.evaluate(&RecordingHost, "${{ env.TEST_VAR }}").unwrap();
    assert!(same(&result, &text("test_value")));
}

#[test]
fn test_flow_var_evaluation() {
    let mut evaluator = ExpressionEvaluator::new();
    let mut flow_vars = StrMap::new();
    flow_vars.insert("name".to_string(), text("FlowBuilder"));
    evaluator.set_flow_vars(flow_vars);

    let result = evaluator.evaluate(&RecordingHost, "${{ vars.name }}").unwrap();
    assert!(same(&result, &text("FlowBuilder")));
}

#[test]
fn test_condition_evaluation() {
    let evaluator = ExpressionEvaluator::new();

    assert!(evaluator.evaluate_condition(&RecordingHost, "true").unwrap());
    assert!(!evaluator.evaluate_condition(&RecordingHost, "false").unwrap());
    assert!(evaluator.evaluate_condition(&RecordingHost, "test == test").unwrap());
    assert!(!evaluator.evaluate_condition(&RecordingHost, "test != test").unwrap());
}

#[test]
fn test_env_provider_new_syntax() {
    let evaluator = create_test_evaluator();
    assert!(same(&eval_text(&evaluator, "${env:TEST_ENV}").unwrap(), &text("test_value")));
    assert!(same(&eval_text(&evaluator, "${env:DB_HOST}").unwrap(), &text("localhost")));
}

#[test]
fn test_env_provider_legacy_syntax() {
    let evaluator = create_test_evaluator();
    assert!(same(&eval_text(&evaluator, "${{ env.TEST_ENV }}").unwrap(), &text("test_value")));
    assert!(same(&eval_text(&evaluator, "$env:DB_HOST").unwrap(), &text("localhost")));
}

#[test]
fn test_ctx_provider_vars() {
    let evaluator = create_test_evaluator();
    assert!(same(&eval_text(&evaluator, "${ctx:vars.app_name}").unwrap(), &text("FlowBuilder")));
    assert!(same(&eval_text(&evaluator, "${ctx:vars.debug}").unwrap(), &YamlValue::Bool(true)));
    assert!(same(&eval_text(&evaluator, "${ctx:vars.timeout}").unwrap(), &num(30)));
}

#[test]
fn test_ctx_provider_legacy_vars() {
    let evaluator = create_test_evaluator();
    assert!(same(&eval_text(&evaluator, "${{ vars.app_name }}").unwrap(), &text("FlowBuilder")));
}

#[test]
fn test_ctx_provider_outputs() {
    let evaluator = create_test_evaluator();
    assert!(same(&eval_text(&evaluator, "${ctx:setup.outputs.id}").unwrap(), &text("setup_123")));
    assert!(same(&eval_text(&evaluator, "${ctx:setup.outputs.status}").unwrap(), &text("success")));
}

#[test]
fn test_ctx_provider_legacy_outputs() {
    let evaluator = create_test_evaluator();
    assert!(same(&eval_text(&evaluator, "${setup.outputs.id}").unwrap(), &text("setup_123")));
}

#[test]
fn test_jq_provider_basic() {
    let evaluator = create_test_evaluator();
    let result = eval_text(&evaluator, "${jq:.setup.outputs.id}").unwrap();
    let parts = result.as_sequence().unwrap();
    let setup = parts[0].as_mapping().unwrap();
    assert_eq!(setup.len(), 1);
    assert_eq!(setup[0].0.as_str().unwrap(), "setup");
    assert_eq!(parts[1].as_str().unwrap(), ".setup.outputs.id");
}

#[test]
fn test_jq_provider_vars_root() {
    let evaluator = create_test_evaluator();
    let result = eval_text(&evaluator, "${jq:vars.app_name}").unwrap();
    let parts = result.as_sequence().unwrap();
    let vars = parts[0].as_mapping().unwrap();
    assert_eq!(vars.len(), 4);
    assert_eq!(vars[0].0.as_str().unwrap(), "app_name");
    assert_eq!(parts[1].as_str().unwrap(), "vars.app_name");
}

#[test]
fn test_jq_provider_env_root() {
    let evaluator = create_test_evaluator();
    let result = eval_text(&evaluator, "${jq:env.TEST_ENV}").unwrap();
    let parts = result.as_sequence().unwrap();
    let env = parts[0].as_mapping().unwrap();
    assert_eq!(env.len(), 3);
    assert_eq!(env[0].1.as_str().unwrap(), "test_value");
    assert_eq!(parts[1].as_str().unwrap(), "env.TEST_ENV");
}

#[test]
fn test_jq_provider_pipe_syntax() {
    let evaluator = create_test_evaluator();
    let result = eval_text(&evaluator, "${jq:setup.outputs.payload | .[0].name}").unwrap();
    let parts = result.as_sequence().unwrap();
    // A dotted context key nests its last part twice in the tree.
    let payload = YamlValue::Sequence(vec![person("Alice", 30), person("Bob", 25)]);
    assert!(same(&parts[0], &YamlValue::Mapping(vec![(text("payload"), payload)])));
    assert_eq!(parts[1].as_str().unwrap(), ".[0].name");
}

#[test]
fn jq_pipe_with_missing_root_is_an_error() {
    let evaluator = create_test_evaluator();
    let err = eval_text(&evaluator, "${jq:setup.missing | .x}").unwrap_err();
    assert_eq!(err, "Path not found in context: setup.missing");
}

#[test]
fn test_single_expression_preserves_type() {
    let evaluator = create_test_evaluator();
    assert!(same(&eval_text(&evaluator, "${ctx:vars.debug}").unwrap(), &YamlValue::Bool(true)));
    assert!(same(&eval_text(&evaluator, "${ctx:vars.timeout}").unwrap(), &num(30)));
}

#[test]
fn test_mixed_content_string_interpolation() {
    let evaluator = create_test_evaluator();
    assert!(same(&eval_text(&evaluator, "App: ${ctx:vars.app_name} v${ctx:vars.version}").unwrap(), &text("App: FlowBuilder v1.0.0")));
    assert!(same(&eval_text(&evaluator, "Host: ${env:DB_HOST}:${env:PORT}").unwrap(), &text("Host: localhost:8080")));
}

#[test]
fn test_non_string_values_passthrough() {
    let evaluator = create_test_evaluator();
    let number_value = num(42);
    assert!(same(&evaluator.evaluate_yaml(&RecordingHost, &number_value).unwrap(), &number_value));
    let bool_value = YamlValue::Bool(false);
    assert!(same(&evaluator.evaluate_yaml(&RecordingHost, &bool_value).unwrap(), &bool_value));
    let null_value = YamlValue::Null;
    assert!(same(&evaluator.evaluate_yaml(&RecordingHost, &null_value).unwrap(), &null_value));
}

#[test]
fn test_unknown_provider_error() {
    let evaluator = create_test_evaluator();
    let result = eval_text(&evaluator, "${unknown:test}");
    assert!(result.is_err());
    assert!(result.unwrap_err().contains("Unknown provider"));
}

#[test]
fn test_missing_env_var_error() {
    let evaluator = create_test_evaluator();
    let result = eval_text(&evaluator, "${env:MISSING_VAR}");
    assert!(result.is_err());
    assert!(result.unwrap_err().contains("Environment variable not found"));
}

#[test]
fn test_missing_context_path_error() {
    let evaluator = create_test_evaluator();
    let result = eval_text(&evaluator, "${ctx:missing.path}");
    assert!(result.is_err());
    assert!(result.unwrap_err().contains("Context path not found"));
}

#[test]
fn test_escaping_expressions() {
    let evaluator = create_test_evaluator();
    assert!(same(&eval_text(&evaluator, "Price: $100").unwrap(), &text("Price: $100")));
    match eval_text(&evaluator, "Formula: ${x} + ${y} = result") {
        Ok(val) => println!("Expression parsing resulted in: {:?}", val),
        Err(err) => assert!(err.contains("Context path not found")),
    }
}

#[test]
fn test_legacy_compatibility_comprehensive() {
    let evaluator = create_test_evaluator();
    let test_cases = vec![
        ("${{ env.TEST_ENV }}", "test_value"),
        ("${{ vars.app_name }}", "FlowBuilder"),
        ("${setup.outputs.id}", "setup_123"),
        ("$env:DB_HOST", "localhost"),
    ];
    for (expression, expected) in test_cases {
        let result = eval_text(&evaluator, expression).unwrap();
        assert!(same(&result, &text(expected)), "Failed for expression: {}", expression);
    }
}

#[test]
fn test_array_indexing_in_jq() {
    let evaluator = create_test_evaluator();
    let result = eval_text(&evaluator, "${jq:.setup.outputs.payload[0]}").unwrap();
    let parts = result.as_sequence().unwrap();
    assert_eq!(parts[1].as_str().unwrap(), ".setup.outputs.payload[0]");
}

#[test]
fn test_nested_object_access() {
    let evaluator = create_test_evaluator();
    let result = eval_text(&evaluator, "${jq:.setup.outputs.payload[0].name}").unwrap();
    let parts = result.as_sequence().unwrap();
    assert_eq!(parts[1].as_str().unwrap(), ".setup.outputs.payload[0].name");
}

#[test]
fn test_evaluate_yaml_vs_legacy_evaluate() {
    let mut evaluator = ExpressionEvaluator::new();
    let mut env_vars = StrMap::new();
    env_vars.insert("TEST_VAR".to_string(), "42".to_string());
    evaluator.set_env_vars(env_vars);
    let mut flow_vars = StrMap::new();
    flow_vars.insert("number".to_string(), num(123));
    flow_vars.insert("flag".to_string(), YamlValue::Bool(true));
    evaluator.set_flow_vars(flow_vars);

    let number_result = eval_text(&evaluator, "${ctx:vars.number}").unwrap();
    assert!(same(&number_result, &num(123)));
    let bool_result = eval_text(&evaluator, "${ctx:vars.flag}").unwrap();
    assert!(same(&bool_result, &YamlValue::Bool(true)));
    let mixed_result = eval_text(&evaluator, "Number: ${ctx:vars.number}, Flag: ${ctx:vars.flag}").unwrap();
    assert!(same(&mixed_result, &text("Number: 123, Flag: true")));
    let legacy_result = evaluator.evaluate(&RecordingHost, "${env:TEST_VAR}").unwrap();
    assert!(same(&legacy_result, &text("42")));
}

#[test]
fn interpolated_number_text_reads_back_as_number() {
    let evaluator = create_test_evaluator();
    assert!(same(&eval_text(&evaluator, "${env:PORT}0").unwrap(), &num(80800)));
    assert!(same(&eval_text(&evaluator, "${ctx:vars.debug}").unwrap(), &YamlValue::Bool(true)));
}

#[test]
fn conditions_combine_with_and_or() {
    let evaluator = create_test_evaluator();
    assert!(evaluator.evaluate_condition(&RecordingHost, "yes && also").unwrap());
    assert!(evaluator.evaluate_condition(&RecordingHost, "false || yes").unwrap());
    assert!(!evaluator.evaluate_condition(&RecordingHost, "false || false").unwrap());
    // An equality takes the whole rest of the text as its right side.
    assert!(!evaluator.evaluate_condition(&RecordingHost, "a == a && b == b").unwrap());
    assert!(evaluator.evaluate_condition(&RecordingHost, "a != b").unwrap());
    assert!(!evaluator.evaluate_condition(&RecordingHost, "").unwrap());
    assert!(evaluator.evaluate_condition(&RecordingHost, "${env:DB_HOST} == localhost").unwrap());
}

#[test]
fn context_values_set_and_read_back() {
    let mut evaluator = ExpressionEvaluator::new();
    evaluator.set_context_var("a.b", text("x"));
    assert_eq!(evaluator.get_context_var("a.b").unwrap().as_str().unwrap(), "x");
    assert!(evaluator.get_context_var("a").is_none());
    evaluator.set_context_var("a.b", text("y"));
    assert_eq!(evaluator.get_context_var("a.b").unwrap().as_str().unwrap(), "y");
}

#[test]
fn one_jq_result_stands_alone_and_others_form_a_sequence() {
    let one = flowbuilder::expression::jq_answer(vec![YamlValue::String("x".to_string())]);
    assert!(matches!(one, YamlValue::String(ref s) if s == "x"));
    let none = flowbuilder::expression::jq_answer(vec![]);
    assert!(matches!(none, YamlValue::Sequence(ref v) if v.is_empty()));
    let two = flowbuilder::expression::jq_answer(vec![YamlValue::Bool(true), YamlValue::Null]);
    match two {
        YamlValue::Sequence(v) => {
            assert_eq!(v.len(), 2);
            assert!(matches!(v[0], YamlValue::Bool(true)));
            assert!(matches!(v[1], YamlValue::Null));
        }
        _ => panic!("expected a sequence"),
    }
}
