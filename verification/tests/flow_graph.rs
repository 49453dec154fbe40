use flowbuilder::flow_graph::{FlowOrchestrator, FlowStep};

fn walk_all(orchestrator: FlowOrchestrator) -> Result<Vec<(String, bool)>, String> {
    let mut walk = orchestrator.begin_walk();
    let mut runs = Vec::new();
    loop {
        match walk.step() {
            FlowStep::Run { flow_id, record } => {
                runs.push((flow_id, record));
                walk.completed();
            }
            FlowStep::Continue => {}
            FlowStep::Done => return Ok(runs),
            FlowStep::Fail(e) => return Err(e),
        }
    }
}

fn registered(ids: &[&str]) -> FlowOrchestrator {
    let mut o = FlowOrchestrator::new();
    for id in ids {
        o.register_flow(id.to_string());
    }
    o
}

#[test]
fn dependencies_run_before_their_dependents() {
    let mut o = registered(&["a", "b", "c"]);
    o.add_dependency("a".to_string(), "b".to_string());
    o.add_dependency("b".to_string(), "c".to_string());
    let runs = walk_all(o).unwrap();
    assert_eq!(
        runs,
        vec![("c".to_string(), false), ("b".to_string(), false), ("a".to_string(), true)]
    );
}

#[test]
fn independent_flows_run_in_registration_order() {
    let o = registered(&["x", "y"]);
    let runs = walk_all(o).unwrap();
    assert_eq!(runs, vec![("x".to_string(), true), ("y".to_string(), true)]);
}

#[test]
fn shared_dependency_runs_once() {
    let mut o = registered(&["a", "b", "shared"]);
    o.add_dependency("a".to_string(), "shared".to_string());
    o.add_dependency("b".to_string(), "shared".to_string());
    o.add_dependency("b".to_string(), "shared".to_string());
    let runs = walk_all(o).unwrap();
    assert_eq!(
        runs,
        vec![("shared".to_string(), false), ("a".to_string(), true), ("b".to_string(), true)]
    );
}

#[test]
fn cycle_is_reported() {
    let mut o = registered(&["a", "b"]);
    o.add_dependency("a".to_string(), "b".to_string());
    o.add_dependency("b".to_string(), "a".to_string());
    assert_eq!(walk_all(o).unwrap_err(), "Circular dependency detected for flow: a");
}

#[test]
fn self_dependency_is_a_cycle() {
    let mut o = registered(&["a"]);
    o.add_dependency("a".to_string(), "a".to_string());
    assert_eq!(walk_all(o).unwrap_err(), "Circular dependency detected for flow: a");
}

#[test]
fn missing_dependency_is_reported() {
    let mut o = registered(&["a"]);
    o.add_dependency("a".to_string(), "ghost".to_string());
    assert_eq!(walk_all(o).unwrap_err(), "Flow not found: ghost");
}

#[test]
fn no_flows_is_done_at_once() {
    let mut walk = FlowOrchestrator::new().begin_walk();
    assert!(matches!(walk.step(), FlowStep::Done));
    assert!(!walk.running());
}
