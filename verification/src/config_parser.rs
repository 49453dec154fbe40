//! From a workflow configuration to execution nodes: one node per task,
//! with its actions merged, its type, dependencies, condition, priority,
//! retries and time limit.

use vstd::prelude::*;
use crate::strmap::StrMap;
use crate::yaml::{YamlValue, YamlModel, model_str};
use crate::config::{WorkflowConfig, Workflow, TaskDefinition, ActionDefinition, Action, ActionType, Parameter};
use crate::plan::{ActionSpec, ActionView, ExecutionNode, NodeType, NodeView, RetryConfig, RetryStrategy, RetryView, RetryStrategyView, TimeoutConfig, TimeoutView, ConfigParser};
use crate::context::views_of;
use crate::text::{decimal, decimal_string, opt_view, copy_opt, same_text, is_ascii, ascii_lower};
use crate::strings::{contains_text, contains_exec};
use crate::lexorder::{strictly_sorted, insert_sorted_unique};

verus! {

/// What `str::to_lowercase` returns for a text.
pub uninterp spec fn lowercase(s: Seq<char>) -> Seq<char>;

/// A text in lower case: letter by letter for an ASCII text, else what
/// `str::to_lowercase` returns.
pub open spec fn lower_text(s: Seq<char>) -> Seq<char> {
    if is_ascii(s) { s.map_values(|c: char| ascii_lower(c)) } else { lowercase(s) }
}

/// `str::to_lowercase`. The contract claims that the result is the named
/// function of the text and, for an ASCII text, that each letter is put in
/// lower case one for one and every other character is kept (the Unicode
/// lower-case mapping that the method applies, on ASCII).
#[verifier::external_body]
pub(crate) fn to_lower(s: &str) -> (r: String)
    ensures
        r@ == lowercase(s@),
        r@ == lower_text(s@),
{
    s.to_lowercase()
}

// ---------------------------------------------------------------------
// Specification

/// The type name of an action, as its lower-case variant name.
pub open spec fn action_type_name(t: ActionType) -> Seq<char> {
    match t {
        ActionType::Cmd => "cmd"@,
        ActionType::Http => "http"@,
        ActionType::Builtin => "builtin"@,
        ActionType::Wasm => "wasm"@,
    }
}

pub open spec fn params_model(ps: StrMap<Parameter>) -> Map<Seq<char>, YamlModel> {
    ps@.map_values(|p: Parameter| p.value_model())
}

/// One action as a node's action.
pub open spec fn single_action(a: ActionDefinition) -> ActionView {
    ActionView { action_type: action_type_name(a.action_type), parameters: params_model(a.parameters), outputs: a.outputs.model() }
}

/// The prefix of action `i`'s keys in a merged action.
pub open spec fn action_prefix(i: nat) -> Seq<char> {
    "action_"@ + decimal(i) + "_"@
}

/// `m` with the first `n` entries of `keys`/`vals` added under `pre`.
pub open spec fn add_prefixed(m: Map<Seq<char>, YamlModel>, pre: Seq<char>, keys: Seq<Seq<char>>, vals: Seq<YamlModel>, n: nat) -> Map<Seq<char>, YamlModel>
    decreases n,
{
    if n == 0 {
        m
    } else {
        add_prefixed(m, pre, keys, vals, (n - 1) as nat).insert(pre + keys[n - 1], vals[n - 1])
    }
}

pub open spec fn param_vals(ps: StrMap<Parameter>) -> Seq<YamlModel> {
    ps.value_seq().map_values(|p: Parameter| p.value_model())
}

pub open spec fn output_vals(os: StrMap<YamlValue>) -> Seq<YamlModel> {
    os.value_seq().map_values(|v: YamlValue| v.model())
}

/// The parameters of the first `n` actions, each under its action's prefix.
pub open spec fn merged_params(actions: Seq<Action>, n: nat) -> Map<Seq<char>, YamlModel>
    decreases n,
{
    if n == 0 {
        Map::empty()
    } else {
        let a = actions[n - 1].action;
        add_prefixed(merged_params(actions, (n - 1) as nat), action_prefix((n - 1) as nat), a.parameters.key_seq(), param_vals(a.parameters), a.parameters.key_seq().len())
    }
}

/// The outputs of the first `n` actions, each under its action's prefix.
pub open spec fn merged_outputs(actions: Seq<Action>, n: nat) -> Map<Seq<char>, YamlModel>
    decreases n,
{
    if n == 0 {
        Map::empty()
    } else {
        let a = actions[n - 1].action;
        add_prefixed(merged_outputs(actions, (n - 1) as nat), action_prefix((n - 1) as nat), a.outputs.key_seq(), output_vals(a.outputs), a.outputs.key_seq().len())
    }
}

/// A task's action: the one action as it is, or all of them merged into a
/// composite whose keys carry each action's prefix.
pub open spec fn task_action(t: TaskDefinition) -> Result<ActionView, Seq<char>> {
    let n = t.actions@.len();
    if n == 0 {
        Err("任务 "@ + t.id@ + " 没有动作"@)
    } else if n == 1 {
        Ok(single_action(t.actions@[0].action))
    } else {
        Ok(ActionView { action_type: "composite"@, parameters: merged_params(t.actions@, n), outputs: merged_outputs(t.actions@, n) })
    }
}

/// `next` names a task (and is not the text `null`).
pub open spec fn real_next(a: ActionDefinition) -> Option<Seq<char>> {
    match opt_view(a.flow.next) {
        Some(n) => if n == "null"@ { None } else { Some(n) },
        None => None,
    }
}

/// A condition node when some action has `next_if`, a loop when some
/// action repeats (whichever comes first, action by action); else a branch
/// when some action names a next task; else an action.
pub open spec fn first_flow_kind(actions: Seq<Action>) -> Option<NodeType>
    decreases actions.len(),
{
    if actions.len() == 0 {
        None
    } else if actions[0].action.flow.next_if is Some {
        Some(NodeType::Condition)
    } else if actions[0].action.flow.while_util is Some {
        Some(NodeType::Loop)
    } else {
        first_flow_kind(actions.subrange(1, actions.len() as int))
    }
}

pub open spec fn node_kind(t: TaskDefinition) -> NodeType {
    match first_flow_kind(t.actions@) {
        Some(k) => k,
        None => if exists|i: int| 0 <= i < t.actions@.len() && (#[trigger] real_next(t.actions@[i].action)) is Some {
            NodeType::Branch
        } else {
            NodeType::Action
        },
    }
}

proof fn lemma_flow_kind_loop(actions: Seq<Action>, k: int)
    requires
        0 <= k < actions.len(),
        actions[k].action.flow.while_util is Some,
        forall|j: int| 0 <= j <= k ==> (#[trigger] actions[j]).action.flow.next_if is None,
    ensures
        first_flow_kind(actions) == Some(NodeType::Loop),
    decreases k,
{
    if k > 0 && actions[0].action.flow.while_util is None {
        let rest = actions.subrange(1, actions.len() as int);
        assert forall|j: int| 0 <= j <= k - 1 implies (#[trigger] rest[j]).action.flow.next_if is None by {
            assert(rest[j] == actions[j + 1]);
        }
        assert(rest[k - 1] == actions[k]);
        lemma_flow_kind_loop(rest, k - 1);
    }
    assert(actions[0].action.flow.next_if is None);
}

proof fn lemma_flow_kind_condition(actions: Seq<Action>, k: int)
    requires
        0 <= k < actions.len(),
        actions[k].action.flow.next_if is Some,
        forall|j: int| 0 <= j < k ==> (#[trigger] actions[j]).action.flow.while_util is None,
    ensures
        first_flow_kind(actions) == Some(NodeType::Condition),
    decreases k,
{
    if k > 0 && actions[0].action.flow.next_if is None {
        let rest = actions.subrange(1, actions.len() as int);
        assert forall|j: int| 0 <= j < k - 1 implies (#[trigger] rest[j]).action.flow.while_util is None by {
            assert(rest[j] == actions[j + 1]);
        }
        assert(rest[k - 1] == actions[k]);
        assert(actions[0].action.flow.while_util is None);
        lemma_flow_kind_condition(rest, k - 1);
    }
}

proof fn lemma_flow_kind_plain(actions: Seq<Action>)
    requires
        forall|j: int| 0 <= j < actions.len() ==> (#[trigger] actions[j]).action.flow.next_if is None
            && actions[j].action.flow.while_util is None,
    ensures
        first_flow_kind(actions) is None,
    decreases actions.len(),
{
    if actions.len() > 0 {
        let rest = actions.subrange(1, actions.len() as int);
        assert forall|j: int| 0 <= j < rest.len() implies (#[trigger] rest[j]).action.flow.next_if is None
            && rest[j].action.flow.while_util is None by {
            assert(rest[j] == actions[j + 1]);
        }
        assert(actions[0].action.flow.next_if is None);
        lemma_flow_kind_plain(rest);
    }
}

/// The type of the node a task parses to: a loop when one of its actions
/// has a `while_util` and neither that action nor an earlier one has a
/// `next_if`; a condition when one of its actions has a `next_if` and no
/// earlier action has a `while_util`; with neither, a branch or a plain
/// action.
pub proof fn law_node_type_from_flow(w: Workflow, t: TaskDefinition, n: NodeView, k: int)
    requires
        node_of(w, t, n),
    ensures
        0 <= k < t.actions@.len() && t.actions@[k].action.flow.while_util is Some
            && (forall|j: int| 0 <= j <= k ==> (#[trigger] t.actions@[j]).action.flow.next_if is None)
            ==> n.node_type == NodeType::Loop,
        0 <= k < t.actions@.len() && t.actions@[k].action.flow.next_if is Some
            && (forall|j: int| 0 <= j < k ==> (#[trigger] t.actions@[j]).action.flow.while_util is None)
            ==> n.node_type == NodeType::Condition,
        (forall|j: int| 0 <= j < t.actions@.len() ==> (#[trigger] t.actions@[j]).action.flow.next_if is None
            && t.actions@[j].action.flow.while_util is None)
            ==> (n.node_type == NodeType::Branch || n.node_type == NodeType::Action),
{
    if 0 <= k < t.actions@.len() && t.actions@[k].action.flow.while_util is Some
        && (forall|j: int| 0 <= j <= k ==> (#[trigger] t.actions@[j]).action.flow.next_if is None) {
        lemma_flow_kind_loop(t.actions@, k);
    }
    if 0 <= k < t.actions@.len() && t.actions@[k].action.flow.next_if is Some
        && (forall|j: int| 0 <= j < k ==> (#[trigger] t.actions@[j]).action.flow.while_util is None) {
        lemma_flow_kind_condition(t.actions@, k);
    }
    if forall|j: int| 0 <= j < t.actions@.len() ==> (#[trigger] t.actions@[j]).action.flow.next_if is None
        && t.actions@[j].action.flow.while_util is None {
        lemma_flow_kind_plain(t.actions@);
    }
}

/// Some action of the task names `id` as the next task.
pub open spec fn points_to(t: TaskDefinition, id: Seq<char>) -> bool {
    exists|i: int| 0 <= i < t.actions@.len() && #[trigger] real_next(t.actions@[i].action) == Some(id)
}

/// The ids of the tasks that name `id` as their next task: the tasks that
/// run before it.
pub open spec fn referrers(w: Workflow, id: Seq<char>) -> Set<Seq<char>> {
    Set::new(|x: Seq<char>| exists|j: int| 0 <= j < w.tasks@.len() && w.tasks@[j].task.id@ == x && points_to(w.tasks@[j].task, id))
}

pub open spec fn first_action(t: TaskDefinition) -> Option<ActionDefinition> {
    if t.actions@.len() > 0 { Some(t.actions@[0].action) } else { None }
}

/// Priority by the words in the lower-cased name or description.
pub open spec fn priority_of(name: Seq<char>, desc: Seq<char>) -> u32 {
    let n = lower_text(name);
    let d = lower_text(desc);
    if contains_text(n, "critical"@) || contains_text(d, "critical"@) {
        1
    } else if contains_text(n, "urgent"@) || contains_text(d, "urgent"@) {
        2
    } else if contains_text(n, "high"@) || contains_text(d, "high"@) {
        10
    } else if contains_text(n, "low"@) || contains_text(d, "low"@) {
        200
    } else {
        100
    }
}

/// Retries from the first action: fixed delays when there is a delay,
/// else exponential with multiplier 2.
pub open spec fn retry_of(t: TaskDefinition) -> Option<RetryView> {
    match first_action(t) {
        Some(a) => match a.flow.retry {
            Some(r) => Some(RetryView {
                max_retries: r.max_retries,
                delay: r.delay,
                strategy: if r.delay > 0 { RetryStrategyView::Fixed } else { RetryStrategyView::Exponential { multiplier: "2.0"@ } },
            }),
            None => None,
        },
        None => None,
    }
}

/// The time limit of the first action, with its `on_timeout`.
pub open spec fn timeout_of(t: TaskDefinition) -> Option<TimeoutView> {
    match first_action(t) {
        Some(a) => match a.flow.timeout {
            Some(to) => Some(TimeoutView { duration: to.duration, on_timeout: opt_view(a.flow.on_timeout) }),
            None => None,
        },
        None => None,
    }
}

/// The node for a task of a workflow.
pub open spec fn node_of(w: Workflow, t: TaskDefinition, n: NodeView) -> bool {
    &&& task_action(t) == Ok::<ActionView, Seq<char>>(n.action)
    &&& n.id == t.id@
    &&& n.name == t.name@
    &&& n.node_type == node_kind(t)
    &&& strictly_sorted(n.dependencies)
    &&& n.dependencies.to_set() == referrers(w, t.id@)
    &&& n.condition == match first_action(t) { Some(a) => opt_view(a.flow.next_if), None => None }
    &&& n.priority == priority_of(t.name@, t.description@)
    &&& n.retry == retry_of(t)
    &&& n.timeout == timeout_of(t)
}

/// The first task without actions, if any.
pub open spec fn first_empty_task(tasks: Seq<crate::config::Task>) -> int
    decreases tasks.len(),
{
    if tasks.len() == 0 {
        -1
    } else if first_empty_task(tasks.drop_last()) >= 0 {
        first_empty_task(tasks.drop_last())
    } else if tasks.last().task.actions@.len() == 0 {
        tasks.len() - 1
    } else {
        -1
    }
}

/// The workflow name: the text of the `name` variable, or `Unknown
/// Workflow`.
pub open spec fn workflow_name_of(w: Workflow) -> Seq<char> {
    if w.vars@.contains_key("name"@) && model_str(w.vars@["name"@].model()) is Some {
        model_str(w.vars@["name"@].model())->0
    } else {
        "Unknown Workflow"@
    }
}

// ---------------------------------------------------------------------
// Parser

/// Turns a workflow configuration into execution nodes.
pub struct YamlConfigParser {
    config: WorkflowConfig,
}

/// Nodes with the workflow's variables, name and version.
pub struct ParseResult {
    pub nodes: Vec<ExecutionNode>,
    pub env_vars: StrMap<String>,
    pub flow_vars: StrMap<YamlValue>,
    pub workflow_name: String,
    pub workflow_version: String,
}

fn params_to_values(ps: &StrMap<Parameter>) -> (r: StrMap<YamlValue>)
    ensures
        r.model() == params_model(*ps),
{
    let es = ps.entries();
    let mut out: StrMap<YamlValue> = StrMap::empty_values();
    let mut i: usize = 0;
    proof {
        assert forall|k: int| 0 <= k < es@.len() implies #[trigger] es@[k].0@ == ps.key_seq()[k] && es@[k].1 == ps.value_seq()[k] by {
            assert(es@[k].0@ == ps.key_seq()[k]);
        }
        assert(Map::new(|k: Seq<char>| ps.key_seq().take(0).contains(k), |k: Seq<char>| ps@[k].value_model()) =~= Map::<Seq<char>, YamlModel>::empty());
    }
    while i < es.len()
        invariant
            i <= es@.len(),
            es@.len() == ps.key_seq().len(),
            ps.key_seq().len() == ps.value_seq().len(),
            forall|k: int| 0 <= k < es@.len() ==> #[trigger] es@[k].0@ == ps.key_seq()[k] && es@[k].1 == ps.value_seq()[k],
            forall|x: Seq<char>| #[trigger] ps@.contains_key(x) <==> ps.key_seq().contains(x),
            forall|k: int| 0 <= k < ps.key_seq().len() ==> #[trigger] ps@[ps.key_seq()[k]] == ps.value_seq()[k],
            out.model() == Map::new(|k: Seq<char>| ps.key_seq().take(i as int).contains(k), |k: Seq<char>| ps@[k].value_model()),
        decreases es@.len() - i,
    {
        proof {
            assert(es@[i as int].0@ == ps.key_seq()[i as int]);
        }
        let v = es[i].1.to_value();
        let ghost before = out;
        out.insert(es[i].0.clone(), v);
        proof {
            StrMap::<YamlValue>::lemma_model_insert(before, out, ps.key_seq()[i as int], v);
            let key = ps.key_seq()[i as int];
            assert(ps@[key] == ps.value_seq()[i as int]);
            assert(v.model() == ps@[key].value_model());
            let target = Map::new(|k: Seq<char>| ps.key_seq().take(i as int + 1).contains(k), |k: Seq<char>| ps@[k].value_model());
            let prev = Map::new(|k: Seq<char>| ps.key_seq().take(i as int).contains(k), |k: Seq<char>| ps@[k].value_model());
            assert(before.model() == prev);
            assert(out.model() == prev.insert(key, ps@[key].value_model()));
            assert forall|k: Seq<char>| #[trigger] target.contains_key(k) <==> prev.insert(key, ps@[key].value_model()).contains_key(k) by {
                assert(target.contains_key(k) == ps.key_seq().take(i as int + 1).contains(k));
                assert(prev.contains_key(k) == ps.key_seq().take(i as int).contains(k));
                if ps.key_seq().take(i as int + 1).contains(k) {
                    let j = choose|j: int| 0 <= j < i + 1 && #[trigger] ps.key_seq().take(i as int + 1)[j] == k;
                    if j < i {
                        assert(ps.key_seq().take(i as int)[j] == k);
                    }
                }
                if ps.key_seq().take(i as int).contains(k) {
                    let j = choose|j: int| 0 <= j < i && #[trigger] ps.key_seq().take(i as int)[j] == k;
                    assert(ps.key_seq().take(i as int + 1)[j] == k);
                }
                if k == key {
                    assert(ps.key_seq().take(i as int + 1)[i as int] == k);
                }
            }
            assert forall|k: Seq<char>| target.contains_key(k) implies #[trigger] target[k] == prev.insert(key, ps@[key].value_model())[k] by {
            }
            assert(target =~= prev.insert(key, ps@[key].value_model()));
        }
        i = i + 1;
    }
    proof {
        assert(ps.key_seq().take(ps.key_seq().len() as int) =~= ps.key_seq());
        assert(out.model() =~= params_model(*ps));
    }
    out
}


fn add_prefixed_params(out: &mut StrMap<YamlValue>, pre: &String, ps: &StrMap<Parameter>)
    ensures
        final(out).model() == add_prefixed(old(out).model(), pre@, ps.key_seq(), param_vals(*ps), ps.key_seq().len()),
{
    let es = ps.entries();
    proof {
        assert forall|k: int| 0 <= k < es@.len() implies #[trigger] es@[k].0@ == ps.key_seq()[k] && es@[k].1 == ps.value_seq()[k] by {
            assert(es@[k].0@ == ps.key_seq()[k]);
        }
    }
    let ghost start = out.model();
    let mut i: usize = 0;
    while i < es.len()
        invariant
            i <= es@.len(),
            es@.len() == ps.key_seq().len(),
            ps.key_seq().len() == ps.value_seq().len(),
            forall|k: int| 0 <= k < es@.len() ==> #[trigger] es@[k].0@ == ps.key_seq()[k] && es@[k].1 == ps.value_seq()[k],
            out.model() == add_prefixed(start, pre@, ps.key_seq(), param_vals(*ps), i as nat),
        decreases es@.len() - i,
    {
        proof {
            assert(es@[i as int].0@ == ps.key_seq()[i as int]);
        }
        let mut key = pre.clone();
        key.append(es[i].0.as_str());
        let v = es[i].1.to_value();
        let ghost before = *out;
        let ghost kv = key@;
        out.insert(key, v);
        proof {
            StrMap::<YamlValue>::lemma_model_insert(before, *out, kv, v);
            assert(param_vals(*ps)[i as int] == ps.value_seq()[i as int].value_model());
        }
        i = i + 1;
    }
}

fn add_prefixed_outputs(out: &mut StrMap<YamlValue>, pre: &String, os: &StrMap<YamlValue>)
    ensures
        final(out).model() == add_prefixed(old(out).model(), pre@, os.key_seq(), output_vals(*os), os.key_seq().len()),
{
    let es = os.entries();
    proof {
        assert forall|k: int| 0 <= k < es@.len() implies #[trigger] es@[k].0@ == os.key_seq()[k] && es@[k].1 == os.value_seq()[k] by {
            assert(es@[k].0@ == os.key_seq()[k]);
        }
    }
    let ghost start = out.model();
    let mut i: usize = 0;
    while i < es.len()
        invariant
            i <= es@.len(),
            es@.len() == os.key_seq().len(),
            os.key_seq().len() == os.value_seq().len(),
            forall|k: int| 0 <= k < es@.len() ==> #[trigger] es@[k].0@ == os.key_seq()[k] && es@[k].1 == os.value_seq()[k],
            out.model() == add_prefixed(start, pre@, os.key_seq(), output_vals(*os), i as nat),
        decreases es@.len() - i,
    {
        proof {
            assert(es@[i as int].0@ == os.key_seq()[i as int]);
        }
        let mut key = pre.clone();
        key.append(es[i].0.as_str());
        let v = es[i].1.duplicate();
        let ghost before = *out;
        let ghost kv = key@;
        out.insert(key, v);
        proof {
            StrMap::<YamlValue>::lemma_model_insert(before, *out, kv, v);
            assert(output_vals(*os)[i as int] == os.value_seq()[i as int].model());
        }
        i = i + 1;
    }
}

fn action_type_text(t: ActionType) -> (r: String)
    ensures
        r@ == action_type_name(t),
{
    match t {
        ActionType::Cmd => "cmd".to_string(),
        ActionType::Http => "http".to_string(),
        ActionType::Builtin => "builtin".to_string(),
        ActionType::Wasm => "wasm".to_string(),
    }
}

/// Whether an action names a next task.
fn has_real_next(a: &ActionDefinition) -> (r: Option<&String>)
    ensures
        match r {
            Some(n) => real_next(*a) == Some(n@),
            None => real_next(*a) is None,
        },
{
    match &a.flow.next {
        Some(n) => {
            if same_text(n, "null") {
                None
            } else {
                Some(n)
            }
        },
        None => None,
    }
}

impl YamlConfigParser {
    pub closed spec fn workflow(&self) -> Workflow {
        self.config.workflow
    }

    /// A parser for a configuration.
    pub fn new(config: WorkflowConfig) -> (r: Self)
        ensures
            r.workflow() == config.workflow,
    {
        YamlConfigParser { config }
    }

    /// The configuration being parsed.
    pub fn workflow_config(&self) -> (r: &WorkflowConfig)
        ensures
            r.workflow == self.workflow(),
    {
        &self.config
    }

    /// One action as a node's action.
    fn convert_action_to_spec(&self, action: &ActionDefinition) -> (r: ActionSpec)
        ensures
            r@ == single_action(*action),
    {
        ActionSpec {
            action_type: action_type_text(action.action_type),
            parameters: params_to_values(&action.parameters),
            outputs: action.outputs.duplicate(),
        }
    }

    /// The task's action: its only action, or all of its actions merged
    /// under prefixed keys.
    fn merge_task_actions(&self, task: &TaskDefinition) -> (r: Result<ActionSpec, String>)
        ensures
            match r {
                Ok(a) => task_action(*task) == Ok::<ActionView, Seq<char>>(a@),
                Err(e) => task_action(*task) == Err::<ActionView, Seq<char>>(e@),
            },
    {
        let n = task.actions.len();
        if n == 0 {
            let mut msg = "任务 ".to_string();
            msg.append(task.id.as_str());
            msg.append(" 没有动作");
            return Err(msg);
        }
        if n == 1 {
            return Ok(self.convert_action_to_spec(&task.actions[0].action));
        }
        let mut parameters: StrMap<YamlValue> = StrMap::empty_values();
        let mut outputs: StrMap<YamlValue> = StrMap::empty_values();
        let mut i: usize = 0;
        while i < n
            invariant
                i <= n,
                n == task.actions@.len(),
                parameters.model() == merged_params(task.actions@, i as nat),
                outputs.model() == merged_outputs(task.actions@, i as nat),
            decreases n - i,
        {
            let action = &task.actions[i].action;
            let mut pre = "action_".to_string();
            let digits = decimal_string(i as u64);
            pre.append(digits.as_str());
            pre.append("_");
            proof {
                assert(pre@ == action_prefix(i as nat));
            }
            add_prefixed_params(&mut parameters, &pre, &action.parameters);
            add_prefixed_outputs(&mut outputs, &pre, &action.outputs);
            i = i + 1;
        }
        Ok(ActionSpec { action_type: "composite".to_string(), parameters, outputs })
    }

    /// Condition when some action has `next_if`, loop when some action
    /// repeats (the first such action decides); else branch when some
    /// action names a next task; else action.
    fn determine_node_type(&self, task: &TaskDefinition) -> (r: NodeType)
        ensures
            r == node_kind(*task),
    {
        let ghost acts = task.actions@;
        let mut i: usize = 0;
        proof {
            assert(acts.skip(0) =~= acts);
        }
        while i < task.actions.len()
            invariant
                i <= acts.len(),
                acts == task.actions@,
                first_flow_kind(acts) == first_flow_kind(acts.skip(i as int)),
            decreases acts.len() - i,
        {
            let a = &task.actions[i].action;
            proof {
                let s = acts.skip(i as int);
                assert(s[0] == acts[i as int]);
                assert(s.subrange(1, s.len() as int) =~= acts.skip(i as int + 1));
            }
            if a.flow.next_if.is_some() {
                return NodeType::Condition;
            }
            if a.flow.while_util.is_some() {
                return NodeType::Loop;
            }
            i = i + 1;
        }
        proof {
            assert(acts.skip(i as int).len() == 0);
        }
        let mut j: usize = 0;
        while j < task.actions.len()
            invariant
                j <= acts.len(),
                acts == task.actions@,
                first_flow_kind(acts) is None,
                forall|k: int| 0 <= k < j ==> (#[trigger] real_next(acts[k].action)) is None,
            decreases acts.len() - j,
        {
            if has_real_next(&task.actions[j].action).is_some() {
                return NodeType::Branch;
            }
            j = j + 1;
        }
        NodeType::Action
    }

    fn extract_dependencies(&self, task: &TaskDefinition) -> (r: Vec<String>)
        ensures
            strictly_sorted(views_of(r@)),
            views_of(r@).to_set() == referrers(self.workflow(), task.id@),
    {
        let tasks = &self.config.workflow.tasks;
        let mut deps: Vec<String> = Vec::new();
        let mut j: usize = 0;
        proof {
            assert(views_of(deps@).to_set() =~= Set::<Seq<char>>::empty());
        }
        while j < tasks.len()
            invariant
                j <= tasks@.len(),
                *tasks == self.workflow().tasks,
                strictly_sorted(views_of(deps@)),
                views_of(deps@).to_set() == Set::new(|x: Seq<char>| exists|m: int| 0 <= m < j && tasks@[m].task.id@ == x && points_to(tasks@[m].task, task.id@)),
            decreases tasks@.len() - j,
        {
            let other = &tasks[j].task;
            let mut k: usize = 0;
            let mut hit = false;
            while k < other.actions.len()
                invariant
                    k <= other.actions@.len(),
                    hit ==> points_to(*other, task.id@),
                    !hit ==> forall|m: int| 0 <= m < k ==> (#[trigger] real_next(other.actions@[m].action)) != Some(task.id@),
                decreases other.actions@.len() - k,
            {
                match has_real_next(&other.actions[k].action) {
                    Some(n) => {
                        if *n == task.id {
                            hit = true;
                        }
                    },
                    None => {},
                }
                k = k + 1;
            }
            let ghost before = views_of(deps@).to_set();
            if hit {
                insert_sorted_unique(&mut deps, other.id.clone());
            }
            proof {
                let want = Set::new(|x: Seq<char>| exists|m: int| 0 <= m < j + 1 && tasks@[m].task.id@ == x && points_to(tasks@[m].task, task.id@));
                assert(tasks@[j as int].task == *other);
                assert forall|x: Seq<char>| views_of(deps@).to_set().contains(x) <==> want.contains(x) by {
                    if want.contains(x) {
                        let m = choose|m: int| 0 <= m < j + 1 && tasks@[m].task.id@ == x && points_to(tasks@[m].task, task.id@);
                        if m < j {
                            assert(before.contains(x));
                        }
                    }
                    if before.contains(x) {
                        let m = choose|m: int| 0 <= m < j && tasks@[m].task.id@ == x && points_to(tasks@[m].task, task.id@);
                        assert(want.contains(x));
                    }
                }
                assert(views_of(deps@).to_set() =~= want);
            }
            j = j + 1;
        }
        proof {
            assert(views_of(deps@).to_set() =~= referrers(self.workflow(), task.id@));
        }
        deps
    }

    /// The first action's `next_if`.
    fn extract_condition(&self, task: &TaskDefinition) -> (r: Option<String>)
        ensures
            opt_view(r) == match first_action(*task) { Some(a) => opt_view(a.flow.next_if), None => None },
    {
        if task.actions.len() > 0 {
            copy_opt(&task.actions[0].action.flow.next_if)
        } else {
            None
        }
    }

    /// 1 for `critical`, 2 for `urgent`, 10 for `high`, 200 for `low` in the
    /// lower-cased name or description, else 100.
    fn determine_priority(&self, task: &TaskDefinition) -> (r: u32)
        ensures
            r == priority_of(task.name@, task.description@),
    {
        let name = to_lower(task.name.as_str());
        let desc = to_lower(task.description.as_str());
        proof {
            reveal_strlit("critical");
            reveal_strlit("urgent");
            reveal_strlit("high");
            reveal_strlit("low");
        }
        if contains_exec(name.as_str(), "critical") || contains_exec(desc.as_str(), "critical") {
            1
        } else if contains_exec(name.as_str(), "urgent") || contains_exec(desc.as_str(), "urgent") {
            2
        } else if contains_exec(name.as_str(), "high") || contains_exec(desc.as_str(), "high") {
            10
        } else if contains_exec(name.as_str(), "low") || contains_exec(desc.as_str(), "low") {
            200
        } else {
            100
        }
    }

    /// Retries from the first action.
    fn extract_retry_config(&self, task: &TaskDefinition) -> (r: Option<RetryConfig>)
        ensures
            match r {
                Some(c) => retry_of(*task) == Some(c@),
                None => retry_of(*task) is None,
            },
    {
        if task.actions.len() > 0 {
            match &task.actions[0].action.flow.retry {
                Some(retry) => {
                    let strategy = if retry.delay > 0 {
                        RetryStrategy::Fixed
                    } else {
                        RetryStrategy::Exponential { multiplier: "2.0".to_string() }
                    };
                    Some(RetryConfig { max_retries: retry.max_retries, delay: retry.delay, strategy })
                },
                None => None,
            }
        } else {
            None
        }
    }

    /// The time limit from the first action.
    fn extract_timeout_config(&self, task: &TaskDefinition) -> (r: Option<TimeoutConfig>)
        ensures
            match r {
                Some(c) => timeout_of(*task) == Some(c@),
                None => timeout_of(*task) is None,
            },
    {
        if task.actions.len() > 0 {
            let a = &task.actions[0].action;
            match &a.flow.timeout {
                Some(t) => Some(TimeoutConfig { duration: t.duration, on_timeout: copy_opt(&a.flow.on_timeout) }),
                None => None,
            }
        } else {
            None
        }
    }

    /// The node for a task.
    fn create_execution_node(&self, task: &TaskDefinition) -> (r: Result<ExecutionNode, String>)
        ensures
            match r {
                Ok(n) => node_of(self.workflow(), *task, n@),
                Err(e) => task_action(*task) == Err::<ActionView, Seq<char>>(e@),
            },
    {
        let action_spec = match self.merge_task_actions(task) {
            Ok(a) => a,
            Err(e) => return Err(e),
        };
        let mut node = ExecutionNode::new(task.id.clone(), task.name.clone(), action_spec);
        node.node_type = self.determine_node_type(task);
        node.dependencies = self.extract_dependencies(task);
        node.condition = self.extract_condition(task);
        node.priority = self.determine_priority(task);
        node.retry_config = self.extract_retry_config(task);
        node.timeout_config = self.extract_timeout_config(task);
        Ok(node)
    }

    /// One node per task, in order; the first task without actions fails it.
    pub fn parse(&self) -> (r: Result<Vec<ExecutionNode>, String>)
        ensures
            nodes_result(self.workflow(), r),
    {
        let tasks = &self.config.workflow.tasks;
        let mut nodes: Vec<ExecutionNode> = Vec::new();
        let mut i: usize = 0;
        while i < tasks.len()
            invariant
                i <= tasks@.len(),
                *tasks == self.workflow().tasks,
                first_empty_task(tasks@.take(i as int)) < 0,
                nodes@.len() == i,
                forall|k: int| 0 <= k < i ==> node_of(self.workflow(), tasks@[k].task, (#[trigger] nodes@[k])@),
            decreases tasks@.len() - i,
        {
            proof {
                assert(tasks@.take(i as int + 1).drop_last() =~= tasks@.take(i as int));
                assert(tasks@.take(i as int + 1).last() == tasks@[i as int]);
            }
            match self.create_execution_node(&tasks[i].task) {
                Ok(node) => {
                    nodes.push(node);
                },
                Err(e) => {
                    proof {
                        lemma_first_empty_prefix(tasks@, i as int);
                    }
                    return Err(e);
                },
            }
            i = i + 1;
        }
        proof {
            assert(tasks@.take(tasks@.len() as int) =~= tasks@);
        }
        Ok(nodes)
    }

    /// Checks the configuration: tasks, each with an id, a name and actions,
    /// each action with an id and a name.
    pub fn validate(&self) -> (r: Result<(), String>)
        ensures
            r is Ok <==> (self.workflow().tasks@.len() > 0 && forall|i: int| 0 <= i < self.workflow().tasks@.len()
                ==> task_valid(#[trigger] self.workflow().tasks@[i].task)),
            r matches Err(e) ==> e@ == parser_validation_error(self.workflow().tasks@),
    {
        let tasks = &self.config.workflow.tasks;
        if tasks.len() == 0 {
            return Err("工作流没有任务".to_string());
        }
        let mut i: usize = 0;
        proof {
            assert(tasks@.skip(0) =~= tasks@);
        }
        while i < tasks.len()
            invariant
                i <= tasks@.len(),
                *tasks == self.workflow().tasks,
                tasks@.len() > 0,
                forall|k: int| 0 <= k < i ==> task_valid(#[trigger] tasks@[k].task),
                parser_validation_error(tasks@) == first_task_error(tasks@.skip(i as int)),
            decreases tasks@.len() - i,
        {
            let t = &tasks[i].task;
            proof {
                let s = tasks@.skip(i as int);
                assert(s[0] == tasks@[i as int]);
                assert(s.subrange(1, s.len() as int) =~= tasks@.skip(i as int + 1));
            }
            if t.id.unicode_len() == 0 {
                return Err("任务ID不能为空".to_string());
            }
            if t.name.unicode_len() == 0 {
                return Err("任务名称不能为空".to_string());
            }
            if t.actions.len() == 0 {
                let mut msg = "任务 ".to_string();
                msg.append(t.id.as_str());
                msg.append(" 没有动作");
                return Err(msg);
            }
            let mut k: usize = 0;
            proof {
                assert(t.actions@.skip(0) =~= t.actions@);
            }
            while k < t.actions.len()
                invariant
                    k <= t.actions@.len(),
                    i < tasks@.len(),
                    *tasks == self.workflow().tasks,
                    tasks@[i as int].task == *t,
                    t.id@.len() > 0 && t.name@.len() > 0 && t.actions@.len() > 0,
                    parser_validation_error(tasks@) == first_task_error(tasks@.skip(i as int)),
                    tasks@.skip(i as int)[0] == tasks@[i as int],
                    forall|m: int| 0 <= m < k ==> action_valid(#[trigger] t.actions@[m].action),
                    first_action_error(t.actions@) == first_action_error(t.actions@.skip(k as int)),
                decreases t.actions@.len() - k,
            {
                let a = &t.actions[k].action;
                proof {
                    let s = t.actions@.skip(k as int);
                    assert(s[0] == t.actions@[k as int]);
                    assert(s.subrange(1, s.len() as int) =~= t.actions@.skip(k as int + 1));
                }
                if a.id.unicode_len() == 0 {
                    return Err("动作ID不能为空".to_string());
                }
                if a.name.unicode_len() == 0 {
                    return Err("动作名称不能为空".to_string());
                }
                k = k + 1;
            }
            proof {
                assert(t.actions@.skip(k as int).len() == 0);
            }
            i = i + 1;
        }
        Ok(())
    }

    /// The environment variables.
    pub fn get_env_vars(&self) -> (r: StrMap<String>)
        ensures
            r@ == self.workflow().env@,
            r.key_seq() == self.workflow().env.key_seq(),
    {
        self.config.workflow.env.duplicate()
    }

    /// The flow variables.
    pub fn get_flow_vars(&self) -> (r: StrMap<YamlValue>)
        ensures
            r.model() == self.workflow().vars.model(),
            r.key_seq() == self.workflow().vars.key_seq(),
            r@.dom() == self.workflow().vars@.dom(),
    {
        self.config.workflow.vars.duplicate()
    }

    /// The text of the `name` variable, or `Unknown Workflow`.
    pub fn get_workflow_name(&self) -> (r: String)
        ensures
            r@ == workflow_name_of(self.workflow()),
    {
        match self.config.workflow.vars.get("name") {
            Some(v) => match v.as_str() {
                Some(s) => s.clone(),
                None => "Unknown Workflow".to_string(),
            },
            None => "Unknown Workflow".to_string(),
        }
    }

    /// The workflow version.
    pub fn get_workflow_version(&self) -> (r: String)
        ensures
            r@ == self.workflow().version@,
    {
        self.config.workflow.version.clone()
    }

    /// The nodes with the workflow's variables, name and version.
    pub fn parse_full(&self) -> (r: Result<ParseResult, String>)
        ensures
            match r {
                Ok(p) => first_empty_task(self.workflow().tasks@) < 0
                    && p.nodes@.len() == self.workflow().tasks@.len()
                    && (forall|i: int| 0 <= i < p.nodes@.len() ==>
                        node_of(self.workflow(), self.workflow().tasks@[i].task, (#[trigger] p.nodes@[i])@))
                    && p.env_vars@ == self.workflow().env@
                    && p.env_vars.key_seq() == self.workflow().env.key_seq()
                    && p.flow_vars.model() == self.workflow().vars.model()
                    && p.flow_vars.key_seq() == self.workflow().vars.key_seq()
                    && p.workflow_name@ == workflow_name_of(self.workflow())
                    && p.workflow_version@ == self.workflow().version@,
                Err(e) => first_empty_task(self.workflow().tasks@) >= 0
                    && e@ == "任务 "@ + self.workflow().tasks@[first_empty_task(self.workflow().tasks@)].task.id@ + " 没有动作"@,
            },
    {
        let nodes = match self.parse() {
            Ok(n) => n,
            Err(e) => return Err(e),
        };
        Ok(ParseResult {
            nodes,
            env_vars: self.get_env_vars(),
            flow_vars: self.get_flow_vars(),
            workflow_name: self.get_workflow_name(),
            workflow_version: self.get_workflow_version(),
        })
    }
}

/// What parsing a workflow gives: one node per task, in order, or the error
/// naming the first task without actions.
pub open spec fn nodes_result(w: Workflow, r: Result<Vec<ExecutionNode>, String>) -> bool {
    match r {
        Ok(nodes) => first_empty_task(w.tasks@) < 0
            && nodes@.len() == w.tasks@.len()
            && forall|i: int| 0 <= i < nodes@.len() ==>
                node_of(w, w.tasks@[i].task, (#[trigger] nodes@[i])@),
        Err(e) => first_empty_task(w.tasks@) >= 0
            && e@ == "任务 "@ + w.tasks@[first_empty_task(w.tasks@)].task.id@ + " 没有动作"@,
    }
}

impl ConfigParser<WorkflowConfig> for YamlConfigParser {
    type Output = Vec<ExecutionNode>;
    type Error = String;

    open spec fn parsed_from(&self, config: WorkflowConfig, r: Result<Vec<ExecutionNode>, String>) -> bool {
        nodes_result(config.workflow, r)
    }

    fn parse(&self, config: WorkflowConfig) -> Result<Vec<ExecutionNode>, String> {
        let parser = YamlConfigParser::new(config);
        YamlConfigParser::parse(&parser)
    }
}

proof fn lemma_first_empty_prefix(tasks: Seq<crate::config::Task>, i: int)
    requires
        0 <= i < tasks.len(),
        first_empty_task(tasks.take(i)) < 0,
        tasks[i].task.actions@.len() == 0,
    ensures
        first_empty_task(tasks) == i,
    decreases tasks.len(),
{
    if i < tasks.len() - 1 {
        assert(tasks.drop_last().take(i) =~= tasks.take(i));
        assert(tasks.drop_last()[i] == tasks[i]);
        lemma_first_empty_prefix(tasks.drop_last(), i);
    } else {
        assert(tasks.drop_last() =~= tasks.take(i));
    }
}

/// A task has an id, a name and actions, each with an id and a name.
pub open spec fn task_valid(t: TaskDefinition) -> bool {
    &&& t.id@.len() > 0
    &&& t.name@.len() > 0
    &&& t.actions@.len() > 0
    &&& forall|m: int| 0 <= m < t.actions@.len() ==> action_valid(#[trigger] t.actions@[m].action)
}

pub open spec fn action_valid(a: ActionDefinition) -> bool {
    a.id@.len() > 0 && a.name@.len() > 0
}

/// The error for the first action without an id or a name.
pub open spec fn first_action_error(actions: Seq<Action>) -> Seq<char>
    decreases actions.len(),
{
    if actions.len() == 0 {
        Seq::empty()
    } else if actions[0].action.id@.len() == 0 {
        "动作ID不能为空"@
    } else if actions[0].action.name@.len() == 0 {
        "动作名称不能为空"@
    } else {
        first_action_error(actions.subrange(1, actions.len() as int))
    }
}

/// The error for the first task that fails its checks.
pub open spec fn first_task_error(tasks: Seq<crate::config::Task>) -> Seq<char>
    decreases tasks.len(),
{
    if tasks.len() == 0 {
        Seq::empty()
    } else {
        let t = tasks[0].task;
        if t.id@.len() == 0 {
            "任务ID不能为空"@
        } else if t.name@.len() == 0 {
            "任务名称不能为空"@
        } else if t.actions@.len() == 0 {
            "任务 "@ + t.id@ + " 没有动作"@
        } else if !(forall|m: int| 0 <= m < t.actions@.len() ==> action_valid(#[trigger] t.actions@[m].action)) {
            first_action_error(t.actions@)
        } else {
            first_task_error(tasks.subrange(1, tasks.len() as int))
        }
    }
}

/// The parser's validation error for a task list.
pub open spec fn parser_validation_error(tasks: Seq<crate::config::Task>) -> Seq<char> {
    if tasks.len() == 0 { "工作流没有任务"@ } else { first_task_error(tasks) }
}

} // verus!
