//! Execution plans: phases of nodes that a task executor runs in order.

use vstd::prelude::*;
use std::time::{Duration, SystemTime};
use crate::strmap::StrMap;
use crate::yaml::{YamlValue, YamlModel};
use crate::context::{views_of, copy_strings};
use crate::ids::{duration_from_millis, new_uuid_string, system_time_now, span_of_millis, whole_millis};
use crate::text::{copy_opt, opt_view};

verus! {

/// How the nodes of a phase are run.
#[derive(Debug)]
pub enum PhaseExecutionMode {
    Sequential,
    Parallel,
    Conditional { condition: String },
}

/// What a node does in the flow.
#[derive(Debug, Clone, Copy, PartialEq, Eq, Structural)]
pub enum NodeType {
    Action,
    Condition,
    Branch,
    Loop,
    Subprocess,
}

/// The action a node performs: its type, parameters and declared outputs.
#[derive(Debug)]
pub struct ActionSpec {
    pub action_type: String,
    pub parameters: StrMap<YamlValue>,
    pub outputs: StrMap<YamlValue>,
}

/// How a failed node is retried; `multiplier` is a decimal text.
#[derive(Debug)]
pub enum RetryStrategy {
    Fixed,
    Exponential { multiplier: String },
    Linear { increment: u64 },
}

/// Retries of a node: how many, after what delay in milliseconds, and how
/// the delay grows.
#[derive(Debug)]
pub struct RetryConfig {
    pub max_retries: u32,
    pub delay: u64,
    pub strategy: RetryStrategy,
}

/// A node's time limit in milliseconds, and what to do when it passes.
#[derive(Debug)]
pub struct TimeoutConfig {
    pub duration: u64,
    pub on_timeout: Option<String>,
}

/// The smallest unit of execution.
#[derive(Debug)]
pub struct ExecutionNode {
    pub id: String,
    pub name: String,
    pub node_type: NodeType,
    pub action_spec: ActionSpec,
    pub dependencies: Vec<String>,
    pub condition: Option<String>,
    pub priority: u32,
    pub retry_config: Option<RetryConfig>,
    pub timeout_config: Option<TimeoutConfig>,
}

/// A group of nodes run together, sequentially or in parallel.
#[derive(Debug)]
pub struct ExecutionPhase {
    pub id: String,
    pub name: String,
    pub execution_mode: PhaseExecutionMode,
    pub nodes: Vec<ExecutionNode>,
    pub condition: Option<String>,
}

/// What a plan is and how large it is.
#[derive(Debug)]
pub struct PlanMetadata {
    pub plan_id: String,
    pub created_at: SystemTime,
    pub workflow_name: String,
    pub workflow_version: String,
    pub total_nodes: usize,
    pub total_phases: usize,
}

/// Phases in the order an executor runs them, with the workflow's
/// environment and flow variables.
#[derive(Debug)]
pub struct ExecutionPlan {
    pub phases: Vec<ExecutionPhase>,
    pub env_vars: StrMap<YamlValue>,
    pub flow_vars: StrMap<YamlValue>,
    pub metadata: PlanMetadata,
}

/// The state of an executor.
#[derive(Debug, PartialEq, Eq)]
pub enum ExecutorStatus {
    Idle,
    Running,
    Stopped,
    Error(String),
}

/// An executor: reports its state and can be stopped. Running an input is
/// asynchronous work that happens outside the library.
pub trait Executor {
    type Input;
    type Output;
    type Error;

    fn status(&self) -> ExecutorStatus;

    fn stop(&mut self) -> Result<(), Self::Error>;
}

/// Evaluates expressions and conditions over named variables.
pub trait ExpressionEvaluator {
    type Value;
    type Error;

    fn evaluate(&self, expression: &str) -> Result<Self::Value, Self::Error>;

    fn evaluate_condition(&self, condition: &str) -> Result<bool, Self::Error>;

    fn set_variable(&mut self, name: String, value: Self::Value);

    fn get_variable(&self, name: &str) -> Option<Self::Value>;
}

/// Parses a configuration into some output. Each parser says, by its own
/// spec function, what parsing gives.
pub trait ConfigParser<T> {
    type Output;
    type Error;

    /// Whether `r` is what parsing `config` gives.
    spec fn parsed_from(&self, config: T, r: Result<Self::Output, Self::Error>) -> bool;

    fn parse(&self, config: T) -> (r: Result<Self::Output, Self::Error>)
        ensures
            self.parsed_from(config, r),
    ;
}

/// Creates and optimizes execution plans. Each planner says, by its own
/// spec functions, what its two operations give.
pub trait FlowPlanner {
    type Input;
    type Output;
    type Error;

    /// Whether `r` is what planning `input` gives.
    spec fn planned_from(&self, input: Self::Input, r: Result<Self::Output, Self::Error>) -> bool;

    /// Whether `r` is what optimizing `plan` gives.
    spec fn optimized_from(&self, plan: Self::Output, r: Result<Self::Output, Self::Error>) -> bool;

    fn create_execution_plan(&self, input: Self::Input) -> (r: Result<Self::Output, Self::Error>)
        ensures
            self.planned_from(input, r),
    ;

    fn optimize_plan(&self, plan: Self::Output) -> (r: Result<Self::Output, Self::Error>)
        ensures
            self.optimized_from(plan, r),
    ;
}

// ---------------------------------------------------------------------
// Models

pub struct ActionView {
    pub action_type: Seq<char>,
    pub parameters: Map<Seq<char>, YamlModel>,
    pub outputs: Map<Seq<char>, YamlModel>,
}

pub enum RetryStrategyView {
    Fixed,
    Exponential { multiplier: Seq<char> },
    Linear { increment: u64 },
}

pub struct RetryView {
    pub max_retries: u32,
    pub delay: u64,
    pub strategy: RetryStrategyView,
}

pub struct TimeoutView {
    pub duration: u64,
    pub on_timeout: Option<Seq<char>>,
}

/// The content of a node.
pub struct NodeView {
    pub id: Seq<char>,
    pub name: Seq<char>,
    pub node_type: NodeType,
    pub action: ActionView,
    pub dependencies: Seq<Seq<char>>,
    pub condition: Option<Seq<char>>,
    pub priority: u32,
    pub retry: Option<RetryView>,
    pub timeout: Option<TimeoutView>,
}

impl ActionSpec {
    pub open spec fn view(&self) -> ActionView {
        ActionView {
            action_type: self.action_type@,
            parameters: self.parameters.model(),
            outputs: self.outputs.model(),
        }
    }

    pub fn duplicate(&self) -> (r: Self)
        ensures
            r@ == self@,
    {
        ActionSpec {
            action_type: self.action_type.clone(),
            parameters: self.parameters.duplicate(),
            outputs: self.outputs.duplicate(),
        }
    }
}

impl RetryConfig {
    pub open spec fn view(&self) -> RetryView {
        RetryView {
            max_retries: self.max_retries,
            delay: self.delay,
            strategy: match self.strategy {
                RetryStrategy::Fixed => RetryStrategyView::Fixed,
                RetryStrategy::Exponential { multiplier } => RetryStrategyView::Exponential { multiplier: multiplier@ },
                RetryStrategy::Linear { increment } => RetryStrategyView::Linear { increment },
            },
        }
    }

    pub fn duplicate(&self) -> (r: Self)
        ensures
            r@ == self@,
    {
        RetryConfig {
            max_retries: self.max_retries,
            delay: self.delay,
            strategy: match &self.strategy {
                RetryStrategy::Fixed => RetryStrategy::Fixed,
                RetryStrategy::Exponential { multiplier } => RetryStrategy::Exponential { multiplier: multiplier.clone() },
                RetryStrategy::Linear { increment } => RetryStrategy::Linear { increment: *increment },
            },
        }
    }
}

impl TimeoutConfig {
    pub open spec fn view(&self) -> TimeoutView {
        TimeoutView { duration: self.duration, on_timeout: opt_view(self.on_timeout) }
    }

    pub fn duplicate(&self) -> (r: Self)
        ensures
            r@ == self@,
    {
        TimeoutConfig { duration: self.duration, on_timeout: copy_opt(&self.on_timeout) }
    }
}

impl ExecutionNode {
    pub open spec fn view(&self) -> NodeView {
        NodeView {
            id: self.id@,
            name: self.name@,
            node_type: self.node_type,
            action: self.action_spec@,
            dependencies: views_of(self.dependencies@),
            condition: opt_view(self.condition),
            priority: self.priority,
            retry: match self.retry_config {
                Some(r) => Some(r@),
                None => None,
            },
            timeout: match self.timeout_config {
                Some(t) => Some(t@),
                None => None,
            },
        }
    }

    /// A copy of the node.
    pub fn duplicate(&self) -> (r: Self)
        ensures
            r@ == self@,
    {
        ExecutionNode {
            id: self.id.clone(),
            name: self.name.clone(),
            node_type: self.node_type,
            action_spec: self.action_spec.duplicate(),
            dependencies: copy_strings(&self.dependencies),
            condition: copy_opt(&self.condition),
            priority: self.priority,
            retry_config: match &self.retry_config {
                Some(r) => Some(r.duplicate()),
                None => None,
            },
            timeout_config: match &self.timeout_config {
                Some(t) => Some(t.duplicate()),
                None => None,
            },
        }
    }

    /// An action node with no dependencies, condition, retries or time limit,
    /// at the default priority of 100.
    pub fn new(id: String, name: String, action_spec: ActionSpec) -> (r: Self)
        ensures
            r.id == id,
            r.name == name,
            r.node_type == NodeType::Action,
            r.action_spec == action_spec,
            r.dependencies@.len() == 0,
            r.condition is None,
            r.priority == 100,
            r.retry_config is None,
            r.timeout_config is None,
    {
        ExecutionNode {
            id,
            name,
            node_type: NodeType::Action,
            action_spec,
            dependencies: Vec::new(),
            condition: None,
            priority: 100,
            retry_config: None,
            timeout_config: None,
        }
    }

    /// Adds a dependency after the existing ones.
    pub fn add_dependency(self, dependency: String) -> (r: Self)
        ensures
            r.dependencies@ == self.dependencies@.push(dependency),
            r.id == self.id && r.name == self.name && r.node_type == self.node_type,
            r.action_spec == self.action_spec && r.condition == self.condition,
            r.priority == self.priority && r.retry_config == self.retry_config,
            r.timeout_config == self.timeout_config,
    {
        let mut s = self;
        s.dependencies.push(dependency);
        s
    }

    pub fn with_condition(self, condition: String) -> (r: Self)
        ensures
            r.condition == Some(condition),
            r.id == self.id && r.name == self.name && r.node_type == self.node_type,
            r.action_spec == self.action_spec && r.dependencies == self.dependencies,
            r.priority == self.priority && r.retry_config == self.retry_config,
            r.timeout_config == self.timeout_config,
    {
        let mut s = self;
        s.condition = Some(condition);
        s
    }

    pub fn with_priority(self, priority: u32) -> (r: Self)
        ensures
            r.priority == priority,
            r.id == self.id && r.name == self.name && r.node_type == self.node_type,
            r.action_spec == self.action_spec && r.dependencies == self.dependencies,
            r.condition == self.condition && r.retry_config == self.retry_config,
            r.timeout_config == self.timeout_config,
    {
        let mut s = self;
        s.priority = priority;
        s
    }

    pub fn with_retry(self, retry_config: RetryConfig) -> (r: Self)
        ensures
            r.retry_config == Some(retry_config),
            r.id == self.id && r.name == self.name && r.node_type == self.node_type,
            r.action_spec == self.action_spec && r.dependencies == self.dependencies,
            r.condition == self.condition && r.priority == self.priority,
            r.timeout_config == self.timeout_config,
    {
        let mut s = self;
        s.retry_config = Some(retry_config);
        s
    }

    pub fn with_timeout(self, timeout_config: TimeoutConfig) -> (r: Self)
        ensures
            r.timeout_config == Some(timeout_config),
            r.id == self.id && r.name == self.name && r.node_type == self.node_type,
            r.action_spec == self.action_spec && r.dependencies == self.dependencies,
            r.condition == self.condition && r.priority == self.priority,
            r.retry_config == self.retry_config,
    {
        let mut s = self;
        s.timeout_config = Some(timeout_config);
        s
    }
}

/// The error text of a plan without phases.
pub open spec fn empty_plan_text() -> Seq<char> {
    "执行计划不能为空"@
}

/// The error text of a phase without nodes.
pub open spec fn empty_phase_text(name: Seq<char>) -> Seq<char> {
    "阶段 "@ + name + " 不能为空"@
}

/// Index of the first phase without nodes, if any.
pub open spec fn first_empty_phase(phases: Seq<ExecutionPhase>) -> Option<int> {
    if exists|i: int| 0 <= i < phases.len() && phases[i].nodes@.len() == 0 {
        Some(choose|i: int| 0 <= i < phases.len() && phases[i].nodes@.len() == 0
            && forall|j: int| 0 <= j < i ==> phases[j].nodes@.len() > 0)
    } else {
        None
    }
}

impl ExecutionPlan {
    /// An empty plan under a fresh random id, created now.
    pub fn new(workflow_name: String, workflow_version: String, env_vars: StrMap<YamlValue>, flow_vars: StrMap<YamlValue>) -> (r: Self)
        ensures
            r.phases@.len() == 0,
            r.env_vars == env_vars,
            r.flow_vars == flow_vars,
            r.metadata.plan_id@.len() == 36,
            r.metadata.workflow_name == workflow_name,
            r.metadata.workflow_version == workflow_version,
            r.metadata.total_nodes == 0,
            r.metadata.total_phases == 0,
    {
        let metadata = PlanMetadata {
            plan_id: new_uuid_string(),
            created_at: system_time_now(),
            workflow_name,
            workflow_version,
            total_nodes: 0,
            total_phases: 0,
        };
        ExecutionPlan { phases: Vec::new(), env_vars, flow_vars, metadata }
    }

    /// Appends a phase and counts its nodes.
    pub fn add_phase(&mut self, phase: ExecutionPhase)
        requires
            old(self).metadata.total_nodes + phase.nodes@.len() <= usize::MAX,
        ensures
            final(self).phases@ == old(self).phases@.push(phase),
            final(self).metadata.total_nodes == old(self).metadata.total_nodes + phase.nodes@.len(),
            final(self).metadata.total_phases == final(self).phases@.len(),
            final(self).metadata.plan_id == old(self).metadata.plan_id,
            final(self).metadata.workflow_name == old(self).metadata.workflow_name,
            final(self).metadata.workflow_version == old(self).metadata.workflow_version,
            final(self).metadata.created_at == old(self).metadata.created_at,
            final(self).env_vars == old(self).env_vars,
            final(self).flow_vars == old(self).flow_vars,
    {
        self.metadata.total_nodes = self.metadata.total_nodes + phase.nodes.len();
        self.phases.push(phase);
        self.metadata.total_phases = self.phases.len();
    }

    /// The estimated running time in milliseconds: 100 per node.
    pub fn estimated_duration_ms(&self) -> (r: u64)
        requires
            self.metadata.total_nodes * 100 <= u64::MAX,
        ensures
            r == self.metadata.total_nodes * 100,
    {
        (self.metadata.total_nodes as u64) * 100
    }

    /// The estimated running time as a span of `estimated_duration_ms`
    /// milliseconds.
    pub fn estimated_duration(&self) -> (r: Duration)
        requires
            self.metadata.total_nodes * 100 <= u64::MAX,
        ensures
            r == span_of_millis((self.metadata.total_nodes * 100) as u64),
            whole_millis(r) == self.metadata.total_nodes * 100,
    {
        duration_from_millis(self.estimated_duration_ms())
    }

    /// A plan is valid when it has phases and every phase has nodes; the
    /// error names the first phase without nodes.
    pub fn validate(&self) -> (r: Result<(), String>)
        ensures
            match r {
                Ok(()) => self.phases@.len() > 0 && first_empty_phase(self.phases@) is None,
                Err(e) => if self.phases@.len() == 0 {
                    e@ == empty_plan_text()
                } else {
                    first_empty_phase(self.phases@) is Some
                        && e@ == empty_phase_text(self.phases@[first_empty_phase(self.phases@)->0].name@)
                },
            },
    {
        if self.phases.len() == 0 {
            return Err("执行计划不能为空".to_string());
        }
        let mut i: usize = 0;
        while i < self.phases.len()
            invariant
                i <= self.phases@.len(),
                forall|j: int| 0 <= j < i ==> self.phases@[j].nodes@.len() > 0,
            decreases self.phases@.len() - i,
        {
            if self.phases[i].nodes.len() == 0 {
                let mut msg = "阶段 ".to_string();
                msg.append(self.phases[i].name.as_str());
                msg.append(" 不能为空");
                proof {
                    let k = i as int;
                    assert(0 <= k < self.phases@.len() && self.phases@[k].nodes@.len() == 0
                        && forall|j: int| 0 <= j < k ==> self.phases@[j].nodes@.len() > 0);
                    let c = first_empty_phase(self.phases@)->0;
                    assert(c == k) by {
                        if c < k {
                        } else if c > k {
                        }
                    }
                }
                return Err(msg);
            }
            i = i + 1;
        }
        Ok(())
    }
}

} // verus!
