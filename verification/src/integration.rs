//! From a workflow configuration to the scheduler's tasks and the
//! orchestrator's nodes, with the settings both take from the workflow's
//! environment. Reading the process environment and running the tasks and
//! nodes happen outside.

use vstd::prelude::*;
use crate::config::{WorkflowConfig, Workflow, TaskDefinition};
use crate::config_parser::{lower_text, to_lower};
use crate::expression::ExpressionEvaluator;
use crate::flow_orchestrator::{ErrorRecoveryStrategy, FlowNode, FlowOrchestrator, OrchestratorConfig};
use crate::ids::{duration_from_millis, duration_from_secs, instant_now, new_uuid_string, span_of_millis, span_of_secs};
use crate::numtext::{parse_usize, usize_text};
use crate::scheduler::{Priority, ScheduledTask, SchedulerConfig, SchedulingStrategy, TaskScheduler, TaskStatus};
use crate::strings::{chars_of, contains_exec, contains_text};
use crate::strmap::StrMap;
use crate::text::{decimal, decimal_string, same_text};

verus! {

/// Builds schedulers, orchestrators, tasks and nodes from one workflow.
pub struct YamlRuntimeIntegrator {
    config: WorkflowConfig,
    evaluator: ExpressionEvaluator,
}

/// The environment variable of a workflow, if set.
pub open spec fn env_value(w: Workflow, key: Seq<char>) -> Option<Seq<char>> {
    if w.env@.contains_key(key) { Some(w.env@[key]@) } else { None }
}

/// The most tasks at once: the setting read as a number, or 10.
pub open spec fn max_concurrent_of(setting: Option<Seq<char>>) -> nat {
    match setting {
        Some(s) => match usize_text(s) {
            Some(n) => n,
            None => 10,
        },
        None => 10,
    }
}

/// The strategy named by the workflow's `FLOWBUILDER_STRATEGY`, priority
/// order otherwise.
pub open spec fn strategy_of(w: Workflow) -> SchedulingStrategy {
    match env_value(w, "FLOWBUILDER_STRATEGY"@) {
        Some(s) => if s == "fifo"@ {
            SchedulingStrategy::FirstInFirstOut
        } else if s == "round_robin"@ {
            SchedulingStrategy::RoundRobin
        } else if s == "shortest_job"@ {
            SchedulingStrategy::ShortestJobFirst
        } else {
            SchedulingStrategy::Priority
        },
        None => SchedulingStrategy::Priority,
    }
}

/// Whether the workflow's `FLOWBUILDER_VERBOSE` is `true` or `1`.
pub open spec fn verbose_of(w: Workflow) -> bool {
    match env_value(w, "FLOWBUILDER_VERBOSE"@) {
        Some(s) => s == "true"@ || s == "1"@,
        None => false,
    }
}

/// A task's priority by the words in its lower-cased name.
pub open spec fn task_priority(name: Seq<char>) -> Priority {
    let n = lower_text(name);
    if contains_text(n, "critical"@) || contains_text(n, "urgent"@) {
        Priority::Critical
    } else if contains_text(n, "high"@) {
        Priority::High
    } else if contains_text(n, "low"@) {
        Priority::Low
    } else {
        Priority::Normal
    }
}

/// The metadata of a task: its id, name, description and number of
/// actions.
pub open spec fn task_metadata(t: TaskDefinition) -> Map<Seq<char>, Seq<char>> {
    map![
        "task_id"@ => t.id@,
        "task_name"@ => t.name@,
        "description"@ => t.description@,
        "action_count"@ => decimal(t.actions@.len()),
    ]
}

/// The scheduler task made for a workflow task.
pub open spec fn scheduled_from(t: TaskDefinition, s: ScheduledTask) -> bool {
    &&& s.id@.len() == 36
    &&& s.name == t.name
    &&& s.description == Some(t.description)
    &&& s.priority == task_priority(t.name@)
    &&& s.estimated_duration == Some(span_of_millis((t.actions@.len() * 100) as u64))
    &&& s.started_at is None
    &&& s.completed_at is None
    &&& s.status == TaskStatus::Pending
    &&& s.dependencies@.len() == 0
    &&& s.metadata@.map_values(|v: String| v@) == task_metadata(t)
}

/// The orchestrator node made for a workflow task.
pub open spec fn node_from(t: TaskDefinition, n: FlowNode) -> bool {
    &&& n.id == t.id
    &&& n.name == t.name
    &&& n.description == Some(t.description)
    &&& n.condition is None
    &&& n.next_nodes@.len() == 0
    &&& n.error_recovery is FailFast
    &&& n.timeout == Some(span_of_secs(300))
    &&& n.retry_config is None
}

fn env_text<'a>(w: &'a Workflow, key: &str) -> (r: Option<&'a String>)
    ensures
        match r {
            Some(s) => env_value(*w, key@) == Some(s@),
            None => env_value(*w, key@) is None,
        },
{
    w.env.get(key)
}

/// The most tasks at once from the outside setting, if any: the setting
/// read as a number, or 10.
pub fn determine_max_concurrent_tasks(setting: Option<&str>) -> (r: usize)
    ensures
        r == max_concurrent_of(match setting { Some(s) => Some(s@), None => None }),
{
    match setting {
        Some(s) => {
            let v = chars_of(s);
            match parse_usize(&v) {
                Some(n) => n,
                None => 10,
            }
        },
        None => 10,
    }
}

impl YamlRuntimeIntegrator {
    pub closed spec fn workflow(self) -> Workflow {
        self.config.workflow
    }

    pub closed spec fn eval(self) -> ExpressionEvaluator {
        self.evaluator
    }

    /// An integrator for a configuration, with the workflow's variables in
    /// its evaluator.
    pub fn new(config: WorkflowConfig) -> (r: Result<Self, String>)
        ensures
            r matches Ok(x) && x.workflow() == config.workflow && x.eval().env()@ == config.workflow.env@
                && x.eval().flow().model() == config.workflow.vars.model(),
    {
        let mut evaluator = ExpressionEvaluator::new();
        evaluator.set_env_vars(config.workflow.env.duplicate());
        evaluator.set_flow_vars(config.workflow.vars.duplicate());
        Ok(YamlRuntimeIntegrator { config, evaluator })
    }

    fn determine_scheduling_strategy(&self) -> (r: SchedulingStrategy)
        ensures
            r == strategy_of(self.workflow()),
    {
        proof {
            reveal_strlit("fifo");
            reveal_strlit("round_robin");
            reveal_strlit("shortest_job");
        }
        match env_text(&self.config.workflow, "FLOWBUILDER_STRATEGY") {
            Some(s) => if same_text(s, "fifo") {
                SchedulingStrategy::FirstInFirstOut
            } else if same_text(s, "round_robin") {
                SchedulingStrategy::RoundRobin
            } else if same_text(s, "shortest_job") {
                SchedulingStrategy::ShortestJobFirst
            } else {
                SchedulingStrategy::Priority
            },
            None => SchedulingStrategy::Priority,
        }
    }

    fn should_enable_verbose_logging(&self) -> (r: bool)
        ensures
            r == verbose_of(self.workflow()),
    {
        match env_text(&self.config.workflow, "FLOWBUILDER_VERBOSE") {
            Some(v) => same_text(v, "true") || same_text(v, "1"),
            None => false,
        }
    }

    /// A scheduler with the most tasks at once from the outside setting,
    /// the workflow's strategy, and otherwise the default settings.
    pub fn create_scheduler_from_config(&self, max_concurrent_setting: Option<&str>) -> (r: Result<TaskScheduler, String>)
        ensures
            r matches Ok(s) && s.settings().max_concurrent_tasks == max_concurrent_of(
                match max_concurrent_setting { Some(t) => Some(t@), None => None },
            ) && s.settings().strategy == strategy_of(self.workflow()) && s.settings().task_timeout == Some(span_of_secs(300))
                && s.settings().max_retries == 3 && s.settings().retry_delay == span_of_secs(1) && s.settings().enable_dependency_check
                && s.priority_queue().len() == 0 && s.arrival_queue().len() == 0
                && s.states() == Map::<Seq<char>, TaskStatus>::empty()
                && s.counts() == (0usize, 0usize, 0usize, 0usize, 0usize),
    {
        let config = SchedulerConfig {
            max_concurrent_tasks: determine_max_concurrent_tasks(max_concurrent_setting),
            strategy: self.determine_scheduling_strategy(),
            task_timeout: Some(duration_from_secs(300)),
            max_retries: 3,
            retry_delay: duration_from_secs(1),
            enable_dependency_check: true,
        };
        Ok(TaskScheduler::new(config))
    }

    /// An orchestrator with the most nodes at once from the outside
    /// setting, checkpoints on, and verbose logging as the workflow asks.
    pub fn create_orchestrator_from_config(&self, max_concurrent_setting: Option<&str>) -> (r: Result<FlowOrchestrator, String>)
        ensures
            r matches Ok(o) && o.settings().max_parallelism == max_concurrent_of(
                match max_concurrent_setting { Some(t) => Some(t@), None => None },
            ) && o.settings().global_timeout == Some(span_of_secs(3600)) && o.settings().enable_checkpoints
                && o.settings().checkpoint_interval == span_of_secs(60)
                && o.settings().verbose_logging == verbose_of(self.workflow())
                && o.node_map()@ == Map::<Seq<char>, FlowNode>::empty()
                && o.states() == Map::<Seq<char>, crate::flow_orchestrator::FlowState>::empty(),
    {
        let config = OrchestratorConfig {
            max_parallelism: determine_max_concurrent_tasks(max_concurrent_setting),
            global_timeout: Some(duration_from_secs(3600)),
            enable_checkpoints: true,
            checkpoint_interval: duration_from_secs(60),
            verbose_logging: self.should_enable_verbose_logging(),
        };
        Ok(FlowOrchestrator::with_config(config))
    }

    fn determine_task_priority(&self, task: &TaskDefinition) -> (r: Priority)
        ensures
            r == task_priority(task.name@),
    {
        let name = to_lower(task.name.as_str());
        proof {
            reveal_strlit("critical");
            reveal_strlit("urgent");
            reveal_strlit("high");
            reveal_strlit("low");
        }
        if contains_exec(name.as_str(), "critical") || contains_exec(name.as_str(), "urgent") {
            Priority::Critical
        } else if contains_exec(name.as_str(), "high") {
            Priority::High
        } else if contains_exec(name.as_str(), "low") {
            Priority::Low
        } else {
            Priority::Normal
        }
    }

    fn create_task_metadata(&self, task: &TaskDefinition) -> (r: StrMap<String>)
        ensures
            r@.map_values(|v: String| v@) == task_metadata(*task),
    {
        let mut metadata: StrMap<String> = StrMap::new();
        metadata.insert("task_id".to_string(), task.id.clone());
        metadata.insert("task_name".to_string(), task.name.clone());
        metadata.insert("description".to_string(), task.description.clone());
        metadata.insert("action_count".to_string(), decimal_string(task.actions.len() as u64));
        proof {
            reveal_strlit("task_id");
            reveal_strlit("task_name");
            reveal_strlit("description");
            reveal_strlit("action_count");
            assert(metadata@.map_values(|v: String| v@) =~= task_metadata(*task));
        }
        metadata
    }

    /// A scheduler task for each workflow task, in order: pending, with a
    /// fresh id, the task's name and description, a priority from its name,
    /// an estimate of 100 ms per action, no dependencies, and metadata. The
    /// work of each task is attached outside by its id.
    pub fn convert_to_scheduled_tasks(&self) -> (r: Result<Vec<ScheduledTask>, String>)
        requires
            forall|i: int| 0 <= i < self.workflow().tasks@.len() ==> #[trigger] self.workflow().tasks@[i].task.actions@.len() * 100 <= usize::MAX,
        ensures
            r matches Ok(ts) && ts@.len() == self.workflow().tasks@.len()
                && forall|i: int| 0 <= i < ts@.len() ==> scheduled_from(self.workflow().tasks@[i].task, #[trigger] ts@[i]),
    {
        let tasks = &self.config.workflow.tasks;
        let mut out: Vec<ScheduledTask> = Vec::new();
        let mut i: usize = 0;
        while i < tasks.len()
            invariant
                i <= tasks@.len(),
                *tasks == self.workflow().tasks,
                forall|k: int| 0 <= k < tasks@.len() ==> #[trigger] tasks@[k].task.actions@.len() * 100 <= usize::MAX,
                out@.len() == i,
                forall|k: int| 0 <= k < i ==> scheduled_from(tasks@[k].task, #[trigger] out@[k]),
            decreases tasks@.len() - i,
        {
            let task = &tasks[i].task;
            proof {
                assert(tasks@[i as int].task.actions@.len() * 100 <= usize::MAX);
            }
            let estimated_ms: usize = task.actions.len() * 100;
            let scheduled = ScheduledTask {
                id: new_uuid_string(),
                name: task.name.clone(),
                description: Some(task.description.clone()),
                priority: self.determine_task_priority(task),
                estimated_duration: Some(duration_from_millis(estimated_ms as u64)),
                created_at: instant_now(),
                started_at: None,
                completed_at: None,
                status: TaskStatus::Pending,
                dependencies: Vec::new(),
                metadata: self.create_task_metadata(task),
            };
            out.push(scheduled);
            i = i + 1;
        }
        Ok(out)
    }

    /// An orchestrator node for each workflow task, in order: its id, name
    /// and description, no condition or successors, failing fast, with a
    /// time limit of 300 s and no retries.
    pub fn convert_to_flow_nodes(&self) -> (r: Result<Vec<FlowNode>, String>)
        ensures
            r matches Ok(ns) && ns@.len() == self.workflow().tasks@.len()
                && forall|i: int| 0 <= i < ns@.len() ==> node_from(self.workflow().tasks@[i].task, #[trigger] ns@[i]),
    {
        let tasks = &self.config.workflow.tasks;
        let mut out: Vec<FlowNode> = Vec::new();
        let mut i: usize = 0;
        while i < tasks.len()
            invariant
                i <= tasks@.len(),
                *tasks == self.workflow().tasks,
                out@.len() == i,
                forall|k: int| 0 <= k < i ==> node_from(tasks@[k].task, #[trigger] out@[k]),
            decreases tasks@.len() - i,
        {
            let task = &tasks[i].task;
            let node = FlowNode {
                id: task.id.clone(),
                name: task.name.clone(),
                description: Some(task.description.clone()),
                condition: None,
                next_nodes: Vec::new(),
                error_recovery: ErrorRecoveryStrategy::FailFast,
                timeout: Some(duration_from_secs(300)),
                retry_config: None,
            };
            out.push(node);
            i = i + 1;
        }
        Ok(out)
    }
}

} // verus!
