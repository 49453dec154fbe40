//! The workflow executor front: checks a configuration, previews its
//! execution plan, measures the plan and describes the workflow. Running the
//! plan is asynchronous work that happens outside with the executor kept
//! here.

use vstd::prelude::*;
use crate::config::{WorkflowConfig, Workflow};
use crate::config_parser::{YamlConfigParser, node_of, first_empty_task, workflow_name_of, parser_validation_error, task_valid};
use crate::expression::ExpressionEvaluator;
use crate::orchestrator::{EnhancedFlowOrchestrator, ExecutionComplexity, PlanError, nodes_view, no_missing_deps, plan_layers,
    planned, missing_reported, invalid_plan_text, count_nodes, count_deps, max_parallel, count_conds, complexity_fits,
    lemma_planned_counts_agree};
use crate::runtime::{EnhancedTaskExecutor, ExecutorConfig};
use crate::plan::{ExecutionPlan, Executor, ExecutorStatus, NodeView, empty_plan_text, first_empty_phase};
use crate::yaml::YamlModel;

verus! {

/// Stands for an execution result where running is not available.
#[derive(Debug, Clone, Copy)]
pub struct ExecutionResultPlaceholder;

/// Why the executor could not go on.
#[derive(Debug)]
pub enum DynamicFlowError {
    /// The configuration did not pass its checks; the text says why.
    InvalidConfig(String),
    /// The configuration could not be turned into nodes; the text says why.
    ParseFailed(String),
    /// No plan could be made from the nodes.
    Plan(PlanError),
    /// The plan that came out does not pass its checks.
    InvalidPlan(String),
    /// The plan's counts do not fit in a machine word.
    TooLarge,
}

/// What describes a workflow.
#[derive(Debug, Clone)]
pub struct WorkflowInfo {
    pub name: String,
    pub version: String,
    pub task_count: usize,
    pub env_var_count: usize,
    pub flow_var_count: usize,
}

/// Checks, plans and describes one workflow configuration.
pub struct DynamicFlowExecutor {
    parser: YamlConfigParser,
    orchestrator: EnhancedFlowOrchestrator,
    executor: EnhancedTaskExecutor,
    evaluator: ExpressionEvaluator,
    print_plan: bool,
}

/// The configuration passes the parser's checks.
pub open spec fn config_valid(w: Workflow) -> bool {
    w.tasks@.len() > 0 && forall|i: int| 0 <= i < w.tasks@.len() ==> task_valid(#[trigger] w.tasks@[i].task)
}

/// The nodes are those the parser makes from the workflow's tasks.
pub open spec fn parsed_as(w: Workflow, ns: Seq<NodeView>) -> bool {
    &&& ns.len() == w.tasks@.len()
    &&& forall|i: int| 0 <= i < ns.len() ==> node_of(w, w.tasks@[i].task, #[trigger] ns[i])
}

/// The environment variables as configuration strings.
pub open spec fn env_model(w: Workflow) -> Map<Seq<char>, YamlModel> {
    w.env@.map_values(|s: String| YamlModel::String(s@))
}

/// What planning the nodes of a workflow gives: a plan of their layers
/// carrying the workflow's variables, name and version, or the planning
/// error for those nodes.
pub open spec fn plan_outcome(w: Workflow, ns: Seq<NodeView>, r: Result<ExecutionPlan, DynamicFlowError>) -> bool {
    match r {
        Ok(plan) => {
            &&& no_missing_deps(ns)
            &&& plan_layers(ns) is Some
            &&& planned(plan, ns, plan_layers(ns)->0)
            &&& plan.phases@.len() > 0
            &&& first_empty_phase(plan.phases@) is None
            &&& plan.env_vars.model() == env_model(w)
            &&& plan.flow_vars.model() == w.vars.model()
            &&& plan.metadata.workflow_name@ == workflow_name_of(w)
            &&& plan.metadata.workflow_version@ == w.version@
        },
        Err(DynamicFlowError::Plan(e)) => plan_error_outcome(ns, e),
        _ => false,
    }
}

/// The planning error for nodes: a missing dependency that one of them
/// lists, a cycle, or no nodes at all.
pub open spec fn plan_error_outcome(ns: Seq<NodeView>, e: PlanError) -> bool {
    match e {
        PlanError::MissingDependency { node, dependency } => missing_reported(ns, node@, dependency@),
        PlanError::CyclicDependency => no_missing_deps(ns) && plan_layers(ns) is None,
        PlanError::InvalidPlan(t) => no_missing_deps(ns) && ns.len() == 0 && t@ == invalid_plan_text(empty_plan_text()),
    }
}

/// A preview of the workflow's plan: planning of the nodes the parser makes.
pub open spec fn preview_outcome(w: Workflow, r: Result<ExecutionPlan, DynamicFlowError>) -> bool {
    exists|ns: Seq<NodeView>| #[trigger] parsed_as(w, ns) && plan_outcome(w, ns, r)
}

/// The counts of a plan.
pub open spec fn complexity_of(plan: ExecutionPlan) -> ExecutionComplexity {
    ExecutionComplexity {
        total_nodes: count_nodes(plan.phases@) as usize,
        total_phases: plan.phases@.len() as usize,
        max_parallel_nodes: max_parallel(plan.phases@) as usize,
        total_dependencies: count_deps(plan.phases@) as usize,
        conditional_nodes: count_conds(plan.phases@) as usize,
    }
}

/// The counts of a previewed plan of the workflow.
pub open spec fn complexity_outcome(w: Workflow, c: ExecutionComplexity) -> bool {
    exists|plan: ExecutionPlan| #[trigger] preview_outcome(w, Ok(plan)) && count_nodes(plan.phases@) <= usize::MAX
        && count_deps(plan.phases@) <= usize::MAX && c == complexity_of(plan)
}

/// The counts fit in a machine word.
pub open spec fn counts_fit(plan: ExecutionPlan) -> bool {
    count_nodes(plan.phases@) <= usize::MAX && count_deps(plan.phases@) <= usize::MAX
}

/// A workflow's nodes are determined by it.
proof fn lemma_parsed_unique(w: Workflow, a: Seq<NodeView>, b: Seq<NodeView>)
    requires
        parsed_as(w, a),
        parsed_as(w, b),
    ensures
        a == b,
{
    assert forall|i: int| 0 <= i < a.len() implies a[i] == b[i] by {
        let t = w.tasks@[i].task;
        assert(node_of(w, t, a[i]));
        assert(node_of(w, t, b[i]));
        crate::lexorder::lemma_sorted_unique(a[i].dependencies, b[i].dependencies);
    }
    assert(a =~= b);
}

/// Every plan previewed from a workflow holds as many nodes and as many
/// dependencies.
proof fn lemma_preview_counts_agree(w: Workflow, p: ExecutionPlan, q: ExecutionPlan)
    requires
        preview_outcome(w, Ok(p)),
        preview_outcome(w, Ok(q)),
    ensures
        count_nodes(p.phases@) == count_nodes(q.phases@),
        count_deps(p.phases@) == count_deps(q.phases@),
{
    let a = choose|ns: Seq<NodeView>| #[trigger] parsed_as(w, ns) && plan_outcome(w, ns, Ok(p));
    let b = choose|ns: Seq<NodeView>| #[trigger] parsed_as(w, ns) && plan_outcome(w, ns, Ok(q));
    lemma_parsed_unique(w, a, b);
    lemma_planned_counts_agree(p, q, a, plan_layers(a)->0);
}

/// A workflow's preview does not both fail to plan and give a plan.
proof fn lemma_preview_exclusive(w: Workflow, p: ExecutionPlan, e: PlanError)
    requires
        preview_outcome(w, Ok(p)),
    ensures
        !preview_outcome(w, Err(DynamicFlowError::Plan(e))),
{
    if preview_outcome(w, Err(DynamicFlowError::Plan(e))) {
        let a = choose|ns: Seq<NodeView>| #[trigger] parsed_as(w, ns) && plan_outcome(w, ns, Ok(p));
        let b = choose|ns: Seq<NodeView>| #[trigger] parsed_as(w, ns) && plan_outcome(w, ns, Err(DynamicFlowError::Plan(e)));
        lemma_parsed_unique(w, a, b);
        match e {
            PlanError::MissingDependency { node, dependency } => {
                let i = choose|i: int| #[trigger] crate::orchestrator::missing_dep(a, i, dependency@) && a[i].id == node@;
                assert(!crate::orchestrator::missing_dep(a, i, dependency@));
            },
            PlanError::CyclicDependency => {},
            PlanError::InvalidPlan(_) => {
                assert(crate::orchestrator::last_occurrences(a, 0) == Seq::<int>::empty());
                assert(plan_layers(a) == Some(Seq::<Seq<int>>::empty()));
            },
        }
    }
}

/// A workflow that passes its checks has no task without actions.
proof fn lemma_valid_has_actions(tasks: Seq<crate::config::Task>)
    requires
        forall|i: int| 0 <= i < tasks.len() ==> task_valid(#[trigger] tasks[i].task),
    ensures
        first_empty_task(tasks) < 0,
    decreases tasks.len(),
{
    if tasks.len() > 0 {
        let d = tasks.drop_last();
        assert forall|i: int| 0 <= i < d.len() implies task_valid(#[trigger] d[i].task) by {
            assert(d[i] == tasks[i]);
        }
        lemma_valid_has_actions(d);
        assert(task_valid(tasks[tasks.len() - 1].task));
    }
}

impl DynamicFlowExecutor {
    pub closed spec fn workflow(self) -> Workflow {
        self.parser.workflow()
    }

    pub closed spec fn runner(self) -> EnhancedTaskExecutor {
        self.executor
    }

    pub closed spec fn planner(self) -> EnhancedFlowOrchestrator {
        self.orchestrator
    }

    pub closed spec fn eval(self) -> ExpressionEvaluator {
        self.evaluator
    }

    pub closed spec fn prints_plan(self) -> bool {
        self.print_plan
    }

    fn make(config: WorkflowConfig, executor: EnhancedTaskExecutor) -> (r: Result<Self, DynamicFlowError>)
        ensures
            match r {
                Ok(x) => config_valid(config.workflow) && x.workflow() == config.workflow && x.runner() == executor
                    && x.eval().env()@ == config.workflow.env@ && x.eval().flow().model() == config.workflow.vars.model()
                    && x.eval().ctx()@ == Map::<Seq<char>, crate::yaml::YamlValue>::empty()
                    && x.planner().settings().enable_parallel_optimization && !x.prints_plan(),
                Err(DynamicFlowError::InvalidConfig(e)) => !config_valid(config.workflow)
                    && e@ == parser_validation_error(config.workflow.tasks@),
                Err(_) => false,
            },
    {
        let parser = YamlConfigParser::new(config);
        match parser.validate() {
            Ok(()) => {},
            Err(e) => {
                return Err(DynamicFlowError::InvalidConfig(e));
            },
        }
        let mut evaluator = ExpressionEvaluator::new();
        evaluator.set_env_vars(parser.workflow_config().workflow.env.duplicate());
        evaluator.set_flow_vars(parser.workflow_config().workflow.vars.duplicate());
        Ok(DynamicFlowExecutor {
            parser,
            orchestrator: EnhancedFlowOrchestrator::new(),
            executor,
            evaluator,
            print_plan: false,
        })
    }

    /// An executor for a configuration that passes its checks, with the
    /// workflow's variables in its evaluator and an idle task executor.
    pub fn new(config: WorkflowConfig) -> (r: Result<Self, DynamicFlowError>)
        ensures
            match r {
                Ok(x) => config_valid(config.workflow) && x.workflow() == config.workflow
                    && x.runner().state() == ExecutorStatus::Idle
                    && x.runner().settings().max_concurrent_tasks == 10
                    && x.eval().env()@ == config.workflow.env@ && x.eval().flow().model() == config.workflow.vars.model()
                    && x.eval().ctx()@ == Map::<Seq<char>, crate::yaml::YamlValue>::empty()
                    && !x.prints_plan(),
                Err(DynamicFlowError::InvalidConfig(e)) => !config_valid(config.workflow)
                    && e@ == parser_validation_error(config.workflow.tasks@),
                Err(_) => false,
            },
    {
        Self::make(config, EnhancedTaskExecutor::new())
    }

    /// The same, with the given settings for the task executor.
    pub fn with_executor_config(config: WorkflowConfig, executor_config: ExecutorConfig) -> (r: Result<Self, DynamicFlowError>)
        ensures
            match r {
                Ok(x) => config_valid(config.workflow) && x.workflow() == config.workflow
                    && x.runner().state() == ExecutorStatus::Idle
                    && x.runner().settings() == executor_config
                    && x.eval().env()@ == config.workflow.env@ && x.eval().flow().model() == config.workflow.vars.model()
                    && x.eval().ctx()@ == Map::<Seq<char>, crate::yaml::YamlValue>::empty()
                    && !x.prints_plan(),
                Err(DynamicFlowError::InvalidConfig(e)) => !config_valid(config.workflow)
                    && e@ == parser_validation_error(config.workflow.tasks@),
                Err(_) => false,
            },
    {
        Self::make(config, EnhancedTaskExecutor::with_config(executor_config))
    }

    /// The plan the workflow would run, without running it: the parser's
    /// nodes, planned with the environment variables as strings.
    pub fn get_execution_plan_preview(&self) -> (r: Result<ExecutionPlan, DynamicFlowError>)
        ensures
            first_empty_task(self.workflow().tasks@) >= 0 ==> (r matches Err(DynamicFlowError::ParseFailed(e))
                && e@ == "任务 "@ + self.workflow().tasks@[first_empty_task(self.workflow().tasks@)].task.id@ + " 没有动作"@),
            first_empty_task(self.workflow().tasks@) < 0 ==> preview_outcome(self.workflow(), r),
    {
        let parsed = match self.parser.parse_full() {
            Ok(p) => p,
            Err(e) => {
                return Err(DynamicFlowError::ParseFailed(e));
            },
        };
        let ghost w = self.workflow();
        let ghost ns = nodes_view(parsed.nodes@);
        proof {
            assert forall|i: int| 0 <= i < ns.len() implies node_of(w, w.tasks@[i].task, #[trigger] ns[i]) by {
                assert(ns[i] == parsed.nodes@[i]@);
            }
            assert(parsed_as(w, ns));
        }
        let env_vars = parsed.env_vars.as_text_values();
        proof {
            assert(env_vars.model() == env_model(w));
        }
        let r = match self.orchestrator.create_execution_plan(
            parsed.nodes,
            env_vars,
            parsed.flow_vars,
            parsed.workflow_name,
            parsed.workflow_version,
        ) {
            Ok(plan) => Ok(plan),
            Err(e) => Err(DynamicFlowError::Plan(e)),
        };
        proof {
            assert(plan_outcome(w, ns, r));
            assert(preview_outcome(w, r));
        }
        r
    }

    /// The counts of the previewed plan. It succeeds whenever a plan can be
    /// made and its counts fit in a machine word; `TooLarge` comes only when
    /// they do not.
    pub fn analyze_workflow_complexity(&self) -> (r: Result<ExecutionComplexity, DynamicFlowError>)
        ensures
            first_empty_task(self.workflow().tasks@) >= 0 ==> (r matches Err(DynamicFlowError::ParseFailed(e))
                && e@ == "任务 "@ + self.workflow().tasks@[first_empty_task(self.workflow().tasks@)].task.id@ + " 没有动作"@),
            r matches Ok(c) ==> complexity_outcome(self.workflow(), c),
            r matches Err(DynamicFlowError::Plan(e)) ==> preview_outcome(self.workflow(), Err(DynamicFlowError::Plan(e))),
            r is Err && first_empty_task(self.workflow().tasks@) < 0 ==> r matches Err(DynamicFlowError::Plan(_))
                || r matches Err(DynamicFlowError::TooLarge),
            first_empty_task(self.workflow().tasks@) < 0 && (exists|plan: ExecutionPlan| #[trigger] preview_outcome(self.workflow(), Ok(plan))
                && counts_fit(plan)) ==> r is Ok,
            r matches Err(DynamicFlowError::TooLarge) ==> exists|plan: ExecutionPlan| #[trigger] preview_outcome(self.workflow(), Ok(plan))
                && !counts_fit(plan),
    {
        let plan = match self.get_execution_plan_preview() {
            Ok(p) => p,
            Err(e) => {
                proof {
                    if first_empty_task(self.workflow().tasks@) < 0 && exists|p: ExecutionPlan| #[trigger] preview_outcome(self.workflow(), Ok(p)) {
                        let p = choose|p: ExecutionPlan| #[trigger] preview_outcome(self.workflow(), Ok(p));
                        if e is Plan {
                            lemma_preview_exclusive(self.workflow(), p, e->Plan_0);
                        }
                    }
                }
                return Err(e);
            },
        };
        if !complexity_fits(&plan) {
            proof {
                assert(preview_outcome(self.workflow(), Ok(plan)));
                if exists|p: ExecutionPlan| #[trigger] preview_outcome(self.workflow(), Ok(p)) && counts_fit(p) {
                    let p = choose|p: ExecutionPlan| #[trigger] preview_outcome(self.workflow(), Ok(p)) && counts_fit(p);
                    lemma_preview_counts_agree(self.workflow(), p, plan);
                }
            }
            return Err(DynamicFlowError::TooLarge);
        }
        let c = self.orchestrator.analyze_complexity(&plan);
        proof {
            assert(c == complexity_of(plan));
            assert(preview_outcome(self.workflow(), Ok(plan)));
            assert(complexity_outcome(self.workflow(), c));
        }
        Ok(c)
    }

    /// Whether to show the plan before running it.
    pub fn set_print_plan(&mut self, enabled: bool)
        ensures
            final(self).prints_plan() == enabled,
            final(self).workflow() == old(self).workflow(),
            final(self).runner() == old(self).runner(),
            final(self).planner() == old(self).planner(),
            final(self).eval() == old(self).eval(),
    {
        self.print_plan = enabled;
    }

    /// Checks the configuration and that a valid plan can be made from it.
    pub fn validate_workflow(&self) -> (r: Result<(), DynamicFlowError>)
        ensures
            !config_valid(self.workflow()) ==> (r matches Err(DynamicFlowError::InvalidConfig(e))
                && e@ == parser_validation_error(self.workflow().tasks@)),
            r is Ok ==> config_valid(self.workflow()) && exists|plan: ExecutionPlan| #[trigger] preview_outcome(self.workflow(), Ok(plan)),
            r matches Err(DynamicFlowError::Plan(e)) ==> preview_outcome(self.workflow(), Err(DynamicFlowError::Plan(e))),
            config_valid(self.workflow()) && r is Err ==> r matches Err(DynamicFlowError::Plan(_)),
    {
        match self.parser.validate() {
            Ok(()) => {},
            Err(e) => {
                return Err(DynamicFlowError::InvalidConfig(e));
            },
        }
        proof {
            lemma_valid_has_actions(self.workflow().tasks@);
        }
        let plan = match self.get_execution_plan_preview() {
            Ok(p) => p,
            Err(e) => {
                return Err(e);
            },
        };
        proof {
            assert(preview_outcome(self.workflow(), Ok(plan)));
        }
        match plan.validate() {
            Ok(()) => Ok(()),
            Err(e) => {
                let mut msg = "执行计划验证失败: ".to_string();
                msg.append(e.as_str());
                Err(DynamicFlowError::InvalidPlan(msg))
            },
        }
    }

    /// The workflow's name, version and sizes.
    pub fn get_workflow_info(&self) -> (r: WorkflowInfo)
        ensures
            r.name@ == workflow_name_of(self.workflow()),
            r.version@ == self.workflow().version@,
            r.task_count == self.workflow().tasks@.len(),
            r.env_var_count == self.workflow().env@.dom().len(),
            r.flow_var_count == self.workflow().vars@.dom().len(),
    {
        let config = self.parser.workflow_config();
        WorkflowInfo {
            name: self.parser.get_workflow_name(),
            version: self.parser.get_workflow_version(),
            task_count: config.workflow.tasks.len(),
            env_var_count: config.workflow.env.len(),
            flow_var_count: config.workflow.vars.len(),
        }
    }

    /// The expression evaluator, holding the workflow's variables.
    pub fn evaluator(&self) -> (r: &ExpressionEvaluator)
        ensures
            *r == self.eval(),
    {
        &self.evaluator
    }

    /// The configuration.
    pub fn config(&self) -> (r: &WorkflowConfig)
        ensures
            r.workflow == self.workflow(),
    {
        self.parser.workflow_config()
    }

    /// The task executor's state.
    pub fn executor_status(&self) -> (r: ExecutorStatus)
        ensures
            r == self.runner().state(),
    {
        self.executor.status()
    }

    /// The task executor, to run plans with; nothing else changes through it.
    pub fn task_executor(&mut self) -> (r: &mut EnhancedTaskExecutor)
        ensures
            *r == old(self).runner(),
            final(self).runner() == *final(r),
            final(self).workflow() == old(self).workflow(),
            final(self).eval() == old(self).eval(),
            final(self).prints_plan() == old(self).prints_plan(),
            final(self).planner() == old(self).planner(),
    {
        &mut self.executor
    }

    /// Stops the task executor; stopping always succeeds.
    pub fn stop(&mut self) -> (r: Result<(), DynamicFlowError>)
        ensures
            r is Ok,
            final(self).runner().state() == ExecutorStatus::Stopped,
            final(self).workflow() == old(self).workflow(),
            final(self).eval() == old(self).eval(),
            final(self).prints_plan() == old(self).prints_plan(),
    {
        let _stopped = self.executor.stop();
        Ok(())
    }
}

impl Executor for DynamicFlowExecutor {
    type Input = crate::context::FlowContext;
    type Output = crate::runtime::ExecutionResult;
    type Error = DynamicFlowError;

    fn status(&self) -> (r: ExecutorStatus)
        ensures
            r == self.runner().state(),
    {
        self.executor_status()
    }

    fn stop(&mut self) -> (r: Result<(), DynamicFlowError>)
        ensures
            r is Ok,
            final(self).runner().state() == ExecutorStatus::Stopped,
            final(self).workflow() == old(self).workflow(),
            final(self).eval() == old(self).eval(),
            final(self).prints_plan() == old(self).prints_plan(),
    {
        DynamicFlowExecutor::stop(self)
    }
}

} // verus!
