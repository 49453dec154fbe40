//! Orchestrating flow nodes by their states: which nodes are ready, how a
//! node's run is recorded, how a failure is recovered from, and checkpoints
//! of the shared context and the states. Running the flows and waiting
//! happen outside.

use vstd::prelude::*;
use std::time::{Duration, Instant};
use crate::strmap::StrMap;
use crate::context::{FlowContext, same_context, same_snapshot, views_of, copy_strings};
use crate::ids::{duration_from_secs, instant_now, span_of_secs};
use crate::text::{copy_opt, same_text};

verus! {

/// The state of a flow node.
#[derive(Debug, Clone, Copy, PartialEq, Eq, Structural)]
pub enum FlowState {
    Pending,
    Running,
    Completed,
    Failed,
    Paused,
    Cancelled,
}

/// When a node runs: a fixed answer, an expression, or a predicate over the
/// shared context that is evaluated outside.
#[derive(Debug)]
pub enum BranchCondition {
    Boolean(bool),
    Expression(String),
    Custom,
}

/// What to do when a node fails after its retries.
#[derive(Debug)]
pub enum ErrorRecoveryStrategy {
    FailFast,
    Retry { max_attempts: u32, delay: Duration },
    Rollback { checkpoint_id: String },
    Skip,
    Fallback { fallback_flow_id: String },
}

/// Retries of a node; `backoff_multiplier` is a decimal text.
#[derive(Debug)]
pub struct RetryConfig {
    pub max_attempts: u32,
    pub delay: Duration,
    pub backoff_multiplier: String,
    pub max_delay: Duration,
}

/// A node of the orchestration; its flow, if any, is kept outside under the
/// node's id.
#[derive(Debug)]
pub struct FlowNode {
    pub id: String,
    pub name: String,
    pub description: Option<String>,
    pub condition: Option<BranchCondition>,
    pub next_nodes: Vec<String>,
    pub error_recovery: ErrorRecoveryStrategy,
    pub timeout: Option<Duration>,
    pub retry_config: Option<RetryConfig>,
}

/// A saved context and node states.
#[derive(Debug)]
pub struct Checkpoint {
    pub id: String,
    pub created_at: Instant,
    pub context_snapshot: FlowContext,
    pub execution_state: StrMap<FlowState>,
}

/// Times and counts of an orchestration.
#[derive(Debug)]
pub struct ExecutionStats {
    pub started_at: Option<Instant>,
    pub completed_at: Option<Instant>,
    pub total_duration: Duration,
    pub successful_nodes: usize,
    pub failed_nodes: usize,
    pub total_retries: usize,
    pub checkpoints_used: usize,
}

/// Settings of the orchestrator.
#[derive(Debug, Clone, Copy)]
pub struct OrchestratorConfig {
    pub max_parallelism: usize,
    pub global_timeout: Option<Duration>,
    pub enable_checkpoints: bool,
    pub checkpoint_interval: Duration,
    pub verbose_logging: bool,
}

impl Default for OrchestratorConfig {
    fn default() -> (r: Self)
        ensures
            r.max_parallelism == 10,
            r.global_timeout == Some(span_of_secs(3600)),
            r.enable_checkpoints,
            r.checkpoint_interval == span_of_secs(60),
            !r.verbose_logging,
    {
        OrchestratorConfig {
            max_parallelism: 10,
            global_timeout: Some(duration_from_secs(3600)),
            enable_checkpoints: true,
            checkpoint_interval: duration_from_secs(60),
            verbose_logging: false,
        }
    }
}

impl Default for RetryConfig {
    fn default() -> (r: Self)
        ensures
            r.max_attempts == 3,
            r.delay == span_of_secs(1),
            r.backoff_multiplier@ == "2.0"@,
            r.max_delay == span_of_secs(60),
    {
        RetryConfig { max_attempts: 3, delay: duration_from_secs(1), backoff_multiplier: "2.0".to_string(), max_delay: duration_from_secs(60) }
    }
}

impl FlowNode {
    /// A node that fails fast, with no name, condition, successors, time
    /// limit or retries.
    pub fn new(id: String) -> (r: Self)
        ensures
            r.id == id,
            r.name@.len() == 0,
            r.description is None,
            r.condition is None,
            r.next_nodes@.len() == 0,
            r.error_recovery is FailFast,
            r.timeout is None,
            r.retry_config is None,
    {
        FlowNode {
            id,
            name: String::new(),
            description: None,
            condition: None,
            next_nodes: Vec::new(),
            error_recovery: ErrorRecoveryStrategy::FailFast,
            timeout: None,
            retry_config: None,
        }
    }

    /// The node with a name.
    pub fn name(self, name: String) -> (r: Self)
        ensures
            r.name == name,
            r.id == self.id,
            r.description == self.description,
            r.condition == self.condition,
            r.next_nodes == self.next_nodes,
            r.error_recovery == self.error_recovery,
            r.timeout == self.timeout,
            r.retry_config == self.retry_config,
    {
        let mut n = self;
        n.name = name;
        n
    }
}

/// Orchestrates nodes by their dependencies and states.
pub struct FlowOrchestrator {
    nodes: StrMap<FlowNode>,
    dependencies: StrMap<Vec<String>>,
    node_states: StrMap<FlowState>,
    global_context: FlowContext,
    checkpoints: StrMap<Checkpoint>,
    stats: ExecutionStats,
    config: OrchestratorConfig,
}

/// A node takes no more part: it is done, failed, cancelled or running.
pub open spec fn is_settled(s: Option<FlowState>) -> bool {
    match s {
        Some(FlowState::Completed) | Some(FlowState::Failed) | Some(FlowState::Cancelled) | Some(FlowState::Running) => true,
        _ => false,
    }
}

/// A node is finished: done, failed or cancelled.
pub open spec fn is_finished(s: Option<FlowState>) -> bool {
    match s {
        Some(FlowState::Completed) | Some(FlowState::Failed) | Some(FlowState::Cancelled) => true,
        _ => false,
    }
}

pub open spec fn state_of(states: Map<Seq<char>, FlowState>, id: Seq<char>) -> Option<FlowState> {
    if states.contains_key(id) { Some(states[id]) } else { None }
}

/// A node is ready: not settled, and every dependency it has is completed.
pub open spec fn is_ready(o: FlowOrchestrator, id: Seq<char>) -> bool {
    &&& !is_settled(state_of(o.states(), id))
    &&& o.deps()@.contains_key(id) ==> forall|k: int| 0 <= k < o.deps()@[id]@.len() ==>
        state_of(o.states(), (#[trigger] o.deps()@[id]@[k])@) == Some(FlowState::Completed)
}

/// What a run of the orchestrator does next.
#[derive(Debug)]
pub enum Round {
    /// Run these ready nodes, in order.
    Run(Vec<String>),
    /// No node is ready but some are not finished: wait and look again.
    Wait,
    /// Every node is finished.
    Finished,
}

/// How to go on after a node failed for good.
#[derive(Debug)]
pub enum Recovery {
    /// The node failed; the orchestration reports the error (the second
    /// text) under a context that names the node (the first).
    Fail(String, String),
    /// The error stands as it is.
    Propagate(String),
    /// The checkpoint was restored; the orchestration goes on.
    RolledBack,
    /// The checkpoint could not be restored.
    RollbackFailed(String),
    /// The node is marked failed and the orchestration goes on.
    Skipped,
    /// Run this node in its place.
    RunFallback(String),
}

impl FlowOrchestrator {
    pub closed spec fn node_map(self) -> StrMap<FlowNode> {
        self.nodes
    }

    pub closed spec fn deps(self) -> StrMap<Vec<String>> {
        self.dependencies
    }

    pub closed spec fn states(self) -> Map<Seq<char>, FlowState> {
        self.node_states@
    }

    pub closed spec fn context(self) -> FlowContext {
        self.global_context
    }

    pub closed spec fn checkpoint_ids(self) -> Set<Seq<char>> {
        self.checkpoints@.dom()
    }

    /// The contexts saved under each checkpoint id.
    pub closed spec fn saved_contexts(self) -> Map<Seq<char>, FlowContext> {
        self.checkpoints@.map_values(|c: Checkpoint| c.context_snapshot)
    }

    /// The node states saved under each checkpoint id.
    pub closed spec fn saved_states(self) -> Map<Seq<char>, Map<Seq<char>, FlowState>> {
        self.checkpoints@.map_values(|c: Checkpoint| c.execution_state@)
    }

    pub closed spec fn counts(self) -> (usize, usize, usize, usize) {
        (self.stats.successful_nodes, self.stats.failed_nodes, self.stats.total_retries, self.stats.checkpoints_used)
    }

    pub closed spec fn settings(self) -> OrchestratorConfig {
        self.config
    }

    /// When the last run started, if one did.
    pub closed spec fn started_at(self) -> Option<Instant> {
        self.stats.started_at
    }

    /// When the last run ended, if one did.
    pub closed spec fn completed_at(self) -> Option<Instant> {
        self.stats.completed_at
    }

    /// How long the last run took.
    pub closed spec fn run_duration(self) -> Duration {
        self.stats.total_duration
    }

    /// An orchestrator with the default settings.
    pub fn new() -> (r: Self)
        ensures
            r.node_map()@ == Map::<Seq<char>, FlowNode>::empty(),
            r.states() == Map::<Seq<char>, FlowState>::empty(),
            r.counts() == (0usize, 0usize, 0usize, 0usize),
            r.settings().enable_checkpoints,
            !r.settings().verbose_logging,
    {
        Self::with_config(OrchestratorConfig::default())
    }

    /// An orchestrator with the given settings, no nodes and a fresh
    /// context.
    pub fn with_config(config: OrchestratorConfig) -> (r: Self)
        ensures
            r.node_map()@ == Map::<Seq<char>, FlowNode>::empty(),
            r.node_map().key_seq() == Seq::<Seq<char>>::empty(),
            r.deps()@ == Map::<Seq<char>, Vec<String>>::empty(),
            r.states() == Map::<Seq<char>, FlowState>::empty(),
            r.checkpoint_ids() == Set::<Seq<char>>::empty(),
            r.counts() == (0usize, 0usize, 0usize, 0usize),
            r.settings() == config,
    {
        let r = FlowOrchestrator {
            nodes: StrMap::new(),
            dependencies: StrMap::new(),
            node_states: StrMap::new(),
            global_context: FlowContext::default(),
            checkpoints: StrMap::new(),
            stats: ExecutionStats {
                started_at: None,
                completed_at: None,
                total_duration: crate::ids::zero_duration(),
                successful_nodes: 0,
                failed_nodes: 0,
                total_retries: 0,
                checkpoints_used: 0,
            },
            config,
        };
        proof {
            assert(r.checkpoints@.dom() =~= Set::<Seq<char>>::empty());
        }
        r
    }

    /// Adds a node, replacing one with the same id.
    pub fn add_node(&mut self, node: FlowNode)
        ensures
            final(self).node_map()@ == old(self).node_map()@.insert(node.id@, node),
            final(self).deps() == old(self).deps(),
            final(self).states() == old(self).states(),
            final(self).counts() == old(self).counts(),
            final(self).settings() == old(self).settings(),
    {
        let id = node.id.clone();
        self.nodes.insert(id, node);
    }

    /// Records that `node_id` depends on `depends_on`.
    pub fn add_dependency(&mut self, node_id: String, depends_on: String)
        ensures
            final(self).deps()@.contains_key(node_id@),
            views_of(final(self).deps()@[node_id@]@) == (if old(self).deps()@.contains_key(node_id@) {
                views_of(old(self).deps()@[node_id@]@)
            } else {
                Seq::empty()
            }).push(depends_on@),
            forall|k: Seq<char>| k != node_id@ ==> #[trigger] final(self).deps()@.contains_key(k) == old(self).deps()@.contains_key(k)
                && (old(self).deps()@.contains_key(k) ==> final(self).deps()@[k] == old(self).deps()@[k]),
            final(self).node_map() == old(self).node_map(),
            final(self).states() == old(self).states(),
            final(self).counts() == old(self).counts(),
            final(self).settings() == old(self).settings(),
    {
        let mut list = match self.dependencies.get(node_id.as_str()) {
            Some(v) => copy_strings(v),
            None => Vec::new(),
        };
        let ghost before = views_of(list@);
        list.push(depends_on);
        proof {
            assert(views_of(list@) =~= before.push(list@.last()@));
        }
        self.dependencies.insert(node_id, list);
    }

    fn deps_completed(&self, id: &String) -> (r: bool)
        ensures
            r == (self.deps()@.contains_key(id@) ==> forall|k: int| 0 <= k < self.deps()@[id@]@.len() ==>
                state_of(self.states(), (#[trigger] self.deps()@[id@]@[k])@) == Some(FlowState::Completed)),
    {
        match self.dependencies.get(id.as_str()) {
            None => true,
            Some(deps) => {
                let mut k: usize = 0;
                while k < deps.len()
                    invariant
                        k <= deps@.len(),
                        self.deps()@.contains_key(id@),
                        *deps == self.deps()@[id@],
                        forall|m: int| 0 <= m < k ==> state_of(self.states(), (#[trigger] deps@[m])@) == Some(FlowState::Completed),
                    decreases deps@.len() - k,
                {
                    match self.node_states.get(deps[k].as_str()) {
                        Some(FlowState::Completed) => {},
                        _ => {
                            proof {
                                assert(state_of(self.states(), deps@[k as int]@) != Some(FlowState::Completed));
                            }
                            return false;
                        },
                    }
                    k = k + 1;
                }
                true
            },
        }
    }

    /// The nodes that can run now, in the order they were added: not
    /// settled, with every dependency completed.
    pub fn get_ready_nodes(&self) -> (r: Vec<String>)
        ensures
            forall|k: int| 0 <= k < r@.len() ==> self.node_map()@.contains_key((#[trigger] r@[k])@) && is_ready(*self, r@[k]@),
            forall|k: int| 0 <= k < self.node_map().key_seq().len() && is_ready(*self, self.node_map().key_seq()[k]) ==>
                views_of(r@).contains(#[trigger] self.node_map().key_seq()[k]),
            views_of(r@).no_duplicates(),
    {
        let es = self.nodes.entries();
        let mut out: Vec<String> = Vec::new();
        let mut i: usize = 0;
        proof {
            assert forall|k: int| 0 <= k < es@.len() implies #[trigger] es@[k].0@ == self.nodes.key_seq()[k] by {}
        }
        while i < es.len()
            invariant
                i <= es@.len(),
                es@.len() == self.nodes.key_seq().len(),
                forall|k: int| 0 <= k < es@.len() ==> #[trigger] es@[k].0@ == self.nodes.key_seq()[k],
                forall|x: Seq<char>| #[trigger] self.nodes@.contains_key(x) <==> self.nodes.key_seq().contains(x),
                self.nodes.key_seq().no_duplicates(),
                forall|k: int| 0 <= k < out@.len() ==> self.node_map()@.contains_key((#[trigger] out@[k])@) && is_ready(*self, out@[k]@),
                forall|k: int| 0 <= k < i && is_ready(*self, self.node_map().key_seq()[k]) ==>
                    views_of(out@).contains(#[trigger] self.node_map().key_seq()[k]),
                forall|k: int| 0 <= k < out@.len() ==> exists|m: int| 0 <= m < i && #[trigger] out@[k]@ == self.nodes.key_seq()[m],
                views_of(out@).no_duplicates(),
            decreases es@.len() - i,
        {
            let id = &es[i].0;
            proof {
                assert(es@[i as int].0@ == self.nodes.key_seq()[i as int]);
                assert(self.nodes.key_seq().contains(id@));
            }
            let settled = match self.node_states.get(id.as_str()) {
                Some(FlowState::Completed) | Some(FlowState::Failed) | Some(FlowState::Cancelled) | Some(FlowState::Running) => true,
                _ => false,
            };
            if !settled && self.deps_completed(id) {
                let ghost before = out@;
                out.push(id.clone());
                proof {
                    assert(views_of(out@) =~= views_of(before).push(id@));
                    assert forall|a: int, b: int| 0 <= a < b < views_of(out@).len() implies views_of(out@)[a] != views_of(out@)[b] by {
                        if b == out@.len() - 1 {
                            let m = choose|m: int| 0 <= m < i && #[trigger] out@[a]@ == self.nodes.key_seq()[m];
                            assert(out@[a] == before[a]);
                        }
                    }
                    assert forall|k: int| 0 <= k < out@.len() implies exists|m: int| 0 <= m < i + 1 && #[trigger] out@[k]@ == self.nodes.key_seq()[m] by {
                        if k < before.len() {
                            assert(out@[k] == before[k]);
                        } else {
                            assert(out@[k]@ == self.nodes.key_seq()[i as int]);
                        }
                    }
                    assert forall|k: int| 0 <= k < i && is_ready(*self, self.node_map().key_seq()[k]) implies
                        views_of(out@).contains(#[trigger] self.node_map().key_seq()[k]) by {
                        let x = self.node_map().key_seq()[k];
                        assert(views_of(before).contains(x));
                        let m = choose|m: int| 0 <= m < views_of(before).len() && views_of(before)[m] == x;
                        assert(views_of(out@)[m] == x);
                    }
                    assert(views_of(out@)[out@.len() - 1] == self.nodes.key_seq()[i as int]);
                }
            }
            i = i + 1;
        }
        out
    }

    /// What a run does next: run the ready nodes when there are some; else
    /// wait while some node is not finished; else stop.
    pub fn next_round(&self) -> (r: Round)
        ensures
            match r {
                Round::Run(ids) => ids@.len() > 0
                    && (forall|k: int| 0 <= k < ids@.len() ==> self.node_map()@.contains_key((#[trigger] ids@[k])@) && is_ready(*self, ids@[k]@))
                    && (forall|k: int| 0 <= k < self.node_map().key_seq().len() && is_ready(*self, self.node_map().key_seq()[k]) ==>
                        views_of(ids@).contains(#[trigger] self.node_map().key_seq()[k]))
                    && views_of(ids@).no_duplicates(),
                Round::Wait => (forall|k: int| 0 <= k < self.node_map().key_seq().len() ==> !is_ready(*self, #[trigger] self.node_map().key_seq()[k]))
                    && exists|k: int| 0 <= k < self.node_map().key_seq().len() && !is_finished(state_of(self.states(), #[trigger] self.node_map().key_seq()[k])),
                Round::Finished => (forall|k: int| 0 <= k < self.node_map().key_seq().len() ==> !is_ready(*self, #[trigger] self.node_map().key_seq()[k]))
                    && forall|k: int| 0 <= k < self.node_map().key_seq().len() ==> is_finished(state_of(self.states(), #[trigger] self.node_map().key_seq()[k])),
            },
    {
        let ready = self.get_ready_nodes();
        if ready.len() > 0 {
            return Round::Run(ready);
        }
        proof {
            assert forall|k: int| 0 <= k < self.node_map().key_seq().len() implies !is_ready(*self, #[trigger] self.node_map().key_seq()[k]) by {
                if is_ready(*self, self.node_map().key_seq()[k]) {
                    assert(views_of(ready@).contains(self.node_map().key_seq()[k]));
                }
            }
        }
        if self.has_pending() {
            Round::Wait
        } else {
            Round::Finished
        }
    }

    /// Whether some node is not finished yet.
    pub fn has_pending(&self) -> (r: bool)
        ensures
            r == exists|k: int| 0 <= k < self.node_map().key_seq().len() && !is_finished(state_of(self.states(), #[trigger] self.node_map().key_seq()[k])),
    {
        let es = self.nodes.entries();
        let mut i: usize = 0;
        proof {
            assert forall|k: int| 0 <= k < es@.len() implies #[trigger] es@[k].0@ == self.nodes.key_seq()[k] by {}
        }
        while i < es.len()
            invariant
                i <= es@.len(),
                es@.len() == self.nodes.key_seq().len(),
                forall|k: int| 0 <= k < es@.len() ==> #[trigger] es@[k].0@ == self.nodes.key_seq()[k],
                forall|k: int| 0 <= k < i ==> is_finished(state_of(self.states(), #[trigger] self.node_map().key_seq()[k])),
            decreases es@.len() - i,
        {
            proof {
                assert(es@[i as int].0@ == self.nodes.key_seq()[i as int]);
            }
            let finished = match self.node_states.get(es[i].0.as_str()) {
                Some(FlowState::Completed) | Some(FlowState::Failed) | Some(FlowState::Cancelled) => true,
                _ => false,
            };
            if !finished {
                return true;
            }
            i = i + 1;
        }
        false
    }

    /// Whether a node that failed on attempt number `attempts` is tried
    /// again: while the attempts stay below its retry limit, 3 when it has
    /// no retry settings.
    pub fn should_retry(&self, node: &FlowNode, attempts: usize) -> (r: bool)
        ensures
            r == (attempts < match node.retry_config {
                Some(c) => c.max_attempts as int,
                None => 3,
            }),
    {
        let max_attempts: u32 = match &node.retry_config {
            Some(c) => c.max_attempts,
            None => RetryConfig::default().max_attempts,
        };
        (attempts as u64) < (max_attempts as u64)
    }

    /// Whether a node runs: a fixed answer as it is; an expression unless it
    /// is `false`; a predicate as it answered outside.
    pub fn evaluate_condition(&self, condition: &BranchCondition, custom_answer: bool) -> (r: bool)
        ensures
            condition matches BranchCondition::Boolean(b) ==> r == b,
            condition matches BranchCondition::Expression(e) ==> r == (e@ != "false"@),
            condition is Custom ==> r == custom_answer,
    {
        match condition {
            BranchCondition::Boolean(b) => *b,
            BranchCondition::Expression(e) => !same_text(e, "false"),
            BranchCondition::Custom => custom_answer,
        }
    }

    /// The node under an id; the error names a missing node.
    pub fn node(&self, node_id: &str) -> (r: Result<&FlowNode, String>)
        ensures
            match r {
                Ok(n) => self.node_map()@.contains_key(node_id@) && *n == self.node_map()@[node_id@],
                Err(e) => !self.node_map()@.contains_key(node_id@) && e@ == "节点不存在: "@ + node_id@,
            },
    {
        match self.nodes.get(node_id) {
            Some(n) => Ok(n),
            None => {
                let mut msg = "节点不存在: ".to_string();
                msg.append(node_id);
                Err(msg)
            },
        }
    }

    fn set_state(&mut self, node_id: &str, state: FlowState)
        ensures
            final(self).states() == old(self).states().insert(node_id@, state),
            final(self).node_map() == old(self).node_map(),
            final(self).deps() == old(self).deps(),
            final(self).counts() == old(self).counts(),
            final(self).settings() == old(self).settings(),
            final(self).checkpoint_ids() == old(self).checkpoint_ids(),
            final(self).saved_states() == old(self).saved_states(),
            final(self).saved_contexts() == old(self).saved_contexts(),
    {
        self.node_states.insert(node_id.to_string(), state);
    }

    /// Marks a node as running.
    pub fn mark_running(&mut self, node_id: &str)
        ensures
            final(self).states() == old(self).states().insert(node_id@, FlowState::Running),
            final(self).node_map() == old(self).node_map(),
            final(self).deps() == old(self).deps(),
            final(self).counts() == old(self).counts(),
            final(self).settings() == old(self).settings(),
    {
        self.set_state(node_id, FlowState::Running);
    }

    /// Marks a node whose condition did not hold as cancelled, so that it is
    /// not offered again.
    pub fn mark_skipped(&mut self, node_id: &str)
        ensures
            final(self).states() == old(self).states().insert(node_id@, FlowState::Cancelled),
            final(self).node_map() == old(self).node_map(),
            final(self).deps() == old(self).deps(),
            final(self).counts() == old(self).counts(),
            final(self).settings() == old(self).settings(),
    {
        self.set_state(node_id, FlowState::Cancelled);
    }

    /// Marks a node as completed after `attempts` attempts: one more
    /// success, and every attempt beyond the first counted as a retry.
    pub fn mark_completed(&mut self, node_id: &str, attempts: usize)
        requires
            attempts >= 1,
            old(self).counts().0 < usize::MAX,
            old(self).counts().2 + attempts - 1 <= usize::MAX,
        ensures
            final(self).states() == old(self).states().insert(node_id@, FlowState::Completed),
            final(self).counts() == ((old(self).counts().0 + 1) as usize, old(self).counts().1, (old(self).counts().2 + attempts - 1) as usize, old(self).counts().3),
            final(self).node_map() == old(self).node_map(),
            final(self).deps() == old(self).deps(),
            final(self).settings() == old(self).settings(),
    {
        self.set_state(node_id, FlowState::Completed);
        self.stats.successful_nodes = self.stats.successful_nodes + 1;
        self.stats.total_retries = self.stats.total_retries + (attempts - 1);
    }

    /// Applies a node's recovery strategy after it failed for good: fail
    /// fast marks it failed and counts it; a rollback restores the
    /// checkpoint; skipping marks it failed and goes on; a fallback runs
    /// another node; a retry strategy lets the error stand.
    pub fn handle_error(&mut self, node: &FlowNode, error: String) -> (r: Recovery)
        requires
            old(self).counts().1 < usize::MAX,
            old(self).counts().3 < usize::MAX,
        ensures
            final(self).node_map() == old(self).node_map(),
            final(self).deps() == old(self).deps(),
            final(self).settings() == old(self).settings(),
            match node.error_recovery {
                ErrorRecoveryStrategy::FailFast => r matches Recovery::Fail(m, cause)
                    && m@ == "节点 "@ + node.id@ + " 执行失败"@ && cause == error
                    && final(self).states() == old(self).states().insert(node.id@, FlowState::Failed)
                    && final(self).counts() == (old(self).counts().0, (old(self).counts().1 + 1) as usize, old(self).counts().2, old(self).counts().3),
                ErrorRecoveryStrategy::Retry { .. } => r matches Recovery::Propagate(m) && m == error
                    && final(self).states() == old(self).states() && final(self).counts() == old(self).counts(),
                ErrorRecoveryStrategy::Rollback { checkpoint_id } =>
                    if old(self).checkpoint_ids().contains(checkpoint_id@) {
                        r is RolledBack && final(self).counts().3 == old(self).counts().3 + 1
                    } else {
                        r matches Recovery::RollbackFailed(m) && m@ == "检查点不存在: "@ + checkpoint_id@
                            && final(self).states() == old(self).states() && final(self).counts() == old(self).counts()
                    },
                ErrorRecoveryStrategy::Skip => r is Skipped
                    && final(self).states() == old(self).states().insert(node.id@, FlowState::Failed)
                    && final(self).counts() == old(self).counts(),
                ErrorRecoveryStrategy::Fallback { fallback_flow_id } => r matches Recovery::RunFallback(f)
                    && f@ == fallback_flow_id@
                    && final(self).states() == old(self).states() && final(self).counts() == old(self).counts(),
            },
    {
        match &node.error_recovery {
            ErrorRecoveryStrategy::FailFast => {
                self.set_state(node.id.as_str(), FlowState::Failed);
                self.stats.failed_nodes = self.stats.failed_nodes + 1;
                let mut msg = "节点 ".to_string();
                msg.append(node.id.as_str());
                msg.append(" 执行失败");
                Recovery::Fail(msg, error)
            },
            ErrorRecoveryStrategy::Retry { .. } => Recovery::Propagate(error),
            ErrorRecoveryStrategy::Rollback { checkpoint_id } => {
                match self.restore_checkpoint(checkpoint_id.as_str()) {
                    Ok(()) => Recovery::RolledBack,
                    Err(e) => Recovery::RollbackFailed(e),
                }
            },
            ErrorRecoveryStrategy::Skip => {
                self.set_state(node.id.as_str(), FlowState::Failed);
                Recovery::Skipped
            },
            ErrorRecoveryStrategy::Fallback { fallback_flow_id } => Recovery::RunFallback(fallback_flow_id.clone()),
        }
    }

    fn copy_states(&self) -> (r: StrMap<FlowState>)
        ensures
            r@ == self.states(),
    {
        self.node_states.copied()
    }

    /// Saves the context and the node states under an id, when checkpoints
    /// are on.
    pub fn create_checkpoint(&mut self, checkpoint_id: &str)
        ensures
            final(self).checkpoint_ids() == if old(self).settings().enable_checkpoints {
                old(self).checkpoint_ids().insert(checkpoint_id@)
            } else {
                old(self).checkpoint_ids()
            },
            final(self).saved_states() == if old(self).settings().enable_checkpoints {
                old(self).saved_states().insert(checkpoint_id@, old(self).states())
            } else {
                old(self).saved_states()
            },
            old(self).settings().enable_checkpoints ==> same_context(final(self).saved_contexts()[checkpoint_id@], old(self).context()),
            old(self).settings().enable_checkpoints ==> forall|k: Seq<char>| k != checkpoint_id@ && #[trigger] old(self).checkpoint_ids().contains(k)
                ==> final(self).saved_contexts()[k] == old(self).saved_contexts()[k],
            !old(self).settings().enable_checkpoints ==> final(self).saved_contexts() == old(self).saved_contexts(),
            final(self).node_map() == old(self).node_map(),
            final(self).deps() == old(self).deps(),
            final(self).states() == old(self).states(),
            final(self).counts() == old(self).counts(),
            final(self).settings() == old(self).settings(),
            final(self).context() == old(self).context(),
    {
        if !self.config.enable_checkpoints {
            return;
        }
        let snapshot = self.global_context.duplicate();
        let ghost checkpoint_context = snapshot;
        let checkpoint = Checkpoint {
            id: checkpoint_id.to_string(),
            created_at: instant_now(),
            context_snapshot: snapshot,
            execution_state: self.copy_states(),
        };
        let ghost before = self.checkpoints@;
        self.checkpoints.insert(checkpoint_id.to_string(), checkpoint);
        proof {
            assert(self.checkpoints@.map_values(|c: Checkpoint| c.execution_state@) =~= before.map_values(
                |c: Checkpoint| c.execution_state@,
            ).insert(checkpoint_id@, self.node_states@));
            assert(self.checkpoints@[checkpoint_id@].context_snapshot == checkpoint_context);
        }
    }

    /// Restores the context and node states saved under an id, and counts
    /// the checkpoint as used.
    pub fn restore_checkpoint(&mut self, checkpoint_id: &str) -> (r: Result<(), String>)
        requires
            old(self).counts().3 < usize::MAX,
        ensures
            r is Ok <==> old(self).checkpoint_ids().contains(checkpoint_id@),
            r matches Err(e) ==> e@ == "检查点不存在: "@ + checkpoint_id@ && *final(self) == *old(self),
            r is Ok ==> final(self).counts() == (old(self).counts().0, old(self).counts().1, old(self).counts().2, (old(self).counts().3 + 1) as usize),
            r is Ok ==> final(self).states() == old(self).saved_states()[checkpoint_id@],
            r is Ok ==> same_context(final(self).context(), old(self).saved_contexts()[checkpoint_id@]),
            final(self).saved_states() == old(self).saved_states(),
            final(self).saved_contexts() == old(self).saved_contexts(),
            final(self).node_map() == old(self).node_map(),
            final(self).deps() == old(self).deps(),
            final(self).settings() == old(self).settings(),
            final(self).checkpoint_ids() == old(self).checkpoint_ids(),
    {
        let (context, states) = match self.checkpoints.get(checkpoint_id) {
            Some(c) => {
                let ghost cp = c;
                (c.context_snapshot.duplicate(), c.execution_state.copied())
            },
            None => {
                let mut msg = "检查点不存在: ".to_string();
                msg.append(checkpoint_id);
                return Err(msg);
            },
        };
        self.global_context = context;
        self.node_states = states;
        self.stats.checkpoints_used = self.stats.checkpoints_used + 1;
        Ok(())
    }

    /// The counts of the orchestration.
    pub fn get_stats(&self) -> (r: (usize, usize, usize, usize))
        ensures
            r == self.counts(),
    {
        (self.stats.successful_nodes, self.stats.failed_nodes, self.stats.total_retries, self.stats.checkpoints_used)
    }

    /// The state of a node, if it has one.
    pub fn get_node_state(&self, node_id: &str) -> (r: Option<FlowState>)
        ensures
            r == state_of(self.states(), node_id@),
    {
        match self.node_states.get(node_id) {
            Some(s) => Some(*s),
            None => None,
        }
    }

    /// The states of all nodes that have one.
    pub fn get_all_node_states(&self) -> (r: StrMap<FlowState>)
        ensures
            r@ == self.states(),
    {
        self.copy_states()
    }

    /// How many nodes there are.
    pub fn node_count(&self) -> (r: usize)
        ensures
            r == self.node_map()@.dom().len(),
    {
        self.nodes.len()
    }

    /// The context shared by the nodes.
    pub fn global_context(&self) -> (r: &FlowContext)
        ensures
            *r == self.context(),
    {
        &self.global_context
    }

    /// The settings.
    pub fn config(&self) -> (r: OrchestratorConfig)
        ensures
            r == self.settings(),
    {
        self.config
    }

    /// Notes the start of a run: the start time is taken now.
    pub fn begin_run(&mut self)
        ensures
            final(self).started_at() is Some,
            final(self).completed_at() == old(self).completed_at(),
            final(self).run_duration() == old(self).run_duration(),
            final(self).node_map() == old(self).node_map(),
            final(self).deps() == old(self).deps(),
            final(self).states() == old(self).states(),
            final(self).counts() == old(self).counts(),
            final(self).settings() == old(self).settings(),
    {
        self.stats.started_at = Some(instant_now());
    }

    /// Notes the end of a run: the end time is taken now and, when the run
    /// has a start time, the time since the start is its duration.
    pub fn end_run(&mut self)
        ensures
            final(self).completed_at() is Some,
            final(self).started_at() == old(self).started_at(),
            old(self).started_at() is None ==> final(self).run_duration() == old(self).run_duration(),
            final(self).node_map() == old(self).node_map(),
            final(self).deps() == old(self).deps(),
            final(self).states() == old(self).states(),
            final(self).counts() == old(self).counts(),
            final(self).settings() == old(self).settings(),
    {
        self.stats.completed_at = Some(instant_now());
        match self.stats.started_at {
            Some(s) => {
                self.stats.total_duration = crate::ids::elapsed_since(&s);
            },
            None => {},
        }
    }
}

/// A checkpoint was saved: the node states and a copy of the context.
pub open spec fn checkpoint_saved(before: FlowOrchestrator, after: FlowOrchestrator, id: Seq<char>) -> bool {
    &&& before.settings().enable_checkpoints
    &&& after.saved_states() == before.saved_states().insert(id, before.states())
    &&& same_context(after.saved_contexts()[id], before.context())
}

/// A checkpoint was restored.
pub open spec fn checkpoint_restored(before: FlowOrchestrator, after: FlowOrchestrator, id: Seq<char>) -> bool {
    &&& after.states() == before.saved_states()[id]
    &&& same_context(after.context(), before.saved_contexts()[id])
}

/// Restoring a checkpoint gives back the node states and the context as they
/// were when it was saved, whatever happened between, as long as the
/// checkpoint itself was not replaced.
pub proof fn law_checkpoint_round_trip(
    before: FlowOrchestrator,
    saved: FlowOrchestrator,
    later: FlowOrchestrator,
    restored: FlowOrchestrator,
    id: Seq<char>,
)
    requires
        checkpoint_saved(before, saved, id),
        later.saved_states().contains_key(id),
        later.saved_states()[id] == saved.saved_states()[id],
        later.saved_contexts()[id] == saved.saved_contexts()[id],
        checkpoint_restored(later, restored, id),
    ensures
        restored.states() == before.states(),
        same_context(restored.context(), before.context()),
{
    let a = restored.context();
    let b = saved.saved_contexts()[id];
    let c = before.context();
    assert forall|k: Seq<char>| #[trigger] a.snapshots@.contains_key(k) implies same_snapshot(a.snapshots@[k], c.snapshots@[k]) by {
        assert(same_snapshot(a.snapshots@[k], b.snapshots@[k]));
        assert(b.snapshots@.contains_key(k));
        assert(same_snapshot(b.snapshots@[k], c.snapshots@[k]));
    }
}

} // verus!
