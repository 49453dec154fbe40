//! Planning: from a list of nodes with dependencies to an execution plan
//! whose phases respect every dependency.

use vstd::prelude::*;
use crate::strmap::StrMap;
use crate::yaml::YamlValue;
use crate::context::{views_of, copy_strings};
use crate::plan::{ExecutionNode, ExecutionPhase, ExecutionPlan, NodeView, PhaseExecutionMode, FlowPlanner, empty_plan_text, first_empty_phase};
use crate::text::{decimal, decimal_string};

verus! {

/// Settings of the planner.
#[derive(Debug, Clone, Copy, PartialEq, Eq, Structural)]
pub struct OrchestratorConfig {
    pub enable_parallel_optimization: bool,
    pub max_parallelism: usize,
    pub enable_dependency_analysis: bool,
    pub enable_condition_optimization: bool,
}

impl Default for OrchestratorConfig {
    fn default() -> (r: Self)
        ensures
            r.enable_parallel_optimization,
            r.max_parallelism == 10,
            r.enable_dependency_analysis,
            r.enable_condition_optimization,
    {
        OrchestratorConfig {
            enable_parallel_optimization: true,
            max_parallelism: 10,
            enable_dependency_analysis: true,
            enable_condition_optimization: true,
        }
    }
}

/// Why a plan could not be made.
#[derive(Debug, PartialEq, Eq)]
pub enum PlanError {
    /// A node depends on an id that no node has.
    MissingDependency { node: String, dependency: String },
    /// Some nodes wait on each other, or a node lists a dependency twice, so
    /// they can never become ready.
    CyclicDependency,
    /// The plan that came out is not valid; the text says why.
    InvalidPlan(String),
}

/// The message of a planning error.
pub open spec fn plan_error_text(e: PlanError) -> Seq<char> {
    match e {
        PlanError::MissingDependency { node, dependency } => "节点 "@ + node@ + " 依赖的节点 "@ + dependency@ + " 不存在"@,
        PlanError::CyclicDependency => "检测到循环依赖"@,
        PlanError::InvalidPlan(t) => t@,
    }
}

impl PlanError {
    /// The message of the error: `节点 <node> 依赖的节点 <dependency> 不存在`
    /// for a missing dependency, `检测到循环依赖` for a cycle, and the text of
    /// an invalid plan.
    pub fn message(&self) -> (r: String)
        ensures
            r@ == plan_error_text(*self),
    {
        match self {
            PlanError::MissingDependency { node, dependency } => {
                let mut m = "节点 ".to_string();
                m.append(node.as_str());
                m.append(" 依赖的节点 ");
                m.append(dependency.as_str());
                m.append(" 不存在");
                m
            },
            PlanError::CyclicDependency => "检测到循环依赖".to_string(),
            PlanError::InvalidPlan(t) => t.clone(),
        }
    }
}

/// Counts that describe the size and shape of a plan.
#[derive(Debug, Clone, Copy, PartialEq, Eq, Structural)]
pub struct ExecutionComplexity {
    pub total_nodes: usize,
    pub total_phases: usize,
    pub max_parallel_nodes: usize,
    pub total_dependencies: usize,
    pub conditional_nodes: usize,
}

/// Makes execution plans from nodes.
pub struct EnhancedFlowOrchestrator {
    config: OrchestratorConfig,
}

// ---------------------------------------------------------------------
// Specification of the layering

pub open spec fn nodes_view(s: Seq<ExecutionNode>) -> Seq<NodeView> {
    s.map_values(|n: ExecutionNode| n@)
}

/// No later node has the same id.
pub open spec fn is_last_occurrence(s: Seq<NodeView>, i: int) -> bool {
    forall|j: int| i < j < s.len() ==> s[j].id != s[i].id
}

/// Indices below `k` of the nodes that are the last with their id, in order.
pub open spec fn last_occurrences(s: Seq<NodeView>, k: nat) -> Seq<int>
    decreases k,
{
    if k == 0 {
        Seq::empty()
    } else {
        let r = last_occurrences(s, (k - 1) as nat);
        if is_last_occurrence(s, k - 1) {
            r.push(k - 1)
        } else {
            r
        }
    }
}

/// All dependencies are placed already, and none is listed twice.
pub open spec fn deps_ready(n: NodeView, placed: Set<Seq<char>>) -> bool {
    &&& n.dependencies.no_duplicates()
    &&& forall|k: int| 0 <= k < n.dependencies.len() ==> placed.contains(#[trigger] n.dependencies[k])
}

/// The indices in `rem` whose nodes are ready, in order.
pub open spec fn ready_part(s: Seq<NodeView>, rem: Seq<int>, placed: Set<Seq<char>>) -> Seq<int>
    decreases rem.len(),
{
    if rem.len() == 0 {
        Seq::empty()
    } else {
        let r = ready_part(s, rem.drop_last(), placed);
        if deps_ready(s[rem.last()], placed) {
            r.push(rem.last())
        } else {
            r
        }
    }
}

/// The indices in `rem` whose nodes are not ready, in order.
pub open spec fn blocked_part(s: Seq<NodeView>, rem: Seq<int>, placed: Set<Seq<char>>) -> Seq<int>
    decreases rem.len(),
{
    if rem.len() == 0 {
        Seq::empty()
    } else {
        let r = blocked_part(s, rem.drop_last(), placed);
        if deps_ready(s[rem.last()], placed) {
            r
        } else {
            r.push(rem.last())
        }
    }
}

/// The ids of the nodes at the given indices.
pub open spec fn ids_of(s: Seq<NodeView>, idx: Seq<int>) -> Set<Seq<char>> {
    Set::new(|x: Seq<char>| exists|k: int| 0 <= k < idx.len() && s[idx[k]].id == x)
}

pub proof fn lemma_parts_len(s: Seq<NodeView>, rem: Seq<int>, placed: Set<Seq<char>>)
    ensures
        ready_part(s, rem, placed).len() + blocked_part(s, rem, placed).len() == rem.len(),
    decreases rem.len(),
{
    if rem.len() > 0 {
        lemma_parts_len(s, rem.drop_last(), placed);
    }
}

/// Layers of indices: each layer holds the remaining nodes whose
/// dependencies are all in earlier layers (or placed before), in their
/// order; `None` when at some point no remaining node is ready.
pub open spec fn kahn(s: Seq<NodeView>, rem: Seq<int>, placed: Set<Seq<char>>) -> Option<Seq<Seq<int>>>
    decreases rem.len(),
{
    if rem.len() == 0 {
        Some(Seq::empty())
    } else {
        let layer = ready_part(s, rem, placed);
        if layer.len() == 0 {
            None
        } else {
            let rest = blocked_part(s, rem, placed);
            proof {
                lemma_parts_len(s, rem, placed);
            }
            match kahn(s, rest, placed.union(ids_of(s, layer))) {
                Some(ls) => Some(seq![layer] + ls),
                None => None,
            }
        }
    }
}

/// The layering of a node list: nodes that share an id count once, as the
/// last of them.
pub open spec fn plan_layers(s: Seq<NodeView>) -> Option<Seq<Seq<int>>> {
    kahn(s, last_occurrences(s, s.len()), Set::empty())
}

/// Layers of nodes that are the nodes at the given layers of indices.
pub open spec fn layers_match(out: Seq<Vec<ExecutionNode>>, s: Seq<NodeView>, ls: Seq<Seq<int>>) -> bool {
    &&& out.len() == ls.len()
    &&& forall|k: int| 0 <= k < ls.len() ==> (#[trigger] out[k])@.len() == ls[k].len()
    &&& forall|k: int, m: int| 0 <= k < ls.len() && 0 <= m < ls[k].len() ==> (#[trigger] out[k]@[m])@ == s[ls[k][m]]
}

/// The ids of all nodes.
pub open spec fn id_set(s: Seq<NodeView>) -> Set<Seq<char>> {
    Set::new(|x: Seq<char>| exists|i: int| 0 <= i < s.len() && s[i].id == x)
}

/// The node at `i` counts and depends on `d`, which no node is.
pub open spec fn missing_dep(s: Seq<NodeView>, i: int, d: Seq<char>) -> bool {
    &&& 0 <= i < s.len()
    &&& is_last_occurrence(s, i)
    &&& s[i].dependencies.contains(d)
    &&& !id_set(s).contains(d)
}

/// The dependency graph: each id maps to the dependencies of the last node
/// with that id.
pub open spec fn graph_of(g: StrMap<Vec<String>>, s: Seq<NodeView>) -> bool {
    &&& g@.dom() == id_set(s)
    &&& forall|i: int| 0 <= i < s.len() && is_last_occurrence(s, i) ==> views_of((#[trigger] g@[s[i].id])@) == s[i].dependencies
}

/// The name of phase `k`.
pub open spec fn phase_name(k: nat) -> Seq<char> {
    "执行阶段 "@ + decimal(k + 1)
}

/// The id of phase `k`.
pub open spec fn phase_id(k: nat) -> Seq<char> {
    "phase_"@ + decimal(k)
}

/// The phases made from layers: one per layer, run sequentially when it
/// holds one node and in parallel otherwise.
pub open spec fn phases_from_layers(phases: Seq<ExecutionPhase>, s: Seq<NodeView>, ls: Seq<Seq<int>>) -> bool {
    &&& phases.len() == ls.len()
    &&& forall|k: int| 0 <= k < ls.len() ==> {
        let p = #[trigger] phases[k];
        &&& p.id@ == phase_id(k as nat)
        &&& p.name@ == phase_name(k as nat)
        &&& (if ls[k].len() == 1 { p.execution_mode is Sequential } else { p.execution_mode is Parallel })
        &&& p.condition is None
        &&& p.nodes@.len() == ls[k].len()
        &&& forall|m: int| 0 <= m < ls[k].len() ==> (#[trigger] p.nodes@[m])@ == s[ls[k][m]]
    }
}

/// Everything in order `s` would come out of the planner.
pub open spec fn planned(plan: ExecutionPlan, s: Seq<NodeView>, ls: Seq<Seq<int>>) -> bool {
    &&& phases_from_layers(plan.phases@, s, ls)
    &&& plan.metadata.total_phases == ls.len()
    &&& plan.metadata.total_nodes == last_occurrences(s, s.len()).len()
}

// ---------------------------------------------------------------------
// Lemmas

proof fn lemma_ready_part_push(s: Seq<NodeView>, rem: Seq<int>, x: int, placed: Set<Seq<char>>)
    ensures
        ready_part(s, rem.push(x), placed) == if deps_ready(s[x], placed) {
            ready_part(s, rem, placed).push(x)
        } else {
            ready_part(s, rem, placed)
        },
        blocked_part(s, rem.push(x), placed) == if deps_ready(s[x], placed) {
            blocked_part(s, rem, placed)
        } else {
            blocked_part(s, rem, placed).push(x)
        },
{
    assert(rem.push(x).drop_last() =~= rem);
}

proof fn lemma_parts_members(s: Seq<NodeView>, rem: Seq<int>, placed: Set<Seq<char>>)
    ensures
        forall|k: int| 0 <= k < ready_part(s, rem, placed).len() ==>
            rem.contains(#[trigger] ready_part(s, rem, placed)[k]) && deps_ready(s[ready_part(s, rem, placed)[k]], placed),
        forall|k: int| 0 <= k < blocked_part(s, rem, placed).len() ==>
            rem.contains(#[trigger] blocked_part(s, rem, placed)[k]),
    decreases rem.len(),
{
    if rem.len() > 0 {
        let d = rem.drop_last();
        lemma_parts_members(s, d, placed);
        let x = rem.last();
        assert(rem[rem.len() - 1] == x);
        let rp = ready_part(s, d, placed);
        let bp = blocked_part(s, d, placed);
        assert forall|k: int| 0 <= k < ready_part(s, rem, placed).len() implies
            rem.contains(#[trigger] ready_part(s, rem, placed)[k]) && deps_ready(s[ready_part(s, rem, placed)[k]], placed) by {
            if k < rp.len() {
                assert(ready_part(s, rem, placed)[k] == rp[k]);
                let y = rp[k];
                assert(d.contains(y));
                let j = choose|j: int| 0 <= j < d.len() && d[j] == y;
                assert(rem[j] == y);
            } else {
                assert(ready_part(s, rem, placed)[k] == x);
            }
        }
        assert forall|k: int| 0 <= k < blocked_part(s, rem, placed).len() implies
            rem.contains(#[trigger] blocked_part(s, rem, placed)[k]) by {
            if k < bp.len() {
                assert(blocked_part(s, rem, placed)[k] == bp[k]);
                let y = bp[k];
                assert(d.contains(y));
                let j = choose|j: int| 0 <= j < d.len() && d[j] == y;
                assert(rem[j] == y);
            } else {
                assert(blocked_part(s, rem, placed)[k] == x);
            }
        }
    }
}

/// In a layering, every node's dependencies are placed before its layer:
/// in the set placed at the start or in an earlier layer.
proof fn lemma_kahn_order(s: Seq<NodeView>, rem: Seq<int>, placed: Set<Seq<char>>)
    requires
        kahn(s, rem, placed) is Some,
    ensures
        ({
            let ls = kahn(s, rem, placed)->0;
            forall|l: int, m: int| 0 <= l < ls.len() && 0 <= m < ls[l].len() ==>
                deps_ready(s[#[trigger] ls[l][m]], placed.union(layers_ids(s, ls, l)))
        }),
    decreases rem.len(),
{
    if rem.len() > 0 {
        let layer = ready_part(s, rem, placed);
        let rest = blocked_part(s, rem, placed);
        lemma_parts_len(s, rem, placed);
        lemma_parts_members(s, rem, placed);
        let p2 = placed.union(ids_of(s, layer));
        lemma_kahn_order(s, rest, p2);
        let tail = kahn(s, rest, p2)->0;
        let ls = kahn(s, rem, placed)->0;
        assert(ls == seq![layer] + tail);
        assert forall|l: int, m: int| 0 <= l < ls.len() && 0 <= m < ls[l].len() implies
            deps_ready(s[#[trigger] ls[l][m]], placed.union(layers_ids(s, ls, l))) by {
            if l == 0 {
                assert(ls[0] == layer);
                assert(layers_ids(s, ls, 0) =~= Set::empty());
                assert(placed.union(layers_ids(s, ls, 0)) =~= placed);
            } else {
                assert(ls[l] == tail[l - 1]);
                lemma_layers_ids_shift(s, layer, tail, l);
                assert(placed.union(layers_ids(s, ls, l)) =~= p2.union(layers_ids(s, tail, l - 1)));
                assert(deps_ready(s[tail[l - 1][m]], p2.union(layers_ids(s, tail, l - 1))));
            }
        }
    }
}

/// The ids of the nodes in the layers before `l`.
pub open spec fn layers_ids(s: Seq<NodeView>, ls: Seq<Seq<int>>, l: int) -> Set<Seq<char>> {
    Set::new(|x: Seq<char>| exists|a: int, b: int| 0 <= a < l && a < ls.len() && 0 <= b < ls[a].len() && s[ls[a][b]].id == x)
}

proof fn lemma_layers_ids_shift(s: Seq<NodeView>, layer: Seq<int>, tail: Seq<Seq<int>>, l: int)
    requires
        1 <= l <= tail.len() + 1,
    ensures
        layers_ids(s, seq![layer] + tail, l) == ids_of(s, layer).union(layers_ids(s, tail, l - 1)),
{
    let ls = seq![layer] + tail;
    assert forall|x: Seq<char>| layers_ids(s, ls, l).contains(x) implies ids_of(s, layer).union(layers_ids(s, tail, l - 1)).contains(x) by {
        let (a, b) = choose|a: int, b: int| 0 <= a < l && a < ls.len() && 0 <= b < ls[a].len() && s[ls[a][b]].id == x;
        if a == 0 {
            assert(ls[0] == layer);
            assert(ids_of(s, layer).contains(x));
        } else {
            assert(ls[a] == tail[a - 1]);
            assert(layers_ids(s, tail, l - 1).contains(x));
        }
    }
    assert forall|x: Seq<char>| ids_of(s, layer).union(layers_ids(s, tail, l - 1)).contains(x) implies layers_ids(s, ls, l).contains(x) by {
        if ids_of(s, layer).contains(x) {
            let k = choose|k: int| 0 <= k < layer.len() && s[layer[k]].id == x;
            assert(ls[0] == layer);
            assert(0 <= 0 < l && 0 <= k < ls[0].len() && s[ls[0][k]].id == x);
        } else {
            let (a, b) = choose|a: int, b: int| 0 <= a < l - 1 && a < tail.len() && 0 <= b < tail[a].len() && s[tail[a][b]].id == x;
            assert(ls[a + 1] == tail[a]);
            assert(0 <= a + 1 < l && a + 1 < ls.len() && 0 <= b < ls[a + 1].len() && s[ls[a + 1][b]].id == x);
        }
    }
    assert(layers_ids(s, ls, l) =~= ids_of(s, layer).union(layers_ids(s, tail, l - 1)));
}

/// Dependencies come first: in the layering of a node list, each dependency
/// of a node is the id of a node in a strictly earlier layer, and no node
/// lists a dependency twice.
pub proof fn law_dependencies_run_first(s: Seq<NodeView>, l: int, m: int, k: int)
    requires
        plan_layers(s) is Some,
        0 <= l < plan_layers(s)->0.len(),
        0 <= m < plan_layers(s)->0[l].len(),
        0 <= k < s[plan_layers(s)->0[l][m]].dependencies.len(),
    ensures
        s[plan_layers(s)->0[l][m]].dependencies.no_duplicates(),
        exists|a: int, b: int| 0 <= a < l && 0 <= b < plan_layers(s)->0[a].len()
            && s[plan_layers(s)->0[a][b]].id == s[plan_layers(s)->0[l][m]].dependencies[k],
{
    let ls = plan_layers(s)->0;
    lemma_kahn_order(s, last_occurrences(s, s.len()), Set::empty());
    let i = ls[l][m];
    assert(deps_ready(s[i], Set::<Seq<char>>::empty().union(layers_ids(s, ls, l))));
    let d = s[i].dependencies[k];
    assert(Set::<Seq<char>>::empty().union(layers_ids(s, ls, l)).contains(d));
}

/// A node without dependencies that takes part in a layering is in the
/// first layer.
pub proof fn law_independent_nodes_first(s: Seq<NodeView>, i: int)
    requires
        plan_layers(s) is Some,
        0 <= i < s.len(),
        is_last_occurrence(s, i),
        s[i].dependencies.len() == 0,
    ensures
        plan_layers(s)->0.len() > 0,
        plan_layers(s)->0[0].contains(i),
{
    let rem = last_occurrences(s, s.len());
    lemma_last_occurrences(s, s.len());
    assert(rem.contains(i));
    assert(deps_ready(s[i], Set::empty()));
    lemma_ready_contains(s, rem, Set::empty(), i);
    assert(rem.len() > 0);
}

proof fn lemma_parts_cover(s: Seq<NodeView>, rem: Seq<int>, placed: Set<Seq<char>>, x: int)
    requires
        rem.contains(x),
    ensures
        ready_part(s, rem, placed).contains(x) || blocked_part(s, rem, placed).contains(x),
    decreases rem.len(),
{
    let d = rem.drop_last();
    if rem.last() == x {
        lemma_ready_part_push(s, d, x, placed);
        assert(rem == d.push(x));
        if deps_ready(s[x], placed) {
            assert(ready_part(s, rem, placed).last() == x);
        } else {
            assert(blocked_part(s, rem, placed).last() == x);
        }
    } else {
        let j = choose|j: int| 0 <= j < rem.len() && rem[j] == x;
        assert(d[j] == x);
        lemma_parts_cover(s, d, placed, x);
        lemma_ready_part_push(s, d, rem.last(), placed);
        assert(rem == d.push(rem.last()));
        if ready_part(s, d, placed).contains(x) {
            let k = choose|k: int| 0 <= k < ready_part(s, d, placed).len() && ready_part(s, d, placed)[k] == x;
            assert(ready_part(s, rem, placed)[k] == x);
        } else {
            let k = choose|k: int| 0 <= k < blocked_part(s, d, placed).len() && blocked_part(s, d, placed)[k] == x;
            assert(blocked_part(s, rem, placed)[k] == x);
        }
    }
}

proof fn lemma_kahn_covers(s: Seq<NodeView>, rem: Seq<int>, placed: Set<Seq<char>>, x: int)
    requires
        kahn(s, rem, placed) is Some,
        rem.contains(x),
    ensures
        exists|l: int, m: int| 0 <= l < kahn(s, rem, placed)->0.len() && 0 <= m < kahn(s, rem, placed)->0[l].len()
            && kahn(s, rem, placed)->0[l][m] == x,
    decreases rem.len(),
{
    let layer = ready_part(s, rem, placed);
    let rest = blocked_part(s, rem, placed);
    lemma_parts_len(s, rem, placed);
    lemma_parts_cover(s, rem, placed, x);
    let ls = kahn(s, rem, placed)->0;
    let p2 = placed.union(ids_of(s, layer));
    let tail = kahn(s, rest, p2)->0;
    assert(ls == seq![layer] + tail);
    if layer.contains(x) {
        let m = choose|m: int| 0 <= m < layer.len() && layer[m] == x;
        assert(ls[0] == layer);
        assert(ls[0][m] == x);
    } else {
        lemma_kahn_covers(s, rest, p2, x);
        let (l, m) = choose|l: int, m: int| 0 <= l < tail.len() && 0 <= m < tail[l].len() && tail[l][m] == x;
        assert(ls[l + 1] == tail[l]);
        assert(ls[l + 1][m] == x);
    }
}

/// Every node takes part in a successful layering: for each node, the last
/// node with its id is in some layer.
pub proof fn law_every_node_planned(s: Seq<NodeView>, i: int)
    requires
        plan_layers(s) is Some,
        0 <= i < s.len(),
    ensures
        exists|l: int, m: int| 0 <= l < plan_layers(s)->0.len() && 0 <= m < plan_layers(s)->0[l].len()
            && s[plan_layers(s)->0[l][m]].id == s[i].id && is_last_occurrence(s, plan_layers(s)->0[l][m]),
{
    lemma_has_last(s, i);
    let j = choose|j: int| i <= j < s.len() && s[j].id == s[i].id && is_last_occurrence(s, j);
    let rem = last_occurrences(s, s.len());
    lemma_last_occurrences(s, s.len());
    assert(rem.contains(j));
    lemma_kahn_covers(s, rem, Set::empty(), j);
    let ls = plan_layers(s)->0;
    let (l, m) = choose|l: int, m: int| 0 <= l < ls.len() && 0 <= m < ls[l].len() && ls[l][m] == j;
    assert(s[ls[l][m]].id == s[i].id);
}

proof fn lemma_ready_contains(s: Seq<NodeView>, rem: Seq<int>, placed: Set<Seq<char>>, i: int)
    requires
        rem.contains(i),
        deps_ready(s[i], placed),
    ensures
        ready_part(s, rem, placed).contains(i),
    decreases rem.len(),
{
    if rem.last() == i {
        let r = ready_part(s, rem.drop_last(), placed);
        assert(r.push(i)[r.len() as int] == i);
    } else {
        let d = rem.drop_last();
        let j = choose|j: int| 0 <= j < rem.len() && rem[j] == i;
        assert(j < rem.len() - 1);
        assert(d[j] == i);
        lemma_ready_contains(s, d, placed, i);
        let r = ready_part(s, d, placed);
        let k = choose|k: int| 0 <= k < r.len() && r[k] == i;
        if deps_ready(s[rem.last()], placed) {
            assert(r.push(rem.last())[k] == i);
        }
    }
}

proof fn lemma_last_occurrences(s: Seq<NodeView>, k: nat)
    requires
        k <= s.len(),
    ensures
        forall|i: int| 0 <= i < k && is_last_occurrence(s, i) ==> #[trigger] last_occurrences(s, k).contains(i),
        forall|j: int| 0 <= j < last_occurrences(s, k).len() ==> {
            let x = #[trigger] last_occurrences(s, k)[j];
            0 <= x < k && is_last_occurrence(s, x)
        },
    decreases k,
{
    if k > 0 {
        let k1 = (k - 1) as nat;
        lemma_last_occurrences(s, k1);
        let r = last_occurrences(s, k1);
        let full = last_occurrences(s, k);
        assert forall|i: int| 0 <= i < k && is_last_occurrence(s, i) implies #[trigger] full.contains(i) by {
            if i < k - 1 {
                assert(last_occurrences(s, k1).contains(i));
                let j = choose|j: int| 0 <= j < r.len() && r[j] == i;
                assert(full[j] == r[j]);
            } else {
                assert(full[r.len() as int] == i);
            }
        }
        assert forall|j: int| 0 <= j < full.len() implies {
            let x = #[trigger] full[j];
            0 <= x < k && is_last_occurrence(s, x)
        } by {
            if j < r.len() {
                assert(full[j] == r[j]);
                let x = r[j];
                assert(0 <= x < k1 && is_last_occurrence(s, x));
            }
        }
    }
}


/// The indices of a vector of positions.
pub open spec fn ints(v: Seq<usize>) -> Seq<int> {
    v.map_values(|x: usize| x as int)
}

/// Total length of the layers.
pub open spec fn sum_lens(ls: Seq<Seq<int>>) -> nat
    decreases ls.len(),
{
    if ls.len() == 0 {
        0
    } else {
        sum_lens(ls.drop_last()) + ls.last().len()
    }
}

proof fn lemma_sum_lens_prepend(l: Seq<int>, t: Seq<Seq<int>>)
    ensures
        sum_lens(seq![l] + t) == l.len() + sum_lens(t),
    decreases t.len(),
{
    if t.len() > 0 {
        lemma_sum_lens_prepend(l, t.drop_last());
        assert((seq![l] + t).drop_last() =~= seq![l] + t.drop_last());
        assert((seq![l] + t).last() == t.last());
    } else {
        assert(seq![l] + t =~= seq![l]);
        assert(seq![l].drop_last() =~= Seq::<Seq<int>>::empty());
        assert(sum_lens(seq![l].drop_last()) == 0);
        assert(sum_lens(t) == 0);
    }
}

proof fn lemma_sum_lens_take(ls: Seq<Seq<int>>, k: int)
    requires
        0 <= k < ls.len(),
    ensures
        sum_lens(ls.take(k + 1)) == sum_lens(ls.take(k)) + ls[k].len(),
        sum_lens(ls.take(k + 1)) <= sum_lens(ls),
    decreases ls.len(),
{
    assert(ls.take(k + 1).drop_last() =~= ls.take(k));
    if k + 1 < ls.len() {
        lemma_sum_lens_take(ls.drop_last(), k);
        assert(ls.drop_last().take(k + 1) =~= ls.take(k + 1));
        assert(ls.drop_last().take(k) =~= ls.take(k));
    } else {
        assert(ls.take(k + 1) =~= ls);
    }
}

/// A layering places every remaining node once: the layers are as long as
/// the remaining list, and none of them is empty.
proof fn lemma_kahn_count(s: Seq<NodeView>, rem: Seq<int>, placed: Set<Seq<char>>)
    requires
        kahn(s, rem, placed) is Some,
    ensures
        sum_lens(kahn(s, rem, placed)->0) == rem.len(),
        forall|l: int| 0 <= l < kahn(s, rem, placed)->0.len() ==> (#[trigger] kahn(s, rem, placed)->0[l]).len() > 0,
    decreases rem.len(),
{
    if rem.len() > 0 {
        let layer = ready_part(s, rem, placed);
        let rest = blocked_part(s, rem, placed);
        lemma_parts_len(s, rem, placed);
        let p2 = placed.union(ids_of(s, layer));
        lemma_kahn_count(s, rest, p2);
        let tail = kahn(s, rest, p2)->0;
        lemma_sum_lens_prepend(layer, tail);
        let ls = kahn(s, rem, placed)->0;
        assert forall|l: int| 0 <= l < ls.len() implies (#[trigger] ls[l]).len() > 0 by {
            if l > 0 {
                assert(ls[l] == tail[l - 1]);
            }
        }
    }
}

proof fn lemma_nonempty_layers(s: Seq<NodeView>)
    requires
        s.len() > 0,
        plan_layers(s) is Some,
    ensures
        plan_layers(s)->0.len() > 0,
{
    lemma_last_occurrences(s, s.len());
    assert(is_last_occurrence(s, s.len() - 1));
    assert(last_occurrences(s, s.len()).contains(s.len() - 1));
}

proof fn lemma_has_last(s: Seq<NodeView>, i: int)
    requires
        0 <= i < s.len(),
    ensures
        exists|j: int| i <= j < s.len() && s[j].id == s[i].id && is_last_occurrence(s, j),
    decreases s.len() - i,
{
    if !is_last_occurrence(s, i) {
        let j = choose|j: int| i < j < s.len() && s[j].id == s[i].id;
        lemma_has_last(s, j);
    }
}

fn same_id_later(nodes: &Vec<ExecutionNode>, i: usize) -> (r: bool)
    requires
        i < nodes@.len(),
    ensures
        r == !is_last_occurrence(nodes_view(nodes@), i as int),
{
    let ghost s = nodes_view(nodes@);
    let n = nodes.len();
    let mut j: usize = i + 1;
    while j < nodes.len()
        invariant
            i < j <= nodes@.len(),
            s == nodes_view(nodes@),
            forall|k: int| i < k < j ==> s[k].id != s[i as int].id,
        decreases nodes@.len() - j,
    {
        if nodes[j].id == nodes[i].id {
            proof {
                assert(s[j as int] == nodes@[j as int]@);
                assert(s[i as int] == nodes@[i as int]@);
            }
            return true;
        }
        j = j + 1;
    }
    false
}

fn last_occurrence_indices(nodes: &Vec<ExecutionNode>) -> (r: Vec<usize>)
    ensures
        ints(r@) == last_occurrences(nodes_view(nodes@), nodes@.len() as nat),
        forall|k: int| 0 <= k < r@.len() ==> (#[trigger] r@[k]) < nodes@.len(),
{
    let ghost s = nodes_view(nodes@);
    let mut out: Vec<usize> = Vec::new();
    let mut i: usize = 0;
    while i < nodes.len()
        invariant
            i <= nodes@.len(),
            s == nodes_view(nodes@),
            ints(out@) == last_occurrences(s, i as nat),
            forall|k: int| 0 <= k < out@.len() ==> (#[trigger] out@[k]) < i,
        decreases nodes@.len() - i,
    {
        if !same_id_later(nodes, i) {
            out.push(i);
            proof {
                assert(ints(out@) =~= ints(out@.drop_last()).push(i as int));
            }
        }
        i = i + 1;
    }
    out
}

fn contains_string(v: &Vec<String>, x: &String) -> (r: bool)
    ensures
        r == views_of(v@).contains(x@),
{
    let mut i: usize = 0;
    while i < v.len()
        invariant
            i <= v@.len(),
            forall|k: int| 0 <= k < i ==> v@[k]@ != x@,
        decreases v@.len() - i,
    {
        if v[i] == *x {
            proof {
                assert(views_of(v@)[i as int] == x@);
            }
            return true;
        }
        i = i + 1;
    }
    false
}

fn node_ready(node: &ExecutionNode, placed: &Vec<String>) -> (r: bool)
    ensures
        r == deps_ready(node@, views_of(placed@).to_set()),
{
    let deps = &node.dependencies;
    let ghost d = views_of(deps@);
    let mut a: usize = 0;
    while a < deps.len()
        invariant
            a <= deps@.len(),
            d == views_of(deps@),
            d == node@.dependencies,
            forall|x: int, y: int| 0 <= x < a && 0 <= y < d.len() && x != y ==> d[x] != d[y],
            forall|x: int| 0 <= x < a ==> views_of(placed@).to_set().contains(#[trigger] d[x]),
        decreases deps@.len() - a,
    {
        let mut b: usize = 0;
        while b < deps.len()
            invariant
                a < deps@.len(),
                b <= deps@.len(),
                d == views_of(deps@),
                d == node@.dependencies,
                forall|y: int| 0 <= y < b && y != a ==> d[a as int] != d[y],
            decreases deps@.len() - b,
        {
            if b != a && deps[a] == deps[b] {
                proof {
                    assert(node@.dependencies == d);
                    assert(d[a as int] == d[b as int]);
                    assert(!d.no_duplicates());
                }
                return false;
            }
            b = b + 1;
        }
        if !contains_string(placed, &deps[a]) {
            proof {
                assert(node@.dependencies == d);
                assert(d[a as int] == deps@[a as int]@);
                assert(!views_of(placed@).to_set().contains(d[a as int]));
            }
            return false;
        }
        a = a + 1;
    }
    proof {
        assert(d.no_duplicates());
    }
    true
}

impl EnhancedFlowOrchestrator {
    /// A planner with the default settings.
    pub fn new() -> (r: Self)
        ensures
            r.settings().enable_parallel_optimization,
            r.settings().max_parallelism == 10,
            r.settings().enable_dependency_analysis,
            r.settings().enable_condition_optimization,
    {
        EnhancedFlowOrchestrator { config: OrchestratorConfig::default() }
    }

    /// A planner with the given settings.
    pub fn with_config(config: OrchestratorConfig) -> (r: Self)
        ensures
            r.settings() == config,
    {
        EnhancedFlowOrchestrator { config }
    }

    /// The planner's settings.
    pub closed spec fn settings(&self) -> OrchestratorConfig {
        self.config
    }

    /// The planner's settings.
    pub fn config(&self) -> (r: OrchestratorConfig)
        ensures
            r == self.settings(),
    {
        self.config
    }
}


fn copy_layer(nodes: &Vec<ExecutionNode>, idx: &Vec<usize>) -> (r: (Vec<ExecutionNode>, Vec<String>))
    requires
        forall|x: int| 0 <= x < idx@.len() ==> (#[trigger] idx@[x]) < nodes@.len(),
    ensures
        r.0@.len() == idx@.len(),
        forall|x: int| 0 <= x < idx@.len() ==> (#[trigger] r.0@[x])@ == nodes_view(nodes@)[idx@[x] as int],
        r.1@.len() == idx@.len(),
        forall|x: int| 0 <= x < idx@.len() ==> (#[trigger] r.1@[x])@ == nodes_view(nodes@)[idx@[x] as int].id,
{
    let mut layer: Vec<ExecutionNode> = Vec::new();
    let mut ids: Vec<String> = Vec::new();
    let mut m: usize = 0;
    while m < idx.len()
        invariant
            m <= idx@.len(),
            forall|x: int| 0 <= x < idx@.len() ==> (#[trigger] idx@[x]) < nodes@.len(),
            layer@.len() == m,
            ids@.len() == m,
            forall|x: int| 0 <= x < m ==> (#[trigger] layer@[x])@ == nodes_view(nodes@)[idx@[x] as int],
            forall|x: int| 0 <= x < m ==> (#[trigger] ids@[x])@ == nodes_view(nodes@)[idx@[x] as int].id,
        decreases idx@.len() - m,
    {
        let i = idx[m];
        layer.push(nodes[i].duplicate());
        ids.push(nodes[i].id.clone());
        m = m + 1;
    }
    (layer, ids)
}

fn append_strings(placed: &mut Vec<String>, more: &Vec<String>)
    ensures
        final(placed)@ == old(placed)@ + more@,
{
    let mut q: usize = 0;
    while q < more.len()
        invariant
            q <= more@.len(),
            placed@ == old(placed)@ + more@.take(q as int),
        decreases more@.len() - q,
    {
        placed.push(more[q].clone());
        proof {
            assert(more@.take(q as int + 1) =~= more@.take(q as int).push(more@[q as int]));
        }
        q = q + 1;
    }
    proof {
        assert(more@.take(more@.len() as int) =~= more@);
    }
}

impl EnhancedFlowOrchestrator {
    /// Layers the nodes: each layer holds the remaining nodes whose
    /// dependencies all lie in earlier layers. Nodes sharing an id count once,
    /// as the last of them. When some nodes can never become ready the
    /// dependencies are cyclic.
    pub fn topological_sort(&self, nodes: &Vec<ExecutionNode>) -> (r: Result<Vec<Vec<ExecutionNode>>, PlanError>)
        ensures
            match r {
                Ok(layers) => plan_layers(nodes_view(nodes@)) is Some
                    && layers_match(layers@, nodes_view(nodes@), plan_layers(nodes_view(nodes@))->0),
                Err(e) => plan_layers(nodes_view(nodes@)) is None && e == PlanError::CyclicDependency,
            },
    {
        let ghost s = nodes_view(nodes@);
        let mut rem = last_occurrence_indices(nodes);
        let mut placed: Vec<String> = Vec::new();
        let mut layers: Vec<Vec<ExecutionNode>> = Vec::new();
        let ghost mut done: Seq<Seq<int>> = Seq::empty();
        proof {
            assert(views_of(placed@).to_set() =~= Set::<Seq<char>>::empty());
            assert(done + kahn(s, ints(rem@), Set::empty())->0 =~= kahn(s, ints(rem@), Set::empty())->0);
        }
        while rem.len() > 0
            invariant
                s == nodes_view(nodes@),
                forall|k: int| 0 <= k < rem@.len() ==> (#[trigger] rem@[k]) < nodes@.len(),
                plan_layers(s) == match kahn(s, ints(rem@), views_of(placed@).to_set()) {
                    Some(ls) => Some(done + ls),
                    None => None::<Seq<Seq<int>>>,
                },
                layers_match(layers@, s, done),
            decreases rem@.len(),
        {
            let ghost pset = views_of(placed@).to_set();
            let ghost rseq = ints(rem@);
            let mut layer_idx: Vec<usize> = Vec::new();
            let mut rest: Vec<usize> = Vec::new();
            let mut k: usize = 0;
            while k < rem.len()
                invariant
                    k <= rem@.len(),
                    s == nodes_view(nodes@),
                    rseq == ints(rem@),
                    pset == views_of(placed@).to_set(),
                    forall|x: int| 0 <= x < rem@.len() ==> (#[trigger] rem@[x]) < nodes@.len(),
                    ints(layer_idx@) == ready_part(s, rseq.take(k as int), pset),
                    ints(rest@) == blocked_part(s, rseq.take(k as int), pset),
                    forall|x: int| 0 <= x < layer_idx@.len() ==> (#[trigger] layer_idx@[x]) < nodes@.len(),
                    forall|x: int| 0 <= x < rest@.len() ==> (#[trigger] rest@[x]) < nodes@.len(),
                decreases rem@.len() - k,
            {
                let idx = rem[k];
                proof {
                    assert(rseq.take(k as int + 1) =~= rseq.take(k as int).push(idx as int));
                    lemma_ready_part_push(s, rseq.take(k as int), idx as int, pset);
                    assert(s[idx as int] == nodes@[idx as int]@);
                }
                if node_ready(&nodes[idx], &placed) {
                    layer_idx.push(idx);
                    proof {
                        assert(ints(layer_idx@) =~= ints(layer_idx@.drop_last()).push(idx as int));
                    }
                } else {
                    rest.push(idx);
                    proof {
                        assert(ints(rest@) =~= ints(rest@.drop_last()).push(idx as int));
                    }
                }
                k = k + 1;
            }
            proof {
                assert(rseq.take(rseq.len() as int) =~= rseq);
                lemma_parts_len(s, rseq, pset);
            }
            if layer_idx.len() == 0 {
                return Err(PlanError::CyclicDependency);
            }
            let (layer, ids) = copy_layer(nodes, &layer_idx);
            let ghost lseq = ints(layer_idx@);
            let ghost old_p = placed@;
            append_strings(&mut placed, &ids);
            proof {
                let newset = views_of(placed@).to_set();
                let want = pset.union(ids_of(s, lseq));
                assert(pset == views_of(old_p).to_set());
                let n0 = old_p.len();
                assert forall|x: Seq<char>| newset.contains(x) implies want.contains(x) by {
                    assert(views_of(placed@).contains(x));
                    let i = choose|i: int| 0 <= i < views_of(placed@).len() && views_of(placed@)[i] == x;
                    if i >= n0 {
                        let q = i - n0;
                        assert(placed@[i] == ids@[q]);
                        assert(0 <= q < lseq.len() && s[lseq[q]].id == x);
                        assert(ids_of(s, lseq).contains(x));
                    } else {
                        assert(placed@[i] == old_p[i]);
                        assert(views_of(old_p)[i] == x);
                        assert(views_of(old_p).contains(x));
                    }
                }
                assert forall|x: Seq<char>| want.contains(x) implies newset.contains(x) by {
                    if ids_of(s, lseq).contains(x) {
                        let q = choose|q: int| 0 <= q < lseq.len() && s[lseq[q]].id == x;
                        let i = n0 + q;
                        assert(placed@[i] == ids@[q]);
                        assert(views_of(placed@)[i] == x);
                        assert(views_of(placed@).contains(x));
                    } else {
                        assert(views_of(old_p).contains(x));
                        let i = choose|i: int| 0 <= i < views_of(old_p).len() && views_of(old_p)[i] == x;
                        assert(placed@[i] == old_p[i]);
                        assert(views_of(placed@)[i] == x);
                        assert(views_of(placed@).contains(x));
                    }
                }
                assert(newset =~= want);
                let tail = kahn(s, ints(rest@), want);
                if tail is Some {
                    assert(done + (seq![lseq] + tail->0) =~= done.push(lseq) + tail->0);
                }
            }
            layers.push(layer);
            proof {
                let nd = done.push(lseq);
                assert forall|k: int| 0 <= k < nd.len() implies (#[trigger] layers@[k])@.len() == nd[k].len() by {
                    if k < done.len() {
                        assert(layers@[k] == layers@.drop_last()[k]);
                    }
                }
                assert forall|k: int, m: int| 0 <= k < nd.len() && 0 <= m < nd[k].len() implies (#[trigger] layers@[k]@[m])@ == s[nd[k][m]] by {
                    if k < done.len() {
                        assert(layers@[k] == layers@.drop_last()[k]);
                    }
                }
                done = nd;
            }
            rem = rest;
        }
        proof {
            assert(done + Seq::<Seq<int>>::empty() =~= done);
        }
        Ok(layers)
    }
}


/// No counted node depends on an id that no node has.
pub open spec fn no_missing_deps(s: Seq<NodeView>) -> bool {
    forall|i: int, d: Seq<char>| !missing_dep(s, i, d)
}

proof fn lemma_last_occurrences_len(s: Seq<NodeView>, k: nat)
    ensures
        last_occurrences(s, k).len() <= k,
    decreases k,
{
    if k > 0 {
        lemma_last_occurrences_len(s, (k - 1) as nat);
    }
}

/// The text of an invalid-plan error.
pub open spec fn invalid_plan_text(reason: Seq<char>) -> Seq<char> {
    "执行计划验证失败: "@ + reason
}

/// Number of nodes over all phases.
pub open spec fn count_nodes(ps: Seq<ExecutionPhase>) -> nat
    decreases ps.len(),
{
    if ps.len() == 0 {
        0
    } else {
        count_nodes(ps.drop_last()) + ps.last().nodes@.len()
    }
}

/// Size of the largest parallel phase.
pub open spec fn max_parallel(ps: Seq<ExecutionPhase>) -> nat
    decreases ps.len(),
{
    if ps.len() == 0 {
        0
    } else {
        let m = max_parallel(ps.drop_last());
        if ps.last().execution_mode is Parallel && ps.last().nodes@.len() > m {
            ps.last().nodes@.len()
        } else {
            m
        }
    }
}

/// Number of dependencies of some nodes.
pub open spec fn deps_in(ns: Seq<ExecutionNode>) -> nat
    decreases ns.len(),
{
    if ns.len() == 0 {
        0
    } else {
        deps_in(ns.drop_last()) + ns.last().dependencies@.len()
    }
}

/// Number of nodes that carry a condition.
pub open spec fn conds_in(ns: Seq<ExecutionNode>) -> nat
    decreases ns.len(),
{
    if ns.len() == 0 {
        0
    } else {
        conds_in(ns.drop_last()) + if ns.last().condition is Some { 1nat } else { 0nat }
    }
}

pub open spec fn count_deps(ps: Seq<ExecutionPhase>) -> nat
    decreases ps.len(),
{
    if ps.len() == 0 {
        0
    } else {
        count_deps(ps.drop_last()) + deps_in(ps.last().nodes@)
    }
}

pub open spec fn count_conds(ps: Seq<ExecutionPhase>) -> nat
    decreases ps.len(),
{
    if ps.len() == 0 {
        0
    } else {
        count_conds(ps.drop_last()) + conds_in(ps.last().nodes@)
    }
}

proof fn lemma_conds_le(ns: Seq<ExecutionNode>)
    ensures
        conds_in(ns) <= ns.len(),
    decreases ns.len(),
{
    if ns.len() > 0 {
        lemma_conds_le(ns.drop_last());
    }
}

proof fn lemma_count_conds_le(ps: Seq<ExecutionPhase>)
    ensures
        count_conds(ps) <= count_nodes(ps),
    decreases ps.len(),
{
    if ps.len() > 0 {
        lemma_count_conds_le(ps.drop_last());
        lemma_conds_le(ps.last().nodes@);
    }
}

proof fn lemma_prefix_le(ps: Seq<ExecutionPhase>, k: int)
    requires
        0 <= k <= ps.len(),
    ensures
        count_nodes(ps.take(k)) <= count_nodes(ps),
        count_deps(ps.take(k)) <= count_deps(ps),
    decreases ps.len() - k,
{
    if k < ps.len() {
        lemma_prefix_le(ps, k + 1);
        assert(ps.take(k + 1).drop_last() =~= ps.take(k));
    } else {
        assert(ps.take(k) =~= ps);
    }
}

proof fn lemma_nodes_prefix_le(ns: Seq<ExecutionNode>, k: int)
    requires
        0 <= k <= ns.len(),
    ensures
        deps_in(ns.take(k)) <= deps_in(ns),
    decreases ns.len() - k,
{
    if k < ns.len() {
        lemma_nodes_prefix_le(ns, k + 1);
        assert(ns.take(k + 1).drop_last() =~= ns.take(k));
    } else {
        assert(ns.take(k) =~= ns);
    }
}


/// Node `node` counts and depends on `dependency`, which no node is.
pub open spec fn missing_reported(s: Seq<NodeView>, node: Seq<char>, dependency: Seq<char>) -> bool {
    exists|i: int| #[trigger] missing_dep(s, i, dependency) && s[i].id == node
}

/// The first dependency, in the order of the graph, that is no node's id,
/// with the id of the node that lists it.
fn first_missing(nodes: &Vec<ExecutionNode>, g: &StrMap<Vec<String>>) -> (r: Option<(String, String)>)
    requires
        graph_of(*g, nodes_view(nodes@)),
    ensures
        match r {
            Some((node, dependency)) => missing_reported(nodes_view(nodes@), node@, dependency@),
            None => no_missing_deps(nodes_view(nodes@)),
        },
{
    let ghost s = nodes_view(nodes@);
    let es = g.entries();
    proof {
        assert forall|k: int| 0 <= k < es@.len() implies #[trigger] es@[k].0@ == g.key_seq()[k]
                && es@[k].1 == g.value_seq()[k] by {
            assert(es@[k].0@ == g.key_seq()[k]);
            assert(es@[k].1 == g.value_seq()[k]);
        }
    }
    let mut p: usize = 0;
    while p < es.len()
        invariant
            p <= es@.len(),
            s == nodes_view(nodes@),
            graph_of(*g, s),
            es@.len() == g.key_seq().len(),
            g.key_seq().len() == g.value_seq().len(),
            forall|k: int| 0 <= k < es@.len() ==> #[trigger] es@[k].0@ == g.key_seq()[k]
                && es@[k].1 == g.value_seq()[k],
            forall|x: Seq<char>| #[trigger] g@.contains_key(x) <==> g.key_seq().contains(x),
            forall|k: int| 0 <= k < g.key_seq().len() ==> #[trigger] g@[g.key_seq()[k]] == g.value_seq()[k],
            forall|a: int, q: int| 0 <= a < p && 0 <= q < es@[a].1@.len() ==> id_set(s).contains((#[trigger] es@[a].1@[q])@),
        decreases es@.len() - p,
    {
        let deps = &es[p].1;
        let ghost key = es@[p as int].0@;
        let ghost i0: int = 0;
        proof {
            assert(g.key_seq()[p as int] == key);
            assert(g.key_seq().contains(key));
            assert(g@.contains_key(key));
            assert(id_set(s).contains(key));
            let j0 = choose|j: int| 0 <= j < s.len() && s[j].id == key;
            lemma_has_last(s, j0);
            i0 = choose|j: int| j0 <= j < s.len() && s[j].id == s[j0].id && is_last_occurrence(s, j);
            assert(g@[key] == g.value_seq()[p as int]);
            assert(views_of(g@[s[i0].id]@) == s[i0].dependencies);
        }
        let mut q: usize = 0;
        while q < deps.len()
            invariant
                p < es@.len(),
                q <= deps@.len(),
                *deps == es@[p as int].1,
                s == nodes_view(nodes@),
                graph_of(*g, s),
                0 <= i0 < s.len(),
                key == es@[p as int].0@,
                is_last_occurrence(s, i0),
                s[i0].id == key,
                views_of(deps@) == s[i0].dependencies,
                forall|b: int| 0 <= b < q ==> id_set(s).contains((#[trigger] deps@[b])@),
            decreases deps@.len() - q,
        {
            if !g.contains_key(deps[q].as_str()) {
                proof {
                    let d = deps@[q as int]@;
                    assert(s[i0].dependencies[q as int] == d);
                    assert(s[i0].dependencies.contains(d));
                    assert(missing_dep(s, i0, d));
                }
                let node = es[p].0.clone();
                let dependency = deps[q].clone();
                proof {
                    assert(missing_dep(s, i0, dependency@) && s[i0].id == node@);
                    assert(missing_dep(nodes_view(nodes@), i0, dependency@));
                    assert(missing_reported(nodes_view(nodes@), node@, dependency@));
                }
                return Some((node, dependency));
            }
            q = q + 1;
        }
        p = p + 1;
    }
    proof {
        assert forall|i: int, d: Seq<char>| !missing_dep(s, i, d) by {
            if missing_dep(s, i, d) {
                let key = s[i].id;
                assert(id_set(s).contains(key));
                assert(g@.contains_key(key));
                assert(g.key_seq().contains(key));
                let k = choose|k: int| 0 <= k < g.key_seq().len() && g.key_seq()[k] == key;
                assert(views_of(g@[key]@) == s[i].dependencies);
                assert(g@[g.key_seq()[k]] == g.value_seq()[k]);
                assert(es@[k].0@ == g.key_seq()[k]);
                assert(g@[key] == es@[k].1);
                let q = choose|q: int| 0 <= q < s[i].dependencies.len() && s[i].dependencies[q] == d;
                assert(es@[k].1@[q]@ == d);
                assert(id_set(s).contains(es@[k].1@[q]@));
            }
        }
    }
    None
}

impl EnhancedFlowOrchestrator {
    /// Maps each node id to the dependencies of the last node with that id,
    /// and checks that every dependency is the id of some node.
    #[verifier::spinoff_prover]
    pub fn build_dependency_graph(&self, nodes: &Vec<ExecutionNode>) -> (r: Result<StrMap<Vec<String>>, PlanError>)
        ensures
            match r {
                Ok(g) => graph_of(g, nodes_view(nodes@)) && no_missing_deps(nodes_view(nodes@)),
                Err(PlanError::MissingDependency { node, dependency }) =>
                    missing_reported(nodes_view(nodes@), node@, dependency@),
                Err(_) => false,
            },
    {
        let ghost s = nodes_view(nodes@);
        let mut g: StrMap<Vec<String>> = StrMap::new();
        let mut i: usize = 0;
        proof {
            assert(g@.dom() =~= id_set(s.take(0)));
        }
        while i < nodes.len()
            invariant
                i <= nodes@.len(),
                s == nodes_view(nodes@),
                g@.dom() == id_set(s.take(i as int)),
                forall|j: int| 0 <= j < i && is_last_occurrence(s.take(i as int), j)
                    ==> views_of((#[trigger] g@[s[j].id])@) == s[j].dependencies,
            decreases nodes@.len() - i,
        {
            let ghost before = g@;
            let deps = copy_strings(&nodes[i].dependencies);
            g.insert(nodes[i].id.clone(), deps);
            proof {
                let t1 = s.take(i as int + 1);
                let t0 = s.take(i as int);
                assert(s[i as int] == nodes@[i as int]@);
                assert(g@.dom() =~= id_set(t1)) by {
                    assert forall|x: Seq<char>| id_set(t1).contains(x) <==> g@.dom().contains(x) by {
                        if id_set(t1).contains(x) {
                            let j = choose|j: int| 0 <= j < t1.len() && t1[j].id == x;
                            if j < i {
                                assert(t0[j].id == x);
                                assert(id_set(t0).contains(x));
                            }
                        }
                        if g@.dom().contains(x) && x != s[i as int].id {
                            assert(id_set(t0).contains(x));
                            let j = choose|j: int| 0 <= j < t0.len() && t0[j].id == x;
                            assert(t1[j].id == x);
                        }
                        if x == s[i as int].id {
                            assert(t1[i as int].id == x);
                        }
                    }
                }
                assert forall|j: int| 0 <= j < i + 1 && is_last_occurrence(t1, j)
                    implies views_of((#[trigger] g@[s[j].id])@) == s[j].dependencies by {
                    if j < i {
                        assert(t1[i as int].id != t1[j].id);
                        assert(is_last_occurrence(t0, j)) by {
                            assert forall|k: int| j < k < t0.len() implies t0[k].id != t0[j].id by {
                                assert(t1[k] == t0[k]);
                            }
                        }
                    }
                }
            }
            i = i + 1;
        }
        proof {
            assert(s.take(s.len() as int) =~= s);
        }
        match first_missing(nodes, &g) {
            Some((node, dependency)) => Err(PlanError::MissingDependency { node, dependency }),
            None => Ok(g),
        }
    }

    /// One phase per layer: phase `k` is `phase_k`, named after its
    /// position counted from one, and runs its nodes sequentially when there
    /// is one and in parallel otherwise.
    pub fn create_execution_phases(&self, layers: Vec<Vec<ExecutionNode>>) -> (r: Vec<ExecutionPhase>)
        ensures
            r@.len() == layers@.len(),
            forall|k: int| 0 <= k < layers@.len() ==> {
                let p = #[trigger] r@[k];
                &&& p.id@ == phase_id(k as nat)
                &&& p.name@ == phase_name(k as nat)
                &&& (if layers@[k]@.len() == 1 { p.execution_mode is Sequential } else { p.execution_mode is Parallel })
                &&& p.condition is None
                &&& p.nodes == layers@[k]
            },
    {
        let ghost orig = layers@;
        let count = layers.len();
        let mut ls = layers;
        let mut phases: Vec<ExecutionPhase> = Vec::new();
        let mut k: usize = 0;
        while ls.len() > 0
            invariant
                orig.len() == count,
                k + ls@.len() == orig.len(),
                ls@ == orig.subrange(k as int, orig.len() as int),
                phases@.len() == k,
                forall|j: int| 0 <= j < k ==> {
                    let p = #[trigger] phases@[j];
                    &&& p.id@ == phase_id(j as nat)
                    &&& p.name@ == phase_name(j as nat)
                    &&& (if orig[j]@.len() == 1 { p.execution_mode is Sequential } else { p.execution_mode is Parallel })
                    &&& p.condition is None
                    &&& p.nodes == orig[j]
                },
            decreases ls@.len(),
        {
            let layer = ls.remove(0);
            let mode = if layer.len() == 1 {
                PhaseExecutionMode::Sequential
            } else {
                PhaseExecutionMode::Parallel
            };
            let mut id = "phase_".to_string();
            let digits = decimal_string(k as u64);
            id.append(digits.as_str());
            let mut name = "执行阶段 ".to_string();
            let shown = decimal_string((k + 1) as u64);
            name.append(shown.as_str());
            phases.push(ExecutionPhase { id, name, execution_mode: mode, nodes: layer, condition: None });
            proof {
                assert(ls@ =~= orig.subrange(k as int + 1, orig.len() as int));
            }
            k = k + 1;
        }
        phases
    }

    /// Leaves the plan as it is: phases larger than the parallelism limit
    /// are only counted as splittable, not split.
    pub fn optimize_for_parallelism(&self, plan: &mut ExecutionPlan) -> (r: Result<(), PlanError>)
        ensures
            r is Ok,
            *final(plan) == *old(plan),
    {
        Ok(())
    }

    /// Makes a plan from nodes: checks the dependencies, layers the nodes,
    /// turns each layer into a phase, and validates the result.
    pub fn create_execution_plan(
        &self,
        nodes: Vec<ExecutionNode>,
        env_vars: StrMap<YamlValue>,
        flow_vars: StrMap<YamlValue>,
        workflow_name: String,
        workflow_version: String,
    ) -> (r: Result<ExecutionPlan, PlanError>)
        ensures
            plan_result(nodes@, env_vars, flow_vars, workflow_name, workflow_version, r),
    {
        let ghost s = nodes_view(nodes@);
        let count = nodes.len();
        let mut plan = ExecutionPlan::new(workflow_name, workflow_version, env_vars, flow_vars);
        let _graph = self.build_dependency_graph(&nodes)?;
        let layers = self.topological_sort(&nodes)?;
        let ghost ls = plan_layers(s)->0;
        proof {
            lemma_kahn_count(s, last_occurrences(s, s.len()), Set::empty());
            lemma_last_occurrences_len(s, s.len());
            assert(s.len() == count);
        }
        let phases = self.create_execution_phases(layers);
        let ghost all = phases@;
        let mut rest = phases;
        let mut k: usize = 0;
        while rest.len() > 0
            invariant
                k + rest@.len() == all.len(),
                rest@ == all.subrange(k as int, all.len() as int),
                all.len() == ls.len(),
                plan.phases@ == all.take(k as int),
                plan.metadata.total_nodes == sum_lens(ls.take(k as int)),
                plan.metadata.total_phases == k,
                forall|j: int| 0 <= j < all.len() ==> (#[trigger] all[j]).nodes@.len() == ls[j].len(),
                sum_lens(ls) <= usize::MAX,
                plan.env_vars == env_vars,
                plan.flow_vars == flow_vars,
                plan.metadata.workflow_name == workflow_name,
                plan.metadata.workflow_version == workflow_version,
                plan.metadata.plan_id@.len() == 36,
            decreases rest@.len(),
        {
            let phase = rest.remove(0);
            proof {
                lemma_sum_lens_take(ls, k as int);
                assert(phase == all[k as int]);
            }
            plan.add_phase(phase);
            proof {
                assert(plan.phases@ =~= all.take(k as int + 1));
                assert(rest@ =~= all.subrange(k as int + 1, all.len() as int));
            }
            k = k + 1;
        }
        proof {
            assert(all.take(all.len() as int) =~= all);
            assert(ls.take(ls.len() as int) =~= ls);
        }
        if self.config.enable_parallel_optimization {
            self.optimize_for_parallelism(&mut plan)?;
        }
        match plan.validate() {
            Ok(()) => Ok(plan),
            Err(e) => {
                proof {
                    if s.len() > 0 {
                        lemma_nonempty_layers(s);
                        assert(all[0].nodes@.len() > 0);
                        assert(first_empty_phase(all) is Some);
                        let c = first_empty_phase(all)->0;
                        assert(all[c].nodes@.len() == ls[c].len());
                        assert(ls[c].len() > 0);
                    }
                }
                let mut msg = "执行计划验证失败: ".to_string();
                msg.append(e.as_str());
                Err(PlanError::InvalidPlan(msg))
            },
        }
    }

    /// Counts of a plan: nodes, phases, the largest parallel phase,
    /// dependencies and nodes with conditions.
    pub fn analyze_complexity(&self, plan: &ExecutionPlan) -> (r: ExecutionComplexity)
        requires
            count_nodes(plan.phases@) <= usize::MAX,
            count_deps(plan.phases@) <= usize::MAX,
        ensures
            r.total_nodes == count_nodes(plan.phases@),
            r.total_phases == plan.phases@.len(),
            r.max_parallel_nodes == max_parallel(plan.phases@),
            r.total_dependencies == count_deps(plan.phases@),
            r.conditional_nodes == count_conds(plan.phases@),
    {
        let ps = &plan.phases;
        let mut total_nodes: usize = 0;
        let mut max_par: usize = 0;
        let mut total_deps: usize = 0;
        let mut conds: usize = 0;
        let mut i: usize = 0;
        proof {
            lemma_count_conds_le(ps@);
        }
        while i < ps.len()
            invariant
                i <= ps@.len(),
                count_nodes(ps@) <= usize::MAX,
                count_deps(ps@) <= usize::MAX,
                count_conds(ps@) <= count_nodes(ps@),
                total_nodes == count_nodes(ps@.take(i as int)),
                max_par == max_parallel(ps@.take(i as int)),
                total_deps == count_deps(ps@.take(i as int)),
                conds == count_conds(ps@.take(i as int)),
            decreases ps@.len() - i,
        {
            let phase = &ps[i];
            proof {
                assert(ps@.take(i as int + 1).drop_last() =~= ps@.take(i as int));
                lemma_prefix_le(ps@, i as int + 1);
                lemma_count_conds_le(ps@.take(i as int + 1));
            }
            total_nodes = total_nodes + phase.nodes.len();
            let is_parallel = match phase.execution_mode {
                PhaseExecutionMode::Parallel => true,
                _ => false,
            };
            if is_parallel && phase.nodes.len() > max_par {
                max_par = phase.nodes.len();
            }
            let mut j: usize = 0;
            while j < phase.nodes.len()
                invariant
                    i < ps@.len(),
                    *phase == ps@[i as int],
                    j <= phase.nodes@.len(),
                    count_deps(ps@.take(i as int)) + deps_in(phase.nodes@) <= usize::MAX,
                    count_conds(ps@.take(i as int)) + conds_in(phase.nodes@) <= usize::MAX,
                    total_deps == count_deps(ps@.take(i as int)) + deps_in(phase.nodes@.take(j as int)),
                    conds == count_conds(ps@.take(i as int)) + conds_in(phase.nodes@.take(j as int)),
                decreases phase.nodes@.len() - j,
            {
                proof {
                    assert(phase.nodes@.take(j as int + 1).drop_last() =~= phase.nodes@.take(j as int));
                    lemma_nodes_prefix_le(phase.nodes@, j as int + 1);
                    lemma_conds_le(phase.nodes@.take(j as int + 1));
                    lemma_conds_prefix_le(phase.nodes@, j as int + 1);
                }
                total_deps = total_deps + phase.nodes[j].dependencies.len();
                if phase.nodes[j].condition.is_some() {
                    conds = conds + 1;
                }
                j = j + 1;
            }
            proof {
                assert(phase.nodes@.take(phase.nodes@.len() as int) =~= phase.nodes@);
            }
            i = i + 1;
        }
        proof {
            assert(ps@.take(ps@.len() as int) =~= ps@);
        }
        ExecutionComplexity {
            total_nodes,
            total_phases: ps.len(),
            max_parallel_nodes: max_par,
            total_dependencies: total_deps,
            conditional_nodes: conds,
        }
    }
}

/// Whether the node and dependency counts of a plan fit in a machine word.
pub(crate) fn complexity_fits(plan: &ExecutionPlan) -> (r: bool)
    ensures
        r == (count_nodes(plan.phases@) <= usize::MAX && count_deps(plan.phases@) <= usize::MAX),
{
    let ps = &plan.phases;
    let mut total_nodes: usize = 0;
    let mut total_deps: usize = 0;
    let mut i: usize = 0;
    while i < ps.len()
        invariant
            i <= ps@.len(),
            ps@ == plan.phases@,
            total_nodes == count_nodes(ps@.take(i as int)),
            total_deps == count_deps(ps@.take(i as int)),
        decreases ps@.len() - i,
    {
        let phase = &ps[i];
        proof {
            assert(ps@.take(i as int + 1).drop_last() =~= ps@.take(i as int));
            lemma_prefix_le(ps@, i as int + 1);
        }
        match total_nodes.checked_add(phase.nodes.len()) {
            Some(v) => {
                total_nodes = v;
            },
            None => {
                proof {
                    assert(ps@.take(i as int + 1).last() == ps@[i as int]);
                    assert(count_nodes(ps@.take(i as int + 1)) == total_nodes + phase.nodes@.len());
                }
                return false;
            },
        }
        let mut j: usize = 0;
        while j < phase.nodes.len()
            invariant
                i < ps@.len(),
                ps@ == plan.phases@,
                *phase == ps@[i as int],
                j <= phase.nodes@.len(),
                total_deps == count_deps(ps@.take(i as int)) + deps_in(phase.nodes@.take(j as int)),
            decreases phase.nodes@.len() - j,
        {
            proof {
                assert(phase.nodes@.take(j as int + 1).drop_last() =~= phase.nodes@.take(j as int));
                lemma_nodes_prefix_le(phase.nodes@, j as int + 1);
                lemma_prefix_le(ps@, i as int + 1);
                assert(ps@.take(i as int + 1).drop_last() =~= ps@.take(i as int));
            }
            match total_deps.checked_add(phase.nodes[j].dependencies.len()) {
                Some(v) => {
                    total_deps = v;
                },
                None => {
                    proof {
                        assert(phase.nodes@.take(j as int + 1).last() == phase.nodes@[j as int]);
                        assert(deps_in(phase.nodes@.take(j as int + 1)) == deps_in(phase.nodes@.take(j as int)) + phase.nodes@[j as int].dependencies@.len());
                        lemma_nodes_prefix_le(phase.nodes@, j as int + 1);
                        assert(ps@.take(i as int + 1).last() == ps@[i as int]);
                        assert(count_deps(ps@.take(i as int + 1)) == count_deps(ps@.take(i as int)) + deps_in(phase.nodes@));
                    }
                    return false;
                },
            }
            j = j + 1;
        }
        proof {
            assert(phase.nodes@.take(phase.nodes@.len() as int) =~= phase.nodes@);
        }
        i = i + 1;
    }
    proof {
        assert(ps@.take(ps@.len() as int) =~= ps@);
    }
    true
}

proof fn lemma_conds_prefix_le(ns: Seq<ExecutionNode>, k: int)
    requires
        0 <= k <= ns.len(),
    ensures
        conds_in(ns.take(k)) <= conds_in(ns),
    decreases ns.len() - k,
{
    if k < ns.len() {
        lemma_conds_prefix_le(ns, k + 1);
        assert(ns.take(k + 1).drop_last() =~= ns.take(k));
    } else {
        assert(ns.take(k) =~= ns);
    }
}

/// The outcome of making a plan from nodes: with no missing dependency and
/// no cycle, the nodes laid out in phases by their layering, with the given
/// variables, name and version under a fresh id; else the first missing
/// dependency, the cycle, or the empty plan.
pub open spec fn plan_result(
    nodes: Seq<ExecutionNode>,
    env_vars: StrMap<YamlValue>,
    flow_vars: StrMap<YamlValue>,
    workflow_name: String,
    workflow_version: String,
    r: Result<ExecutionPlan, PlanError>,
) -> bool {
    match r {
        Ok(plan) => {
            &&& no_missing_deps(nodes_view(nodes))
            &&& plan_layers(nodes_view(nodes)) is Some
            &&& planned(plan, nodes_view(nodes), plan_layers(nodes_view(nodes))->0)
            &&& plan.phases@.len() > 0
            &&& first_empty_phase(plan.phases@) is None
            &&& plan.env_vars == env_vars
            &&& plan.flow_vars == flow_vars
            &&& plan.metadata.workflow_name == workflow_name
            &&& plan.metadata.workflow_version == workflow_version
            &&& plan.metadata.plan_id@.len() == 36
        },
        Err(PlanError::MissingDependency { node, dependency }) =>
            missing_reported(nodes_view(nodes), node@, dependency@),
        Err(PlanError::CyclicDependency) => no_missing_deps(nodes_view(nodes))
            && plan_layers(nodes_view(nodes)) is None,
        Err(PlanError::InvalidPlan(e)) => no_missing_deps(nodes_view(nodes)) && nodes.len() == 0
            && e@ == invalid_plan_text(empty_plan_text()),
    }
}

impl FlowPlanner for EnhancedFlowOrchestrator {
    type Input = (Vec<ExecutionNode>, StrMap<YamlValue>, StrMap<YamlValue>, String, String);
    type Output = ExecutionPlan;
    type Error = PlanError;

    open spec fn planned_from(&self, input: Self::Input, r: Result<ExecutionPlan, PlanError>) -> bool {
        plan_result(input.0@, input.1, input.2, input.3, input.4, r)
    }

    /// Optimizing leaves a plan as it is.
    open spec fn optimized_from(&self, plan: ExecutionPlan, r: Result<ExecutionPlan, PlanError>) -> bool {
        r == Ok::<ExecutionPlan, PlanError>(plan)
    }

    fn create_execution_plan(&self, input: Self::Input) -> Result<ExecutionPlan, PlanError> {
        let (nodes, env_vars, flow_vars, workflow_name, workflow_version) = input;
        EnhancedFlowOrchestrator::create_execution_plan(self, nodes, env_vars, flow_vars, workflow_name, workflow_version)
    }

    fn optimize_plan(&self, plan: ExecutionPlan) -> Result<ExecutionPlan, PlanError> {
        let mut p = plan;
        self.optimize_for_parallelism(&mut p)?;
        Ok(p)
    }
}

/// The ids of the nodes below `k` that are the last with their id.
pub open spec fn last_ids_below(s: Seq<NodeView>, k: int) -> Set<Seq<char>> {
    Set::new(|x: Seq<char>| exists|j: int| 0 <= j < k && is_last_occurrence(s, j) && s[j].id == x)
}

proof fn lemma_last_ids_count(s: Seq<NodeView>, k: nat)
    requires
        k <= s.len(),
    ensures
        last_ids_below(s, k as int).finite(),
        last_ids_below(s, k as int).len() == last_occurrences(s, k).len(),
    decreases k,
{
    if k == 0 {
        assert(last_ids_below(s, 0) =~= Set::<Seq<char>>::empty());
    } else {
        let k1 = (k - 1) as nat;
        lemma_last_ids_count(s, k1);
        let prev = last_ids_below(s, k1 as int);
        let x = s[k1 as int].id;
        if is_last_occurrence(s, k1 as int) {
            assert(!prev.contains(x)) by {
                if prev.contains(x) {
                    let j = choose|j: int| 0 <= j < k1 && is_last_occurrence(s, j) && s[j].id == x;
                    assert(s[k1 as int].id == s[j].id);
                }
            }
            assert(last_ids_below(s, k as int) =~= prev.insert(x));
        } else {
            assert(last_ids_below(s, k as int) =~= prev);
        }
    }
}

proof fn lemma_distinct_ids(s: Seq<NodeView>)
    ensures
        id_set(s).finite(),
        id_set(s).len() == last_occurrences(s, s.len()).len(),
{
    lemma_last_ids_count(s, s.len());
    assert forall|x: Seq<char>| id_set(s).contains(x) implies last_ids_below(s, s.len() as int).contains(x) by {
        let i = choose|i: int| 0 <= i < s.len() && s[i].id == x;
        lemma_has_last(s, i);
        let j = choose|j: int| i <= j < s.len() && s[j].id == s[i].id && is_last_occurrence(s, j);
        assert(0 <= j < s.len() && is_last_occurrence(s, j) && s[j].id == x);
    }
    assert(id_set(s) =~= last_ids_below(s, s.len() as int));
}

proof fn lemma_count_nodes_sum(ps: Seq<ExecutionPhase>, ls: Seq<Seq<int>>)
    requires
        ps.len() == ls.len(),
        forall|k: int| 0 <= k < ls.len() ==> (#[trigger] ps[k]).nodes@.len() == ls[k].len(),
    ensures
        count_nodes(ps) == sum_lens(ls),
    decreases ps.len(),
{
    if ps.len() > 0 {
        let p2 = ps.drop_last();
        let l2 = ls.drop_last();
        assert forall|k: int| 0 <= k < l2.len() implies (#[trigger] p2[k]).nodes@.len() == l2[k].len() by {
            assert(p2[k] == ps[k]);
        }
        lemma_count_nodes_sum(p2, l2);
        assert(ps.last() == ps[ps.len() - 1]);
    }
}

/// A plan that was made holds every node: for each node of the input, a
/// node with its id stands in some phase, and the phases hold, all
/// together, exactly as many nodes as the input has distinct ids, so that
/// each id stands in the plan once.
pub proof fn law_plan_holds_every_node_once(
    nodes: Seq<ExecutionNode>,
    env_vars: StrMap<YamlValue>,
    flow_vars: StrMap<YamlValue>,
    workflow_name: String,
    workflow_version: String,
    plan: ExecutionPlan,
    i: int,
)
    requires
        plan_result(nodes, env_vars, flow_vars, workflow_name, workflow_version, Ok(plan)),
        0 <= i < nodes.len(),
    ensures
        exists|k: int, m: int| 0 <= k < plan.phases@.len() && 0 <= m < plan.phases@[k].nodes@.len()
            && (#[trigger] plan.phases@[k].nodes@[m])@.id == nodes[i]@.id,
        count_nodes(plan.phases@) == plan.metadata.total_nodes,
        plan.metadata.total_nodes == id_set(nodes_view(nodes)).len(),
{
    let s = nodes_view(nodes);
    let ls = plan_layers(s)->0;
    law_every_node_planned(s, i);
    let (l, m) = choose|l: int, m: int| 0 <= l < ls.len() && 0 <= m < ls[l].len()
        && s[ls[l][m]].id == s[i].id && is_last_occurrence(s, ls[l][m]);
    assert(plan.phases@[l].nodes@[m]@ == s[ls[l][m]]);
    lemma_kahn_count(s, last_occurrences(s, s.len()), Set::empty());
    assert forall|k: int| 0 <= k < ls.len() implies (#[trigger] plan.phases@[k]).nodes@.len() == ls[k].len() by {}
    lemma_count_nodes_sum(plan.phases@, ls);
    lemma_distinct_ids(s);
}

/// Dependencies come first in a plan that was made: each dependency of a
/// node in a phase is the id of a node in an earlier phase.
pub proof fn law_plan_dependencies_first(
    nodes: Seq<ExecutionNode>,
    env_vars: StrMap<YamlValue>,
    flow_vars: StrMap<YamlValue>,
    workflow_name: String,
    workflow_version: String,
    plan: ExecutionPlan,
    k: int,
    m: int,
    j: int,
)
    requires
        plan_result(nodes, env_vars, flow_vars, workflow_name, workflow_version, Ok(plan)),
        0 <= k < plan.phases@.len(),
        0 <= m < plan.phases@[k].nodes@.len(),
        0 <= j < plan.phases@[k].nodes@[m]@.dependencies.len(),
    ensures
        exists|a: int, b: int| 0 <= a < k && 0 <= b < plan.phases@[a].nodes@.len()
            && (#[trigger] plan.phases@[a].nodes@[b])@.id == plan.phases@[k].nodes@[m]@.dependencies[j],
{
    let s = nodes_view(nodes);
    let ls = plan_layers(s)->0;
    assert(plan.phases@[k].nodes@[m]@ == s[ls[k][m]]);
    law_dependencies_run_first(s, k, m, j);
    let (a, b) = choose|a: int, b: int| 0 <= a < k && 0 <= b < ls[a].len()
        && s[ls[a][b]].id == s[ls[k][m]].dependencies[j];
    assert(plan.phases@[a].nodes@[b]@ == s[ls[a][b]]);
}

/// A group of counted nodes, given by their indices, none of which can ever
/// become ready: the group is not empty, and each of its nodes lists a
/// dependency twice or depends on a node of the group.
pub open spec fn stuck_group(s: Seq<NodeView>, g: Set<int>) -> bool {
    &&& exists|i: int| g.contains(i)
    &&& forall|i: int| #[trigger] g.contains(i) ==> 0 <= i < s.len() && is_last_occurrence(s, i)
    &&& forall|i: int| #[trigger] g.contains(i) ==> !s[i].dependencies.no_duplicates()
        || exists|k: int, j: int| 0 <= k < s[i].dependencies.len() && g.contains(j)
            && s[j].id == s[i].dependencies[k]
}

proof fn lemma_kahn_stuck(s: Seq<NodeView>, rem: Seq<int>, placed: Set<Seq<char>>)
    requires
        kahn(s, rem, placed) is None,
        no_missing_deps(s),
        forall|k: int| 0 <= k < rem.len() ==> 0 <= #[trigger] rem[k] < s.len() && is_last_occurrence(s, rem[k]),
        forall|j: int| 0 <= j < s.len() && is_last_occurrence(s, j) ==> #[trigger] rem.contains(j) || placed.contains(s[j].id),
    ensures
        exists|g: Set<int>| stuck_group(s, g),
    decreases rem.len(),
{
    let layer = ready_part(s, rem, placed);
    let rest = blocked_part(s, rem, placed);
    lemma_parts_len(s, rem, placed);
    lemma_parts_members(s, rem, placed);
    if layer.len() == 0 {
        let g = rem.to_set();
        assert(rem.len() > 0);
        assert(g.contains(rem[0]));
        assert forall|i: int| #[trigger] g.contains(i) implies 0 <= i < s.len() && is_last_occurrence(s, i) by {
            let k = choose|k: int| 0 <= k < rem.len() && rem[k] == i;
        }
        assert forall|i: int| #[trigger] g.contains(i) implies !s[i].dependencies.no_duplicates()
            || exists|k: int, j: int| 0 <= k < s[i].dependencies.len() && g.contains(j)
                && s[j].id == s[i].dependencies[k] by {
            let k0 = choose|k: int| 0 <= k < rem.len() && rem[k] == i;
            assert(rem.contains(i));
            if deps_ready(s[i], placed) {
                lemma_ready_contains(s, rem, placed, i);
            }
            if s[i].dependencies.no_duplicates() {
                let k = choose|k: int| 0 <= k < s[i].dependencies.len() && !placed.contains(#[trigger] s[i].dependencies[k]);
                let d = s[i].dependencies[k];
                assert(s[i].dependencies.contains(d));
                assert(!missing_dep(s, i, d));
                assert(id_set(s).contains(d));
                let i2 = choose|i2: int| 0 <= i2 < s.len() && s[i2].id == d;
                lemma_has_last(s, i2);
                let j = choose|j: int| i2 <= j < s.len() && s[j].id == s[i2].id && is_last_occurrence(s, j);
                assert(rem.contains(j));
                assert(g.contains(j));
            }
        }
        assert(stuck_group(s, g));
    } else {
        let p2 = placed.union(ids_of(s, layer));
        assert(kahn(s, rest, p2) is None);
        assert forall|k: int| 0 <= k < rest.len() implies 0 <= #[trigger] rest[k] < s.len() && is_last_occurrence(s, rest[k]) by {
            assert(rem.contains(rest[k]));
            let k2 = choose|k2: int| 0 <= k2 < rem.len() && rem[k2] == rest[k];
        }
        assert forall|j: int| 0 <= j < s.len() && is_last_occurrence(s, j) implies #[trigger] rest.contains(j) || p2.contains(s[j].id) by {
            if rem.contains(j) {
                lemma_parts_cover(s, rem, placed, j);
                if layer.contains(j) {
                    let m = choose|m: int| 0 <= m < layer.len() && layer[m] == j;
                    assert(ids_of(s, layer).contains(s[j].id));
                }
            }
        }
        lemma_kahn_stuck(s, rest, p2);
    }
}

/// A plan refused as cyclic has, among the nodes that count, a group none
/// of which can ever run: each lists a dependency twice or waits on a node
/// of the group.
pub proof fn law_cycle_refused_only_when_stuck(
    nodes: Seq<ExecutionNode>,
    env_vars: StrMap<YamlValue>,
    flow_vars: StrMap<YamlValue>,
    workflow_name: String,
    workflow_version: String,
)
    requires
        plan_result(nodes, env_vars, flow_vars, workflow_name, workflow_version, Err(PlanError::CyclicDependency)),
    ensures
        exists|g: Set<int>| stuck_group(nodes_view(nodes), g),
{
    let s = nodes_view(nodes);
    let rem = last_occurrences(s, s.len());
    lemma_last_occurrences(s, s.len());
    assert forall|k: int| 0 <= k < rem.len() implies 0 <= #[trigger] rem[k] < s.len() && is_last_occurrence(s, rem[k]) by {}
    lemma_kahn_stuck(s, rem, Set::empty());
}

proof fn lemma_kahn_members(s: Seq<NodeView>, rem: Seq<int>, placed: Set<Seq<char>>)
    requires
        kahn(s, rem, placed) is Some,
    ensures
        forall|l: int, m: int| 0 <= l < kahn(s, rem, placed)->0.len() && 0 <= m < kahn(s, rem, placed)->0[l].len()
            ==> rem.contains(#[trigger] kahn(s, rem, placed)->0[l][m]),
    decreases rem.len(),
{
    if rem.len() > 0 {
        let layer = ready_part(s, rem, placed);
        let rest = blocked_part(s, rem, placed);
        lemma_parts_len(s, rem, placed);
        lemma_parts_members(s, rem, placed);
        let p2 = placed.union(ids_of(s, layer));
        lemma_kahn_members(s, rest, p2);
        let tail = kahn(s, rest, p2)->0;
        let ls = kahn(s, rem, placed)->0;
        assert(ls == seq![layer] + tail);
        assert forall|l: int, m: int| 0 <= l < ls.len() && 0 <= m < ls[l].len() implies rem.contains(#[trigger] ls[l][m]) by {
            if l == 0 {
                assert(ls[0] == layer);
                assert(rem.contains(layer[m]));
            } else {
                assert(ls[l] == tail[l - 1]);
                assert(rest.contains(tail[l - 1][m]));
                let k = choose|k: int| 0 <= k < rest.len() && rest[k] == tail[l - 1][m];
                assert(rem.contains(rest[k]));
            }
        }
    }
}

proof fn lemma_same_last(s: Seq<NodeView>, i: int, j: int)
    requires
        0 <= i < s.len(),
        0 <= j < s.len(),
        is_last_occurrence(s, i),
        is_last_occurrence(s, j),
        s[i].id == s[j].id,
    ensures
        i == j,
{
}

proof fn lemma_no_stuck_up_to(s: Seq<NodeView>, g: Set<int>, l: int)
    requires
        stuck_group(s, g),
        plan_layers(s) is Some,
        0 <= l < plan_layers(s)->0.len(),
    ensures
        forall|a: int, b: int| 0 <= a <= l && 0 <= b < plan_layers(s)->0[a].len() ==> !g.contains(#[trigger] plan_layers(s)->0[a][b]),
    decreases l,
{
    let ls = plan_layers(s)->0;
    let rem = last_occurrences(s, s.len());
    if l > 0 {
        lemma_no_stuck_up_to(s, g, l - 1);
    }
    lemma_kahn_members(s, rem, Set::empty());
    lemma_last_occurrences(s, s.len());
    assert forall|a: int, b: int| 0 <= a <= l && 0 <= b < ls[a].len() implies !g.contains(#[trigger] ls[a][b]) by {
        if a == l && g.contains(ls[a][b]) {
            let i = ls[a][b];
            assert(s[i].dependencies.no_duplicates()) by {
                if s[i].dependencies.len() > 0 {
                    law_dependencies_run_first(s, a, b, 0);
                }
            }
            let (k, j) = choose|k: int, j: int| 0 <= k < s[i].dependencies.len() && g.contains(j)
                && s[j].id == s[i].dependencies[k];
            law_dependencies_run_first(s, a, b, k);
            let (a2, b2) = choose|a2: int, b2: int| 0 <= a2 < a && 0 <= b2 < ls[a2].len() && s[ls[a2][b2]].id == s[i].dependencies[k];
            let x = ls[a2][b2];
            assert(rem.contains(x));
            let q = choose|q: int| 0 <= q < rem.len() && rem[q] == x;
            assert(0 <= rem[q] < s.len() && is_last_occurrence(s, rem[q]));
            lemma_same_last(s, x, j);
            assert(!g.contains(ls[a2][b2]));
        }
    }
}

/// A group of counted nodes none of which can ever run (each lists a
/// dependency twice or waits on a node of the group) leaves the nodes
/// without a layering, so that no plan is made of them.
pub proof fn law_stuck_group_refused(
    nodes: Seq<ExecutionNode>,
    env_vars: StrMap<YamlValue>,
    flow_vars: StrMap<YamlValue>,
    workflow_name: String,
    workflow_version: String,
    g: Set<int>,
    plan: ExecutionPlan,
)
    requires
        stuck_group(nodes_view(nodes), g),
    ensures
        plan_layers(nodes_view(nodes)) is None,
        !plan_result(nodes, env_vars, flow_vars, workflow_name, workflow_version, Ok(plan)),
{
    let s = nodes_view(nodes);
    if plan_layers(s) is Some {
        let ls = plan_layers(s)->0;
        let i = choose|i: int| g.contains(i);
        law_every_node_planned(s, i);
        let (l, m) = choose|l: int, m: int| 0 <= l < ls.len() && 0 <= m < ls[l].len()
            && s[ls[l][m]].id == s[i].id && is_last_occurrence(s, ls[l][m]);
        let rem = last_occurrences(s, s.len());
        lemma_kahn_members(s, rem, Set::empty());
        lemma_last_occurrences(s, s.len());
        assert(rem.contains(ls[l][m]));
        let q = choose|q: int| 0 <= q < rem.len() && rem[q] == ls[l][m];
        assert(0 <= rem[q] < s.len());
        lemma_same_last(s, ls[l][m], i);
        lemma_no_stuck_up_to(s, g, l);
        assert(!g.contains(ls[l][m]));
    }
}

/// Which nodes give which outcome when a plan is made: a missing dependency
/// is reported exactly when a node that counts depends on an id that no
/// node has; otherwise no nodes give an invalid (empty) plan, a group of
/// nodes that can never run gives a cycle, and all other node lists give a
/// plan.
pub proof fn law_plan_outcomes(
    nodes: Seq<ExecutionNode>,
    env_vars: StrMap<YamlValue>,
    flow_vars: StrMap<YamlValue>,
    workflow_name: String,
    workflow_version: String,
    r: Result<ExecutionPlan, PlanError>,
)
    requires
        plan_result(nodes, env_vars, flow_vars, workflow_name, workflow_version, r),
    ensures
        (r matches Err(PlanError::MissingDependency { .. })) <==> !no_missing_deps(nodes_view(nodes)),
        (r matches Err(PlanError::InvalidPlan(_))) <==> no_missing_deps(nodes_view(nodes)) && nodes.len() == 0,
        (r matches Err(PlanError::CyclicDependency)) <==> no_missing_deps(nodes_view(nodes)) && nodes.len() > 0
            && exists|g: Set<int>| stuck_group(nodes_view(nodes), g),
        r is Ok <==> no_missing_deps(nodes_view(nodes)) && nodes.len() > 0
            && !(exists|g: Set<int>| stuck_group(nodes_view(nodes), g)),
{
    let s = nodes_view(nodes);
    match r {
        Ok(plan) => {
            if exists|g: Set<int>| stuck_group(s, g) {
                let g = choose|g: Set<int>| stuck_group(s, g);
                law_stuck_group_refused(nodes, env_vars, flow_vars, workflow_name, workflow_version, g, plan);
            }
            if nodes.len() == 0 {
                assert(last_occurrences(s, 0) == Seq::<int>::empty());
                assert(plan_layers(s) == Some(Seq::<Seq<int>>::empty()));
            }
        },
        Err(PlanError::CyclicDependency) => {
            law_cycle_refused_only_when_stuck(nodes, env_vars, flow_vars, workflow_name, workflow_version);
            if nodes.len() == 0 {
                assert(last_occurrences(s, 0) == Seq::<int>::empty());
            }
        },
        Err(PlanError::InvalidPlan(_)) => {
            if exists|g: Set<int>| stuck_group(s, g) {
                let g = choose|g: Set<int>| stuck_group(s, g);
                let i = choose|i: int| g.contains(i);
            }
        },
        Err(PlanError::MissingDependency { .. }) => {
            let (node, dependency) = (r->Err_0->node, r->Err_0->dependency);
            let i = choose|i: int| #[trigger] missing_dep(s, i, dependency@) && s[i].id == node@;
            assert(!no_missing_deps(s));
        },
    }
}

proof fn lemma_deps_in_agree(a: Seq<ExecutionNode>, b: Seq<ExecutionNode>)
    requires
        a.len() == b.len(),
        forall|m: int| 0 <= m < a.len() ==> (#[trigger] a[m])@ == b[m]@,
    ensures
        deps_in(a) == deps_in(b),
    decreases a.len(),
{
    if a.len() > 0 {
        let a2 = a.drop_last();
        let b2 = b.drop_last();
        assert forall|m: int| 0 <= m < a2.len() implies (#[trigger] a2[m])@ == b2[m]@ by {
            assert(a2[m] == a[m] && b2[m] == b[m]);
        }
        lemma_deps_in_agree(a2, b2);
        assert(a.last()@ == b.last()@);
        assert(views_of(a.last().dependencies@).len() == a.last().dependencies@.len());
        assert(views_of(b.last().dependencies@).len() == b.last().dependencies@.len());
    }
}

proof fn lemma_count_deps_agree(ps: Seq<ExecutionPhase>, qs: Seq<ExecutionPhase>)
    requires
        ps.len() == qs.len(),
        forall|k: int| 0 <= k < ps.len() ==> (#[trigger] ps[k]).nodes@.len() == qs[k].nodes@.len(),
        forall|k: int, m: int| 0 <= k < ps.len() && 0 <= m < ps[k].nodes@.len() ==> (#[trigger] ps[k].nodes@[m])@ == qs[k].nodes@[m]@,
    ensures
        count_deps(ps) == count_deps(qs),
    decreases ps.len(),
{
    if ps.len() > 0 {
        let p2 = ps.drop_last();
        let q2 = qs.drop_last();
        assert forall|k: int| 0 <= k < p2.len() implies (#[trigger] p2[k]).nodes@.len() == q2[k].nodes@.len() by {
            assert(p2[k] == ps[k] && q2[k] == qs[k]);
        }
        assert forall|k: int, m: int| 0 <= k < p2.len() && 0 <= m < p2[k].nodes@.len() implies (#[trigger] p2[k].nodes@[m])@ == q2[k].nodes@[m]@ by {
            assert(p2[k] == ps[k] && q2[k] == qs[k]);
        }
        lemma_count_deps_agree(p2, q2);
        let k = ps.len() - 1;
        assert forall|m: int| 0 <= m < ps[k].nodes@.len() implies (#[trigger] ps[k].nodes@[m])@ == qs[k].nodes@[m]@ by {}
        lemma_deps_in_agree(ps[k].nodes@, qs[k].nodes@);
    }
}

/// Two plans laid out from the same layering of the same nodes hold as many
/// nodes and as many dependencies.
pub(crate) proof fn lemma_planned_counts_agree(p: ExecutionPlan, q: ExecutionPlan, s: Seq<NodeView>, ls: Seq<Seq<int>>)
    requires
        planned(p, s, ls),
        planned(q, s, ls),
    ensures
        count_nodes(p.phases@) == count_nodes(q.phases@),
        count_deps(p.phases@) == count_deps(q.phases@),
{
    assert forall|k: int| 0 <= k < ls.len() implies (#[trigger] p.phases@[k]).nodes@.len() == ls[k].len() by {}
    assert forall|k: int| 0 <= k < ls.len() implies (#[trigger] q.phases@[k]).nodes@.len() == ls[k].len() by {}
    lemma_count_nodes_sum(p.phases@, ls);
    lemma_count_nodes_sum(q.phases@, ls);
    assert forall|k: int| 0 <= k < p.phases@.len() implies (#[trigger] p.phases@[k]).nodes@.len() == q.phases@[k].nodes@.len() by {
        assert(q.phases@[k].nodes@.len() == ls[k].len());
    }
    assert forall|k: int, m: int| 0 <= k < p.phases@.len() && 0 <= m < p.phases@[k].nodes@.len()
        implies (#[trigger] p.phases@[k].nodes@[m])@ == q.phases@[k].nodes@[m]@ by {
        assert(p.phases@[k].nodes@[m]@ == s[ls[k][m]]);
        assert(q.phases@[k].nodes@.len() == ls[k].len());
        assert(q.phases@[k].nodes@[m]@ == s[ls[k][m]]);
    }
    lemma_count_deps_agree(p.phases@, q.phases@);
}

} // verus!

