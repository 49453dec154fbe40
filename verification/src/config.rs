//! Workflow configuration: tasks made of actions, with their flow control,
//! and the checks a configuration must pass before it is run.

use vstd::prelude::*;
use crate::strmap::StrMap;
use crate::yaml::{YamlValue, YamlModel};
use crate::text::same_text;

verus! {

/// A whole workflow configuration.
pub struct WorkflowConfig {
    pub workflow: Workflow,
}

/// A workflow: its version, environment, variables, optional template and
/// tasks.
pub struct Workflow {
    pub version: String,
    pub env: StrMap<String>,
    pub vars: StrMap<YamlValue>,
    pub template: Option<Template>,
    pub tasks: Vec<Task>,
}

/// Where a workflow comes from.
pub struct Template {
    pub id: String,
    pub name: String,
    pub version: String,
    pub description: String,
}

pub struct Task {
    pub task: TaskDefinition,
}

/// A task: a named list of actions.
pub struct TaskDefinition {
    pub id: String,
    pub name: String,
    pub description: String,
    pub actions: Vec<Action>,
}

pub struct Action {
    pub action: ActionDefinition,
}

/// An action: its type, parameters, declared outputs and flow control.
pub struct ActionDefinition {
    pub id: String,
    pub name: String,
    pub description: String,
    pub flow: FlowControl,
    pub outputs: StrMap<YamlValue>,
    pub action_type: ActionType,
    pub parameters: StrMap<Parameter>,
}

/// What follows an action, and how it repeats, retries and times out.
pub struct FlowControl {
    pub next: Option<String>,
    pub next_if: Option<String>,
    pub while_util: Option<WhileUtil>,
    pub retry: Option<RetryConfig>,
    pub timeout: Option<TimeoutConfig>,
    pub on_error: Option<String>,
    pub on_timeout: Option<String>,
}

/// Repeat while a condition holds, at most so many times.
pub struct WhileUtil {
    pub condition: String,
    pub max_iterations: u32,
}

/// Retries: how many, after how many milliseconds.
pub struct RetryConfig {
    pub max_retries: u32,
    pub delay: u64,
}

/// A time limit in milliseconds.
pub struct TimeoutConfig {
    pub duration: u64,
}

/// The kind of an action.
#[derive(Debug, Clone, Copy, PartialEq, Eq, Structural)]
pub enum ActionType {
    Cmd,
    Http,
    Builtin,
    Wasm,
}

/// A parameter: a value with a required flag, or a bare value.
pub enum Parameter {
    Full { value: YamlValue, required: bool },
    Bare(YamlValue),
}

impl Default for FlowControl {
    fn default() -> (r: Self)
        ensures
            r.next is None,
            r.next_if is None,
            r.while_util is None,
            r.retry is None,
            r.timeout is None,
            r.on_error is None,
            r.on_timeout is None,
    {
        FlowControl {
            next: None,
            next_if: None,
            while_util: None,
            retry: None,
            timeout: None,
            on_error: None,
            on_timeout: None,
        }
    }
}

impl Default for ActionType {
    fn default() -> (r: Self)
        ensures
            r == ActionType::Builtin,
    {
        ActionType::Builtin
    }
}

impl Parameter {
    pub open spec fn value_model(&self) -> YamlModel {
        match self {
            Parameter::Full { value, .. } => value.model(),
            Parameter::Bare(v) => v.model(),
        }
    }

    /// The parameter's value.
    pub fn as_value(&self) -> (r: &YamlValue)
        ensures
            r.model() == self.value_model(),
    {
        match self {
            Parameter::Full { value, .. } => value,
            Parameter::Bare(v) => v,
        }
    }

    /// A copy of the parameter's value.
    pub fn to_value(&self) -> (r: YamlValue)
        ensures
            r.model() == self.value_model(),
    {
        self.as_value().duplicate()
    }

    /// Whether the parameter is marked required; a bare value is not.
    pub fn is_required(&self) -> (r: bool)
        ensures
            r == match self {
                Parameter::Full { required, .. } => *required,
                Parameter::Bare(_) => false,
            },
    {
        match self {
            Parameter::Full { required, .. } => *required,
            Parameter::Bare(_) => false,
        }
    }
}

// ---------------------------------------------------------------------
// Validation

/// The ids of the tasks, in order.
pub open spec fn task_ids(tasks: Seq<Task>) -> Seq<Seq<char>> {
    tasks.map_values(|t: Task| t.task.id@)
}

/// `task.action` for each action of a task.
pub open spec fn full_action_ids(t: TaskDefinition) -> Seq<Seq<char>> {
    t.actions@.map_values(|a: Action| t.id@ + "."@ + a.action.id@)
}

/// `task.action` for every action of every task, tasks in order.
pub open spec fn all_action_ids(tasks: Seq<Task>) -> Seq<Seq<char>>
    decreases tasks.len(),
{
    if tasks.len() == 0 {
        Seq::empty()
    } else {
        all_action_ids(tasks.drop_last()) + full_action_ids(tasks.last().task)
    }
}

/// The first position whose text occurred before it, or -1.
pub open spec fn first_dup(s: Seq<Seq<char>>) -> int
    decreases s.len(),
{
    if s.len() == 0 {
        -1
    } else if first_dup(s.drop_last()) >= 0 {
        first_dup(s.drop_last())
    } else if s.drop_last().contains(s.last()) {
        s.len() - 1
    } else {
        -1
    }
}

/// What validation says of a workflow.
pub open spec fn validation(w: Workflow) -> Result<(), Seq<char>> {
    if w.version@.len() == 0 {
        Err("Workflow version cannot be empty"@)
    } else if w.tasks@.len() == 0 {
        Err("Workflow must contain at least one task"@)
    } else if first_dup(task_ids(w.tasks@)) >= 0 {
        Err("Duplicate task ID: "@ + task_ids(w.tasks@)[first_dup(task_ids(w.tasks@))])
    } else if first_dup(all_action_ids(w.tasks@)) >= 0 {
        Err("Duplicate action ID: "@ + all_action_ids(w.tasks@)[first_dup(all_action_ids(w.tasks@))])
    } else {
        Ok(())
    }
}

pub proof fn lemma_first_dup(s: Seq<Seq<char>>)
    ensures
        -1 <= first_dup(s) < s.len(),
        first_dup(s) >= 0 ==> s.take(first_dup(s)).contains(s[first_dup(s)]),
        first_dup(s) < 0 ==> forall|i: int, j: int| 0 <= i < j < s.len() ==> s[i] != s[j],
    decreases s.len(),
{
    if s.len() > 0 {
        let d = s.drop_last();
        lemma_first_dup(d);
        if first_dup(d) >= 0 {
            assert(s.take(first_dup(d)) =~= d.take(first_dup(d)));
        } else if d.contains(s.last()) {
            assert(s.take(s.len() - 1) =~= d);
        } else {
            assert forall|i: int, j: int| 0 <= i < j < s.len() implies s[i] != s[j] by {
                if j < s.len() - 1 {
                    assert(d[i] == s[i] && d[j] == s[j]);
                } else {
                    assert(d[i] == s[i]);
                }
            }
        }
    }
}

/// No `.` in the text.
pub open spec fn dot_free(s: Seq<char>) -> bool {
    forall|i: int| 0 <= i < s.len() ==> s[i] != '.'
}

/// `t1.a1` and `t2.a2` are the same text only for the same pair, when
/// neither task id holds a `.`.
proof fn lemma_dotted_pair(t1: Seq<char>, a1: Seq<char>, t2: Seq<char>, a2: Seq<char>)
    requires
        dot_free(t1),
        dot_free(t2),
        t1 + "."@ + a1 == t2 + "."@ + a2,
    ensures
        t1 == t2,
        a1 == a2,
{
    reveal_strlit(".");
    let x = t1 + "."@ + a1;
    let y = t2 + "."@ + a2;
    if t1.len() < t2.len() {
        assert(x[t1.len() as int] == '.');
        assert(y[t1.len() as int] == t2[t1.len() as int]);
    } else if t2.len() < t1.len() {
        assert(y[t2.len() as int] == '.');
        assert(x[t2.len() as int] == t1[t2.len() as int]);
    }
    assert(t1 =~= x.take(t1.len() as int));
    assert(t2 =~= y.take(t2.len() as int));
    assert(a1 =~= x.skip(t1.len() as int + 1));
    assert(a2 =~= y.skip(t2.len() as int + 1));
}

/// The full action ids of the tasks are the texts `task.action` of their
/// actions, position by position.
proof fn lemma_all_action_ids_at(tasks: Seq<Task>, x: Seq<char>)
    ensures
        all_action_ids(tasks).contains(x) ==> exists|i: int, k: int| 0 <= i < tasks.len() && 0 <= k < tasks[i].task.actions@.len()
            && x == tasks[i].task.id@ + "."@ + tasks[i].task.actions@[k].action.id@,
    decreases tasks.len(),
{
    if tasks.len() > 0 {
        let d = tasks.drop_last();
        lemma_all_action_ids_at(d, x);
        let f = full_action_ids(tasks.last().task);
        let all = all_action_ids(tasks);
        if all.contains(x) {
            let p = choose|p: int| 0 <= p < all.len() && all[p] == x;
            if p < all_action_ids(d).len() {
                assert(all[p] == all_action_ids(d)[p]);
                let (i, k) = choose|i: int, k: int| 0 <= i < d.len() && 0 <= k < d[i].task.actions@.len()
                    && x == d[i].task.id@ + "."@ + d[i].task.actions@[k].action.id@;
                assert(d[i] == tasks[i]);
            } else {
                let k = p - all_action_ids(d).len();
                assert(all[p] == f[k]);
                assert(tasks[tasks.len() - 1] == tasks.last());
            }
        }
    }
}

/// With dot-free, distinct task ids and distinct action ids within each
/// task, the full action ids are all distinct.
proof fn lemma_action_ids_distinct(tasks: Seq<Task>)
    requires
        forall|i: int| 0 <= i < tasks.len() ==> dot_free(#[trigger] tasks[i].task.id@),
        forall|i: int, j: int| 0 <= i < j < tasks.len() ==> #[trigger] tasks[i].task.id@ != #[trigger] tasks[j].task.id@,
        forall|i: int, a: int, b: int| 0 <= i < tasks.len() && 0 <= a < b < tasks[i].task.actions@.len()
            ==> #[trigger] tasks[i].task.actions@[a].action.id@ != #[trigger] tasks[i].task.actions@[b].action.id@,
    ensures
        forall|p: int, q: int| 0 <= p < q < all_action_ids(tasks).len() ==> all_action_ids(tasks)[p] != all_action_ids(tasks)[q],
    decreases tasks.len(),
{
    if tasks.len() > 0 {
        let d = tasks.drop_last();
        let last = tasks.last();
        assert(tasks[tasks.len() - 1] == last);
        assert forall|i: int, j: int| 0 <= i < j < d.len() implies #[trigger] d[i].task.id@ != #[trigger] d[j].task.id@ by {
            assert(d[i] == tasks[i] && d[j] == tasks[j]);
        }
        assert forall|i: int| 0 <= i < d.len() implies dot_free(#[trigger] d[i].task.id@) by {
            assert(d[i] == tasks[i]);
        }
        assert forall|i: int, a: int, b: int| 0 <= i < d.len() && 0 <= a < b < d[i].task.actions@.len()
            implies #[trigger] d[i].task.actions@[a].action.id@ != #[trigger] d[i].task.actions@[b].action.id@ by {
            assert(d[i] == tasks[i]);
        }
        lemma_action_ids_distinct(d);
        let ad = all_action_ids(d);
        let f = full_action_ids(last.task);
        let all = all_action_ids(tasks);
        assert(all == ad + f);
        assert forall|p: int, q: int| 0 <= p < q < all.len() implies all[p] != all[q] by {
            if q < ad.len() {
                assert(all[p] == ad[p] && all[q] == ad[q]);
            } else if p >= ad.len() {
                let a = p - ad.len();
                let b = q - ad.len();
                assert(all[p] == f[a] && all[q] == f[b]);
                if f[a] == f[b] {
                    lemma_dotted_pair(last.task.id@, last.task.actions@[a].action.id@, last.task.id@, last.task.actions@[b].action.id@);
                    assert(tasks[tasks.len() - 1].task.actions@[a].action.id@ != tasks[tasks.len() - 1].task.actions@[b].action.id@);
                }
            } else {
                let b = q - ad.len();
                assert(all[p] == ad[p] && all[q] == f[b]);
                if ad[p] == f[b] {
                    assert(ad.contains(ad[p]));
                    lemma_all_action_ids_at(d, ad[p]);
                    let (i, k) = choose|i: int, k: int| 0 <= i < d.len() && 0 <= k < d[i].task.actions@.len()
                        && ad[p] == d[i].task.id@ + "."@ + d[i].task.actions@[k].action.id@;
                    assert(d[i] == tasks[i]);
                    assert(dot_free(tasks[i].task.id@));
                    lemma_dotted_pair(d[i].task.id@, d[i].task.actions@[k].action.id@, last.task.id@, last.task.actions@[b].action.id@);
                    assert(tasks[i].task.id@ != tasks[tasks.len() - 1].task.id@);
                }
            }
        }
    }
}

/// A task that lists an action id twice repeats a full action id.
proof fn lemma_repeated_action(tasks: Seq<Task>, i: int, a: int, b: int)
    requires
        0 <= i < tasks.len(),
        0 <= a < b < tasks[i].task.actions@.len(),
        tasks[i].task.actions@[a].action.id@ == tasks[i].task.actions@[b].action.id@,
    ensures
        first_dup(all_action_ids(tasks)) >= 0,
    decreases tasks.len(),
{
    let d = tasks.drop_last();
    let all = all_action_ids(tasks);
    let ad = all_action_ids(d);
    assert(all == ad + full_action_ids(tasks.last().task));
    lemma_first_dup(all);
    if i < tasks.len() - 1 {
        assert(d[i] == tasks[i]);
        lemma_repeated_action(d, i, a, b);
        lemma_first_dup(ad);
        let q = first_dup(ad);
        let p = choose|p: int| 0 <= p < q && ad.take(q)[p] == ad[q];
        assert(all[p] == ad[p] && all[q] == ad[q]);
    } else {
        let f = full_action_ids(tasks.last().task);
        assert(tasks.last() == tasks[i]);
        assert(all[ad.len() + a] == f[a] && all[ad.len() + b] == f[b]);
    }
}

/// Validation accepts a configuration with a version, at least one task,
/// distinct task ids (none holding a `.`) and, within each task, distinct
/// action ids: the same action id may stand in different tasks. A task that
/// lists one action id twice is refused, with a duplicate action error.
pub proof fn law_action_ids_unique_per_task(w: Workflow, i: int, a: int, b: int)
    requires
        w.version@.len() > 0,
        w.tasks@.len() > 0,
        forall|x: int, y: int| 0 <= x < y < w.tasks@.len() ==> #[trigger] w.tasks@[x].task.id@ != #[trigger] w.tasks@[y].task.id@,
        forall|x: int| 0 <= x < w.tasks@.len() ==> dot_free(#[trigger] w.tasks@[x].task.id@),
    ensures
        (forall|x: int, p: int, q: int| 0 <= x < w.tasks@.len() && 0 <= p < q < w.tasks@[x].task.actions@.len()
            ==> #[trigger] w.tasks@[x].task.actions@[p].action.id@ != #[trigger] w.tasks@[x].task.actions@[q].action.id@)
            ==> validation(w) == Ok::<(), Seq<char>>(()),
        0 <= i < w.tasks@.len() && 0 <= a < b < w.tasks@[i].task.actions@.len()
            && w.tasks@[i].task.actions@[a].action.id@ == w.tasks@[i].task.actions@[b].action.id@
            ==> (validation(w) matches Err(e) && e.take(21) == "Duplicate action ID: "@),
{
    let ts = w.tasks@;
    lemma_first_dup(task_ids(ts));
    if first_dup(task_ids(ts)) >= 0 {
        let q = first_dup(task_ids(ts));
        let p = choose|p: int| 0 <= p < q && task_ids(ts).take(q)[p] == task_ids(ts)[q];
        assert(ts[p].task.id@ == ts[q].task.id@);
    }
    lemma_first_dup(all_action_ids(ts));
    if forall|x: int, p: int, q: int| 0 <= x < ts.len() && 0 <= p < q < ts[x].task.actions@.len()
        ==> #[trigger] ts[x].task.actions@[p].action.id@ != #[trigger] ts[x].task.actions@[q].action.id@ {
        lemma_action_ids_distinct(ts);
    }
    if 0 <= i < ts.len() && 0 <= a < b < ts[i].task.actions@.len()
        && ts[i].task.actions@[a].action.id@ == ts[i].task.actions@[b].action.id@ {
        lemma_repeated_action(ts, i, a, b);
        reveal_strlit("Duplicate action ID: ");
        let all = all_action_ids(ts);
        let e = "Duplicate action ID: "@ + all[first_dup(all)];
        assert(e.take(21) =~= "Duplicate action ID: "@);
    }
}


/// Validation refuses a configuration without a version, one without
/// tasks, and one where two tasks share an id (with a duplicate task error).
pub proof fn law_validation_refusals(w: Workflow, i: int, j: int)
    ensures
        w.version@.len() == 0 ==> validation(w) == Err::<(), Seq<char>>("Workflow version cannot be empty"@),
        w.version@.len() > 0 && w.tasks@.len() == 0 ==> validation(w) == Err::<(), Seq<char>>("Workflow must contain at least one task"@),
        w.version@.len() > 0 && 0 <= i < j < w.tasks@.len() && w.tasks@[i].task.id@ == w.tasks@[j].task.id@
            ==> (validation(w) matches Err(e) && e.take(19) == "Duplicate task ID: "@),
{
    if w.version@.len() > 0 && 0 <= i < j < w.tasks@.len() && w.tasks@[i].task.id@ == w.tasks@[j].task.id@ {
        let ids = task_ids(w.tasks@);
        lemma_first_dup(ids);
        assert(ids[i] == ids[j]);
        reveal_strlit("Duplicate task ID: ");
        let e = "Duplicate task ID: "@ + ids[first_dup(ids)];
        assert(e.take(19) =~= "Duplicate task ID: "@);
    }
}

/// Whether `x` is among the texts.
fn seen(v: &Vec<String>, x: &String) -> (r: bool)
    ensures
        r == crate::context::views_of(v@).contains(x@),
{
    let mut i: usize = 0;
    while i < v.len()
        invariant
            i <= v@.len(),
            forall|k: int| 0 <= k < i ==> v@[k]@ != x@,
        decreases v@.len() - i,
    {
        if v[i] == *x {
            proof {
                assert(crate::context::views_of(v@)[i as int] == x@);
            }
            return true;
        }
        i = i + 1;
    }
    false
}

/// Finds the first text that occurred before, scanning in order.
fn find_dup(ids: &Vec<String>) -> (r: Option<usize>)
    ensures
        match r {
            Some(j) => j as int == first_dup(crate::context::views_of(ids@)) && j < ids@.len(),
            None => first_dup(crate::context::views_of(ids@)) < 0,
        },
{
    let ghost s = crate::context::views_of(ids@);
    let mut earlier: Vec<String> = Vec::new();
    let mut j: usize = 0;
    while j < ids.len()
        invariant
            j <= ids@.len(),
            s == crate::context::views_of(ids@),
            crate::context::views_of(earlier@) == s.take(j as int),
            first_dup(s.take(j as int)) < 0,
        decreases ids@.len() - j,
    {
        proof {
            assert(s.take(j as int + 1).drop_last() =~= s.take(j as int));
            assert(s.take(j as int + 1).last() == ids@[j as int]@);
        }
        if seen(&earlier, &ids[j]) {
            proof {
                lemma_prefix_dup(s, j as int);
            }
            return Some(j);
        }
        earlier.push(ids[j].clone());
        proof {
            assert(crate::context::views_of(earlier@) =~= s.take(j as int + 1));
        }
        j = j + 1;
    }
    proof {
        assert(s.take(j as int) =~= s);
    }
    None
}

/// A duplicate found at the end of a prefix is the first one of the whole.
proof fn lemma_prefix_dup(s: Seq<Seq<char>>, j: int)
    requires
        0 <= j < s.len(),
        first_dup(s.take(j)) < 0,
        s.take(j).contains(s[j]),
    ensures
        first_dup(s) == j,
    decreases s.len(),
{
    if j < s.len() - 1 {
        assert(s.drop_last().take(j) =~= s.take(j));
        assert(s.drop_last()[j] == s[j]);
        lemma_prefix_dup(s.drop_last(), j);
        assert(first_dup(s.drop_last()) >= 0);
    } else {
        assert(s.drop_last() =~= s.take(j));
        assert(s.last() == s[j]);
    }
}

pub struct WorkflowLoader;

impl WorkflowLoader {
    /// Checks a configuration: a version, at least one task, task ids that
    /// do not repeat, and `task.action` ids that do not repeat; the error
    /// names the first repeat.
    pub fn validate(config: &WorkflowConfig) -> (r: Result<(), String>)
        ensures
            match r {
                Ok(()) => validation(config.workflow) == Ok::<(), Seq<char>>(()),
                Err(e) => validation(config.workflow) == Err::<(), Seq<char>>(e@),
            },
    {
        let w = &config.workflow;
        if w.version.unicode_len() == 0 {
            return Err("Workflow version cannot be empty".to_string());
        }
        if w.tasks.len() == 0 {
            return Err("Workflow must contain at least one task".to_string());
        }
        let mut ids: Vec<String> = Vec::new();
        let mut i: usize = 0;
        while i < w.tasks.len()
            invariant
                i <= w.tasks@.len(),
                ids@.len() == i,
                forall|k: int| 0 <= k < i ==> (#[trigger] ids@[k])@ == w.tasks@[k].task.id@,
            decreases w.tasks@.len() - i,
        {
            ids.push(w.tasks[i].task.id.clone());
            i = i + 1;
        }
        proof {
            assert(crate::context::views_of(ids@) =~= task_ids(w.tasks@));
        }
        match find_dup(&ids) {
            Some(j) => {
                let mut msg = "Duplicate task ID: ".to_string();
                msg.append(ids[j].as_str());
                return Err(msg);
            },
            None => {},
        }
        let mut full: Vec<String> = Vec::new();
        let mut i: usize = 0;
        proof {
            assert(crate::context::views_of(full@) =~= all_action_ids(w.tasks@.take(0)));
        }
        while i < w.tasks.len()
            invariant
                i <= w.tasks@.len(),
                crate::context::views_of(full@) == all_action_ids(w.tasks@.take(i as int)),
            decreases w.tasks@.len() - i,
        {
            let t = &w.tasks[i].task;
            let ghost before = full@;
            let mut k: usize = 0;
            while k < t.actions.len()
                invariant
                    k <= t.actions@.len(),
                    full@.len() == before.len() + k,
                    forall|m: int| 0 <= m < before.len() ==> #[trigger] full@[m] == before[m],
                    forall|m: int| 0 <= m < k ==> (#[trigger] full@[before.len() + m])@ == full_action_ids(*t)[m],
                decreases t.actions@.len() - k,
            {
                let mut id = t.id.clone();
                id.append(".");
                id.append(t.actions[k].action.id.as_str());
                full.push(id);
                k = k + 1;
            }
            proof {
                assert(crate::context::views_of(full@) =~= crate::context::views_of(before) + full_action_ids(*t)) by {
                    assert forall|m: int| 0 <= m < full@.len() implies #[trigger] crate::context::views_of(full@)[m]
                        == (crate::context::views_of(before) + full_action_ids(*t))[m] by {
                        if m >= before.len() {
                            assert(full@[before.len() + (m - before.len())] == full@[m]);
                        }
                    }
                }
                assert(w.tasks@.take(i as int + 1).drop_last() =~= w.tasks@.take(i as int));
                assert(w.tasks@.take(i as int + 1).last() == w.tasks@[i as int]);
            }
            i = i + 1;
        }
        proof {
            assert(w.tasks@.take(w.tasks@.len() as int) =~= w.tasks@);
        }
        match find_dup(&full) {
            Some(j) => {
                let mut msg = "Duplicate action ID: ".to_string();
                msg.append(full[j].as_str());
                Err(msg)
            },
            None => Ok(()),
        }
    }
}

impl WorkflowLoader {
    /// An executor for a configuration, as `DynamicFlowExecutor::new` makes
    /// it.
    pub fn create_runtime_executor(config: WorkflowConfig) -> (r: Result<crate::dynamic::DynamicFlowExecutor, crate::dynamic::DynamicFlowError>)
        ensures
            match r {
                Ok(x) => crate::dynamic::config_valid(config.workflow) && x.workflow() == config.workflow,
                Err(crate::dynamic::DynamicFlowError::InvalidConfig(e)) => !crate::dynamic::config_valid(config.workflow)
                    && e@ == crate::config_parser::parser_validation_error(config.workflow.tasks@),
                Err(_) => false,
            },
    {
        crate::dynamic::DynamicFlowExecutor::new(config)
    }
}

} // verus!
