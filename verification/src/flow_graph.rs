//! Running registered flows so that each runs after the flows it depends
//! on. A walk takes the flows in the order they were registered and, depth
//! first, the dependencies of each in the order they were added; it names
//! the next flow to run, and stops at a dependency cycle or at a flow that
//! is not registered. Running the flows happens outside.

use vstd::prelude::*;
use crate::strmap::StrMap;
use crate::context::{views_of, copy_strings};
use crate::text::same_text;

verus! {

/// Registered flows, by id, and the dependencies between them.
pub struct FlowOrchestrator {
    flows: StrMap<()>,
    dependencies: StrMap<Vec<String>>,
}

/// The dependencies of a flow, in the order they were added.
pub open spec fn deps_in(deps: StrMap<Vec<String>>, id: Seq<char>) -> Seq<Seq<char>> {
    if deps@.contains_key(id) {
        views_of(deps@[id]@)
    } else {
        Seq::empty()
    }
}

/// What a walk does next.
#[derive(Debug)]
pub enum FlowStep {
    /// Run this flow now; `record` says whether the flow was reached from
    /// the list of registered flows rather than as a dependency, so that its
    /// resulting context is one of the results.
    Run { flow_id: String, record: bool },
    /// The walk moved on without running anything; ask again.
    Continue,
    /// Every registered flow has run.
    Done,
    /// The walk stops with this error.
    Fail(String),
}

impl FlowOrchestrator {
    /// The ids of the registered flows, in the order they were registered.
    pub closed spec fn flow_ids(self) -> Seq<Seq<char>> {
        self.flows.key_seq()
    }

    pub closed spec fn deps(self) -> StrMap<Vec<String>> {
        self.dependencies
    }

    /// No flows and no dependencies.
    pub fn new() -> (r: Self)
        ensures
            r.flow_ids() == Seq::<Seq<char>>::empty(),
            r.deps()@ == Map::<Seq<char>, Vec<String>>::empty(),
    {
        FlowOrchestrator { flows: StrMap::new(), dependencies: StrMap::new() }
    }

    /// Registers a flow under an id; an id registered before keeps its
    /// place.
    pub fn register_flow(&mut self, id: String)
        ensures
            old(self).flow_ids().contains(id@) ==> final(self).flow_ids() == old(self).flow_ids(),
            !old(self).flow_ids().contains(id@) ==> final(self).flow_ids() == old(self).flow_ids().push(id@),
            final(self).deps() == old(self).deps(),
    {
        self.flows.insert(id, ());
    }

    /// Adds a dependency: `flow_id` runs after `depends_on`.
    pub fn add_dependency(&mut self, flow_id: String, depends_on: String)
        ensures
            deps_in(final(self).deps(), flow_id@) == deps_in(old(self).deps(), flow_id@).push(depends_on@),
            forall|k: Seq<char>| k != flow_id@ ==> #[trigger] deps_in(final(self).deps(), k) == deps_in(old(self).deps(), k),
            final(self).flow_ids() == old(self).flow_ids(),
    {
        let mut list = match self.dependencies.get(flow_id.as_str()) {
            Some(v) => copy_strings(v),
            None => Vec::new(),
        };
        let ghost before = views_of(list@);
        list.push(depends_on);
        proof {
            assert(views_of(list@) =~= before.push(list@.last()@));
        }
        self.dependencies.insert(flow_id, list);
    }

    /// Starts a walk over the registered flows.
    pub fn begin_walk(self) -> (w: FlowWalk)
        ensures
            w.order() == self.flow_ids(),
            w.remaining() == self.flow_ids().to_set(),
            w.deps() == self.deps(),
            w.executed() == Set::<Seq<char>>::empty(),
            w.frames() == Seq::<(Seq<char>, nat)>::empty(),
            w.next_top() == 0,
            !w.is_running(),
            w.wf(),
    {
        let es = self.flows.entries();
        let mut order: Vec<String> = Vec::new();
        let mut i: usize = 0;
        while i < es.len()
            invariant
                i <= es@.len(),
                es@.len() == self.flows.key_seq().len(),
                forall|k: int| 0 <= k < es@.len() ==> #[trigger] es@[k].0@ == self.flows.key_seq()[k],
                views_of(order@) == self.flows.key_seq().take(i as int),
            decreases es@.len() - i,
        {
            let ghost before = order@;
            let id = es[i].0.clone();
            proof {
                assert(id@ == self.flows.key_seq()[i as int]);
            }
            order.push(id);
            proof {
                assert(order@ =~= before.push(id));
                assert(views_of(order@) =~= views_of(before).push(id@));
                assert(views_of(order@) =~= self.flows.key_seq().take(i as int + 1));
            }
            i = i + 1;
        }
        proof {
            assert(self.flows.key_seq().take(i as int) =~= self.flows.key_seq());
            assert(self.flows@.dom() =~= self.flows.key_seq().to_set());
        }
        let w = FlowWalk { graph: self, order, executed: StrMap::new(), stack: Vec::new(), top: 0, running: false };
        proof {
            assert(w.frames() =~= Seq::<(Seq<char>, nat)>::empty());
            assert(w.executed() =~= Set::<Seq<char>>::empty());
        }
        w
    }
}

/// A walk over registered flows: the flows not yet run, the flows run, the
/// path of flows whose dependencies are being gone through (with the index
/// of the next dependency of each), and the next registered flow to start
/// from.
pub struct FlowWalk {
    graph: FlowOrchestrator,
    order: Vec<String>,
    executed: StrMap<()>,
    stack: Vec<(String, usize)>,
    top: usize,
    running: bool,
}

/// Whether an id is on the path.
pub open spec fn on_path(frames: Seq<(Seq<char>, nat)>, id: Seq<char>) -> bool {
    exists|i: int| 0 <= i < frames.len() && (#[trigger] frames[i]).0 == id
}

/// The walk after one move: its path, next registered flow, flows not yet
/// handed out and whether one is running.
pub open spec fn moved_to(b: FlowWalk, frames: Seq<(Seq<char>, nat)>, top: int, remaining: Set<Seq<char>>, running: bool) -> bool {
    &&& b.frames() == frames
    &&& b.next_top() == top
    &&& b.remaining() == remaining
    &&& b.is_running() == running
}

/// One move of a walk from `a` to `b` with outcome `r`.
pub open spec fn step_spec(a: FlowWalk, b: FlowWalk, r: FlowStep) -> bool {
    let fs = a.frames();
    let n = fs.len();
    let top = a.next_top() as int;
    if n == 0 {
        if top >= a.order().len() {
            r is Done && moved_to(b, fs, top, a.remaining(), false)
        } else if a.executed().contains(a.order()[top]) {
            r is Continue && moved_to(b, fs, top + 1, a.remaining(), false)
        } else {
            r is Continue && moved_to(b, fs.push((a.order()[top], 0nat)), top, a.remaining(), false)
        }
    } else {
        let id = fs[n - 1].0;
        let k = fs[n - 1].1;
        let ds = deps_in(a.deps(), id);
        if k < ds.len() {
            let d = ds[k as int];
            if a.executed().contains(d) {
                r is Continue && moved_to(b, fs.update(n - 1, (id, (k + 1) as nat)), top, a.remaining(), false)
            } else if on_path(fs, d) {
                (r matches FlowStep::Fail(m) && m@ == "Circular dependency detected for flow: "@ + d)
                    && moved_to(b, fs, top, a.remaining(), false)
            } else {
                r is Continue && moved_to(b, fs.update(n - 1, (id, (k + 1) as nat)).push((d, 0nat)), top, a.remaining(), false)
            }
        } else if a.remaining().contains(id) {
            (r matches FlowStep::Run { flow_id, record } && flow_id@ == id && record == (n == 1))
                && moved_to(b, fs, top, a.remaining().remove(id), true)
        } else {
            (r matches FlowStep::Fail(m) && m@ == "Flow not found: "@ + id)
                && moved_to(b, fs, top, a.remaining(), false)
        }
    }
}

/// A flow is handed out at most once: a move never brings back a flow that
/// was handed out, and a flow it hands out was not handed out before and is
/// not available afterwards.
pub proof fn law_flow_runs_once(a: FlowWalk, b: FlowWalk, r: FlowStep)
    requires
        step_spec(a, b, r),
    ensures
        b.remaining().subset_of(a.remaining()),
        r matches FlowStep::Run { flow_id, .. } ==> a.remaining().contains(flow_id@) && !b.remaining().contains(flow_id@),
{
}

impl FlowWalk {
    /// The registered flows, in the order the walk starts from them.
    pub closed spec fn order(self) -> Seq<Seq<char>> {
        views_of(self.order@)
    }

    pub closed spec fn deps(self) -> StrMap<Vec<String>> {
        self.graph.dependencies
    }

    /// The registered flows that have not been handed out to run.
    pub closed spec fn remaining(self) -> Set<Seq<char>> {
        self.graph.flows@.dom()
    }

    /// The flows that ran.
    pub closed spec fn executed(self) -> Set<Seq<char>> {
        self.executed@.dom()
    }

    /// The path: each flow with the index of its next dependency.
    pub closed spec fn frames(self) -> Seq<(Seq<char>, nat)> {
        self.stack@.map_values(|f: (String, usize)| (f.0@, f.1 as nat))
    }

    /// The index of the next registered flow to start from.
    pub closed spec fn next_top(self) -> nat {
        self.top as nat
    }

    /// Whether a flow was handed out and has not been reported done.
    pub closed spec fn is_running(self) -> bool {
        self.running
    }

    /// The walk's bookkeeping is consistent: on the path, each flow's
    /// dependencies before its next one have run, except the one that leads
    /// to the next flow on the path, which is that flow; a flow handed out
    /// has gone through all its dependencies.
    pub closed spec fn wf(self) -> bool {
        let fs = self.frames();
        let ds = self.graph.dependencies;
        &&& self.top <= self.order@.len()
        &&& fs.len() > 0 ==> self.top < self.order@.len()
        &&& forall|i: int| 0 <= i < fs.len() ==> (#[trigger] fs[i]).1 <= deps_in(ds, fs[i].0).len()
        &&& forall|i: int| 0 <= i < fs.len() - 1 ==> (#[trigger] fs[i]).1 >= 1
            && deps_in(ds, fs[i].0)[fs[i].1 - 1] == fs[i + 1].0
        &&& forall|i: int, j: int| 0 <= i < fs.len() && 0 <= j < fs[i].1 - (if i < fs.len() - 1 { 1int } else { 0int })
            ==> self.executed@.contains_key(#[trigger] deps_in(ds, fs[i].0)[j])
        &&& self.running ==> fs.len() > 0 && fs.last().1 == deps_in(ds, fs.last().0).len()
    }

    /// Whether a flow was handed out and has not been reported done.
    pub fn running(&self) -> (r: bool)
        ensures
            r == self.is_running(),
    {
        self.running
    }

    /// One move of the walk. With no path: done when every registered flow
    /// was started from; a registered flow that already ran is passed over;
    /// else the walk starts from it. On a path, the next dependency of the
    /// last flow is passed over when it ran, refused when it is on the path
    /// (a cycle), else followed; once all of them were gone through, the
    /// flow is handed out to run, or refused when it is not registered
    /// (never registered, or handed out before). A flow handed out has
    /// every one of its dependencies run.
    pub fn step(&mut self) -> (r: FlowStep)
        requires
            old(self).wf(),
            !old(self).is_running(),
        ensures
            final(self).wf(),
            final(self).order() == old(self).order(),
            final(self).deps() == old(self).deps(),
            final(self).executed() == old(self).executed(),
            step_spec(*old(self), *final(self), r),
            r matches FlowStep::Run { flow_id, .. } ==> forall|j: int| 0 <= j < deps_in(old(self).deps(), flow_id@).len()
                ==> old(self).executed().contains(#[trigger] deps_in(old(self).deps(), flow_id@)[j]),
    {
        let n = self.stack.len();
        if n == 0 {
            if self.top >= self.order.len() {
                return FlowStep::Done;
            }
            let start = self.order[self.top].clone();
            if self.executed.contains_key(start.as_str()) {
                self.top = self.top + 1;
                return FlowStep::Continue;
            }
            let ghost fs = self.frames();
            self.stack.push((start, 0));
            proof {
                assert(self.frames() =~= fs.push((start@, 0nat)));
            }
            return FlowStep::Continue;
        }
        let id = self.stack[n - 1].0.clone();
        let k = self.stack[n - 1].1;
        let ghost fs = self.frames();
        proof {
            assert(fs[n - 1] == (id@, k as nat));
        }
        let ds = self.deps_of(&id);
        if k < ds.len() {
            let d = ds[k].clone();
            proof {
                assert(d@ == deps_in(self.deps(), id@)[k as int]);
            }
            if self.executed.contains_key(d.as_str()) {
                self.stack.set(n - 1, (id, k + 1));
                proof {
                    assert(self.frames() =~= fs.update(n - 1, (id@, (k + 1) as nat)));
                }
                return FlowStep::Continue;
            }
            if self.on_stack(&d) {
                let mut msg = "Circular dependency detected for flow: ".to_string();
                msg.append(d.as_str());
                return FlowStep::Fail(msg);
            }
            self.stack.set(n - 1, (id, k + 1));
            self.stack.push((d, 0));
            proof {
                assert(self.frames() =~= fs.update(n - 1, (id@, (k + 1) as nat)).push((d@, 0nat)));
            }
            return FlowStep::Continue;
        }
        let ghost before = self.graph.flows@;
        let removed = self.graph.flows.remove(id.as_str());
        proof {
            assert(self.graph.flows@.dom() =~= before.dom().remove(id@));
            if removed is None {
                assert(self.graph.flows@.dom() =~= before.dom());
            }
        }
        match removed {
            Some(_) => {
                self.running = true;
                FlowStep::Run { flow_id: id, record: n == 1 }
            },
            None => {
                let mut msg = "Flow not found: ".to_string();
                msg.append(id.as_str());
                FlowStep::Fail(msg)
            },
        }
    }

    /// Reports that the flow handed out ran: it counts as run and leaves the
    /// path; when it was started from the registered flows, the walk goes on
    /// with the next of them.
    pub fn completed(&mut self)
        requires
            old(self).wf(),
            old(self).is_running(),
        ensures
            final(self).wf(),
            final(self).order() == old(self).order(),
            final(self).deps() == old(self).deps(),
            final(self).remaining() == old(self).remaining(),
            final(self).executed() == old(self).executed().insert(old(self).frames().last().0),
            final(self).frames() == old(self).frames().drop_last(),
            final(self).next_top() == if old(self).frames().len() == 1 { old(self).next_top() + 1 } else { old(self).next_top() },
            !final(self).is_running(),
    {
        let ghost fs = self.frames();
        let n = self.stack.len();
        proof {
            assert(fs.len() == self.stack@.len());
            assert(self.top < self.order@.len());
        }
        match self.stack.pop() {
            Some((id, _)) => {
                proof {
                    assert(id@ == fs.last().0);
                    assert(self.frames() =~= fs.drop_last());
                }
                self.executed.insert(id, ());
            },
            None => {},
        }
        if n == 1 && self.top < self.order.len() {
            self.top = self.top + 1;
        }
        self.running = false;
    }

    fn on_stack(&self, id: &String) -> (r: bool)
        ensures
            r == on_path(self.frames(), id@),
    {
        let mut i: usize = 0;
        while i < self.stack.len()
            invariant
                i <= self.stack@.len(),
                self.frames().len() == self.stack@.len(),
                forall|k: int| 0 <= k < i ==> (#[trigger] self.frames()[k]).0 != id@,
            decreases self.stack@.len() - i,
        {
            proof {
                assert(self.frames()[i as int].0 == self.stack@[i as int].0@);
            }
            if same_text(&self.stack[i].0, id.as_str()) {
                proof {
                    assert((self.frames()[i as int]).0 == id@);
                }
                return true;
            }
            i = i + 1;
        }
        false
    }

    fn deps_of(&self, id: &String) -> (r: Vec<String>)
        ensures
            views_of(r@) == deps_in(self.deps(), id@),
    {
        match self.graph.dependencies.get(id.as_str()) {
            Some(v) => copy_strings(v),
            None => {
                let v: Vec<String> = Vec::new();
                proof {
                    assert(views_of(v@) =~= Seq::<Seq<char>>::empty());
                }
                v
            },
        }
    }
}

} // verus!
