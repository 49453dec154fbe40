//! Scheduling tasks by priority or arrival: queues, task states, counts,
//! and whether a task may start. Running a task's work, waiting and the
//! scheduling loop happen outside; they hand back what happened.

use vstd::prelude::*;
use std::time::{Duration, Instant};
use crate::strmap::StrMap;
use crate::context::views_of;
use crate::ids::{duration_from_secs, earlier_than, instant_before, instant_now, new_uuid_string, span_of_secs, zero_duration};

verus! {

/// How urgent a task is, from low to critical.
#[derive(Debug, Clone, Copy, PartialEq, Eq, Structural, PartialOrd, Ord, Hash)]
pub enum Priority {
    Low,
    Normal,
    High,
    Critical,
}

/// The rank of a priority: 1 for low up to 4 for critical.
pub open spec fn rank(p: Priority) -> int {
    match p {
        Priority::Low => 1,
        Priority::Normal => 2,
        Priority::High => 3,
        Priority::Critical => 4,
    }
}

impl Default for Priority {
    fn default() -> (r: Self)
        ensures
            r == Priority::Normal,
    {
        Priority::Normal
    }
}

impl Priority {
    /// The rank of the priority: 1 for low up to 4 for critical.
    pub fn value(&self) -> (r: u8)
        ensures
            r == rank(*self),
    {
        match self {
            Priority::Low => 1,
            Priority::Normal => 2,
            Priority::High => 3,
            Priority::Critical => 4,
        }
    }
}

/// The order in which queued tasks are handed out.
#[derive(Debug, Clone, Copy, PartialEq, Eq, Structural)]
pub enum SchedulingStrategy {
    FirstInFirstOut,
    Priority,
    RoundRobin,
    ShortestJobFirst,
}

/// Where a task stands.
#[derive(Debug, Clone, Copy, PartialEq, Eq, Structural)]
pub enum TaskStatus {
    Pending,
    Running,
    Completed,
    Failed,
    Cancelled,
}

/// A task to schedule; its work is kept outside under the task's id.
#[derive(Debug)]
pub struct ScheduledTask {
    pub id: String,
    pub name: String,
    pub description: Option<String>,
    pub priority: Priority,
    pub estimated_duration: Option<Duration>,
    pub created_at: Instant,
    pub started_at: Option<Instant>,
    pub completed_at: Option<Instant>,
    pub status: TaskStatus,
    pub dependencies: Vec<String>,
    pub metadata: StrMap<String>,
}

impl ScheduledTask {
    /// A pending task with a fresh id, no dependencies and no metadata.
    pub fn new(name: String, priority: Priority) -> (r: Self)
        ensures
            r.id@.len() == 36,
            r.name == name,
            r.description is None,
            r.priority == priority,
            r.estimated_duration is None,
            r.started_at is None,
            r.completed_at is None,
            r.status == TaskStatus::Pending,
            r.dependencies@.len() == 0,
            r.metadata@ == Map::<Seq<char>, String>::empty(),
    {
        ScheduledTask {
            id: new_uuid_string(),
            name,
            description: None,
            priority,
            estimated_duration: None,
            created_at: instant_now(),
            started_at: None,
            completed_at: None,
            status: TaskStatus::Pending,
            dependencies: Vec::new(),
            metadata: StrMap::new(),
        }
    }
}

/// Settings of the scheduler.
#[derive(Debug, Clone, Copy)]
pub struct SchedulerConfig {
    pub max_concurrent_tasks: usize,
    pub strategy: SchedulingStrategy,
    pub task_timeout: Option<Duration>,
    pub max_retries: u32,
    pub retry_delay: Duration,
    pub enable_dependency_check: bool,
}

impl Default for SchedulerConfig {
    fn default() -> (r: Self)
        ensures
            r.max_concurrent_tasks == 10,
            r.strategy == SchedulingStrategy::Priority,
            r.task_timeout == Some(span_of_secs(300)),
            r.max_retries == 3,
            r.retry_delay == span_of_secs(1),
            r.enable_dependency_check,
    {
        SchedulerConfig {
            max_concurrent_tasks: 10,
            strategy: SchedulingStrategy::Priority,
            task_timeout: Some(duration_from_secs(300)),
            max_retries: 3,
            retry_delay: duration_from_secs(1),
            enable_dependency_check: true,
        }
    }
}

/// Counts of the scheduler.
#[derive(Debug, Clone, Copy)]
pub struct SchedulerStats {
    pub pending_tasks: usize,
    pub running_tasks: usize,
    pub completed_tasks: usize,
    pub failed_tasks: usize,
    pub total_scheduled: usize,
    pub avg_execution_time: Duration,
    pub max_wait_time: Duration,
}

impl Default for SchedulerStats {
    fn default() -> (r: Self)
        ensures
            r.pending_tasks == 0,
            r.running_tasks == 0,
            r.completed_tasks == 0,
            r.failed_tasks == 0,
            r.total_scheduled == 0,
    {
        SchedulerStats {
            pending_tasks: 0,
            running_tasks: 0,
            completed_tasks: 0,
            failed_tasks: 0,
            total_scheduled: 0,
            avg_execution_time: zero_duration(),
            max_wait_time: zero_duration(),
        }
    }
}

/// The counts of a scheduler's statistics, in field order.
pub open spec fn stat_counts(s: SchedulerStats) -> (usize, usize, usize, usize, usize) {
    (s.pending_tasks, s.running_tasks, s.completed_tasks, s.failed_tasks, s.total_scheduled)
}

/// Every dependency is known and completed.
pub open spec fn dependencies_done(states: Map<Seq<char>, TaskStatus>, deps: Seq<Seq<char>>) -> bool {
    forall|k: int| 0 <= k < deps.len() ==> states.contains_key(#[trigger] deps[k]) && states[deps[k]] == TaskStatus::Completed
}

/// The position of the task that the priority queue hands out, found by a
/// scan of its first `i` tasks from the front: the scan keeps the task it
/// holds unless the next one has a higher priority, or the same priority
/// and an earlier creation time.
pub open spec fn urgent_pick(q: Seq<ScheduledTask>, i: int) -> int
    decreases i,
{
    if i <= 1 {
        0
    } else {
        let p = urgent_pick(q, i - 1);
        let t = q[i - 1];
        if rank(t.priority) > rank(q[p].priority)
            || (rank(t.priority) == rank(q[p].priority) && instant_before(t.created_at, q[p].created_at)) {
            i - 1
        } else {
            p
        }
    }
}

/// A task of the highest priority in a queue: its position.
pub open spec fn is_most_urgent(q: Seq<ScheduledTask>, j: int) -> bool {
    &&& 0 <= j < q.len()
    &&& forall|k: int| 0 <= k < q.len() ==> rank(#[trigger] q[k].priority) <= rank(q[j].priority)
}

/// Schedules tasks: hands them out by arrival or by priority and keeps
/// their states and counts.
pub struct TaskScheduler {
    config: SchedulerConfig,
    task_queue: Vec<ScheduledTask>,
    fifo_queue: Vec<ScheduledTask>,
    task_status: StrMap<TaskStatus>,
    running: usize,
    stats: SchedulerStats,
    is_running: bool,
}

impl TaskScheduler {
    pub closed spec fn settings(self) -> SchedulerConfig {
        self.config
    }

    /// The tasks waiting to be handed out by priority.
    pub closed spec fn priority_queue(self) -> Seq<ScheduledTask> {
        self.task_queue@
    }

    /// The tasks waiting to be handed out by arrival.
    pub closed spec fn arrival_queue(self) -> Seq<ScheduledTask> {
        self.fifo_queue@
    }

    /// The state of every submitted task.
    pub closed spec fn states(self) -> Map<Seq<char>, TaskStatus> {
        self.task_status@
    }

    /// How many tasks hold a slot now.
    pub closed spec fn in_use(self) -> nat {
        self.running as nat
    }

    pub closed spec fn counts(self) -> (usize, usize, usize, usize, usize) {
        stat_counts(self.stats)
    }

    pub closed spec fn started(self) -> bool {
        self.is_running
    }

    /// A scheduler with the given settings and nothing queued.
    pub fn new(config: SchedulerConfig) -> (r: Self)
        ensures
            r.settings() == config,
            r.priority_queue().len() == 0,
            r.arrival_queue().len() == 0,
            r.states() == Map::<Seq<char>, TaskStatus>::empty(),
            r.in_use() == 0,
            r.counts() == (0usize, 0usize, 0usize, 0usize, 0usize),
            !r.started(),
    {
        TaskScheduler {
            config,
            task_queue: Vec::new(),
            fifo_queue: Vec::new(),
            task_status: StrMap::new(),
            running: 0,
            stats: SchedulerStats::default(),
            is_running: false,
        }
    }

    /// A scheduler with the default settings.
    pub fn with_default_config() -> (r: Self)
        ensures
            r.settings().max_concurrent_tasks == 10,
            r.settings().strategy == SchedulingStrategy::Priority,
            r.settings().enable_dependency_check,
            r.priority_queue().len() == 0,
            r.arrival_queue().len() == 0,
            r.states() == Map::<Seq<char>, TaskStatus>::empty(),
            r.in_use() == 0,
            r.counts() == (0usize, 0usize, 0usize, 0usize, 0usize),
            !r.started(),
    {
        Self::new(SchedulerConfig::default())
    }

    /// Queues a task: by arrival under first-in-first-out, by priority
    /// otherwise. Records its state and counts it as pending and scheduled.
    pub fn submit_task(&mut self, task: ScheduledTask) -> (r: String)
        requires
            old(self).counts().0 < usize::MAX,
            old(self).counts().4 < usize::MAX,
        ensures
            r == task.id,
            final(self).states() == old(self).states().insert(task.id@, task.status),
            old(self).settings().strategy == SchedulingStrategy::FirstInFirstOut ==> {
                &&& final(self).arrival_queue() == old(self).arrival_queue().push(task)
                &&& final(self).priority_queue() == old(self).priority_queue()
            },
            old(self).settings().strategy != SchedulingStrategy::FirstInFirstOut ==> {
                &&& final(self).priority_queue() == old(self).priority_queue().push(task)
                &&& final(self).arrival_queue() == old(self).arrival_queue()
            },
            final(self).counts() == ((old(self).counts().0 + 1) as usize, old(self).counts().1, old(self).counts().2,
                old(self).counts().3, (old(self).counts().4 + 1) as usize),
            final(self).settings() == old(self).settings(),
            final(self).in_use() == old(self).in_use(),
            final(self).started() == old(self).started(),
    {
        let id = task.id.clone();
        self.stats.pending_tasks = self.stats.pending_tasks + 1;
        self.stats.total_scheduled = self.stats.total_scheduled + 1;
        self.task_status.insert(task.id.clone(), task.status);
        match self.config.strategy {
            SchedulingStrategy::FirstInFirstOut => self.fifo_queue.push(task),
            _ => self.task_queue.push(task),
        }
        id
    }

    /// The state of a task, if it was submitted.
    pub fn get_task_status(&self, task_id: &str) -> (r: Option<TaskStatus>)
        ensures
            r == (if self.states().contains_key(task_id@) { Some(self.states()[task_id@]) } else { None }),
    {
        match self.task_status.get(task_id) {
            Some(s) => Some(*s),
            None => None,
        }
    }

    /// The settings.
    pub fn config(&self) -> (r: SchedulerConfig)
        ensures
            r == self.settings(),
    {
        self.config
    }

    /// How many tasks hold a slot now.
    pub fn slots_in_use(&self) -> (r: usize)
        ensures
            r == self.in_use(),
    {
        self.running
    }

    /// The statistics.
    pub fn get_stats(&self) -> (r: SchedulerStats)
        ensures
            stat_counts(r) == self.counts(),
    {
        self.stats
    }

    /// Takes the next task off its queue: the earliest under
    /// first-in-first-out; otherwise one of the highest priority, the
    /// earliest created among equals.
    pub fn get_next_task(&mut self) -> (r: Option<ScheduledTask>)
        ensures
            old(self).settings().strategy == SchedulingStrategy::FirstInFirstOut ==> {
                &&& final(self).priority_queue() == old(self).priority_queue()
                &&& if old(self).arrival_queue().len() == 0 {
                    r is None && final(self).arrival_queue() == old(self).arrival_queue()
                } else {
                    r == Some(old(self).arrival_queue()[0])
                        && final(self).arrival_queue() == old(self).arrival_queue().drop_first()
                }
            },
            old(self).settings().strategy != SchedulingStrategy::FirstInFirstOut ==> {
                &&& final(self).arrival_queue() == old(self).arrival_queue()
                &&& if old(self).priority_queue().len() == 0 {
                    r is None && final(self).priority_queue() == old(self).priority_queue()
                } else {
                    let j = urgent_pick(old(self).priority_queue(), old(self).priority_queue().len() as int);
                    &&& is_most_urgent(old(self).priority_queue(), j)
                    &&& r == Some(old(self).priority_queue()[j])
                    &&& final(self).priority_queue() == old(self).priority_queue().remove(j)
                }
            },
            final(self).states() == old(self).states(),
            final(self).counts() == old(self).counts(),
            final(self).settings() == old(self).settings(),
            final(self).in_use() == old(self).in_use(),
            final(self).started() == old(self).started(),
    {
        match self.config.strategy {
            SchedulingStrategy::FirstInFirstOut => {
                if self.fifo_queue.len() == 0 {
                    None
                } else {
                    Some(self.fifo_queue.remove(0))
                }
            },
            _ => {
                let n = self.task_queue.len();
                if n == 0 {
                    return None;
                }
                let mut best: usize = 0;
                let mut i: usize = 1;
                while i < n
                    invariant
                        n == self.task_queue@.len(),
                        1 <= i <= n,
                        best < i,
                        best as int == urgent_pick(self.task_queue@, i as int),
                        forall|k: int| 0 <= k < i ==> rank(#[trigger] self.task_queue@[k].priority) <= rank(self.task_queue@[best as int].priority),
                    decreases n - i,
                {
                    let pi = self.task_queue[i].priority.value();
                    let pb = self.task_queue[best].priority.value();
                    if pi > pb || (pi == pb && earlier_than(&self.task_queue[i].created_at, &self.task_queue[best].created_at)) {
                        best = i;
                    }
                    i = i + 1;
                }
                let ghost q = self.task_queue@;
                let t = self.task_queue.remove(best);
                proof {
                    assert(is_most_urgent(q, best as int));
                }
                Some(t)
            },
        }
    }

    fn check_dependencies(&self, dependencies: &Vec<String>) -> (r: bool)
        ensures
            r == dependencies_done(self.states(), views_of(dependencies@)),
    {
        let mut k: usize = 0;
        while k < dependencies.len()
            invariant
                k <= dependencies@.len(),
                forall|m: int| 0 <= m < k ==> self.states().contains_key(#[trigger] dependencies@[m]@)
                    && self.states()[dependencies@[m]@] == TaskStatus::Completed,
            decreases dependencies@.len() - k,
        {
            match self.task_status.get(dependencies[k].as_str()) {
                Some(TaskStatus::Completed) => {},
                _ => {
                    proof {
                        assert(views_of(dependencies@)[k as int] == dependencies@[k as int]@);
                    }
                    return false;
                },
            }
            k = k + 1;
        }
        proof {
            assert forall|m: int| 0 <= m < views_of(dependencies@).len() implies self.states().contains_key(#[trigger] views_of(dependencies@)[m])
                && self.states()[views_of(dependencies@)[m]] == TaskStatus::Completed by {
                assert(views_of(dependencies@)[m] == dependencies@[m]@);
            }
        }
        true
    }

    /// Whether a task may start now: its dependencies are completed (when
    /// that is checked) and a slot is free.
    pub fn can_schedule_task(&self, task: &ScheduledTask) -> (r: bool)
        ensures
            r == ((!self.settings().enable_dependency_check || dependencies_done(self.states(), views_of(task.dependencies@)))
                && self.in_use() < self.settings().max_concurrent_tasks),
    {
        if self.config.enable_dependency_check && !self.check_dependencies(&task.dependencies) {
            return false;
        }
        self.running < self.config.max_concurrent_tasks
    }

    /// Starts a task: it takes a slot, counts as running and no longer as
    /// pending.
    pub fn begin_task(&mut self, task: &mut ScheduledTask)
        requires
            old(self).in_use() < old(self).settings().max_concurrent_tasks,
            old(self).counts().1 < usize::MAX,
        ensures
            final(task).status == TaskStatus::Running,
            final(task).started_at is Some,
            final(task).id == old(task).id,
            final(task).priority == old(task).priority,
            final(task).dependencies == old(task).dependencies,
            final(self).states() == old(self).states().insert(old(task).id@, TaskStatus::Running),
            final(self).in_use() == old(self).in_use() + 1,
            final(self).counts() == ((if old(self).counts().0 > 0 { old(self).counts().0 - 1 } else { 0 }) as usize,
                (old(self).counts().1 + 1) as usize, old(self).counts().2, old(self).counts().3, old(self).counts().4),
            final(self).priority_queue() == old(self).priority_queue(),
            final(self).arrival_queue() == old(self).arrival_queue(),
            final(self).settings() == old(self).settings(),
            final(self).started() == old(self).started(),
    {
        task.status = TaskStatus::Running;
        task.started_at = Some(instant_now());
        self.running = self.running + 1;
        self.task_status.insert(task.id.clone(), TaskStatus::Running);
        self.stats.pending_tasks = if self.stats.pending_tasks > 0 { self.stats.pending_tasks - 1 } else { 0 };
        self.stats.running_tasks = self.stats.running_tasks + 1;
    }

    /// Ends a started task with the outcome of its work: completed when it
    /// succeeded, failed otherwise; its slot is freed.
    pub fn finish_task(&mut self, task: &mut ScheduledTask, succeeded: bool)
        requires
            old(self).in_use() > 0,
            succeeded ==> old(self).counts().2 < usize::MAX,
            !succeeded ==> old(self).counts().3 < usize::MAX,
        ensures
            final(task).status == (if succeeded { TaskStatus::Completed } else { TaskStatus::Failed }),
            final(task).completed_at is Some,
            final(task).id == old(task).id,
            final(task).priority == old(task).priority,
            final(task).dependencies == old(task).dependencies,
            final(self).states() == old(self).states().insert(old(task).id@, final(task).status),
            final(self).in_use() == old(self).in_use() - 1,
            final(self).counts() == (old(self).counts().0,
                (if old(self).counts().1 > 0 { old(self).counts().1 - 1 } else { 0 }) as usize,
                (if succeeded { old(self).counts().2 + 1 } else { old(self).counts().2 as int }) as usize,
                (if succeeded { old(self).counts().3 as int } else { old(self).counts().3 + 1 }) as usize,
                old(self).counts().4),
            final(self).priority_queue() == old(self).priority_queue(),
            final(self).arrival_queue() == old(self).arrival_queue(),
            final(self).settings() == old(self).settings(),
            final(self).started() == old(self).started(),
    {
        let status = if succeeded { TaskStatus::Completed } else { TaskStatus::Failed };
        task.status = status;
        task.completed_at = Some(instant_now());
        self.task_status.insert(task.id.clone(), status);
        self.running = self.running - 1;
        self.stats.running_tasks = if self.stats.running_tasks > 0 { self.stats.running_tasks - 1 } else { 0 };
        if succeeded {
            self.stats.completed_tasks = self.stats.completed_tasks + 1;
        } else {
            self.stats.failed_tasks = self.stats.failed_tasks + 1;
        }
    }

    /// Clears finished tasks; states are already up to date, so nothing
    /// changes.
    pub fn cleanup_completed_tasks(&mut self)
        ensures
            *final(self) == *old(self),
    {
    }

    /// Marks the scheduler as running; an error if it already is.
    pub fn start(&mut self) -> (r: Result<(), String>)
        ensures
            r is Ok <==> !old(self).started(),
            r matches Err(e) ==> e@ == "调度器已在运行"@ && *final(self) == *old(self),
            final(self).started(),
            final(self).priority_queue() == old(self).priority_queue(),
            final(self).arrival_queue() == old(self).arrival_queue(),
            final(self).states() == old(self).states(),
            final(self).counts() == old(self).counts(),
    {
        if self.is_running {
            return Err("调度器已在运行".to_string());
        }
        self.is_running = true;
        Ok(())
    }

    /// Whether the scheduler is marked as running.
    pub fn is_started(&self) -> (r: bool)
        ensures
            r == self.started(),
    {
        self.is_running
    }

    /// Marks the scheduler as stopped.
    pub fn stop(&mut self)
        ensures
            !final(self).started(),
            final(self).priority_queue() == old(self).priority_queue(),
            final(self).arrival_queue() == old(self).arrival_queue(),
            final(self).states() == old(self).states(),
            final(self).counts() == old(self).counts(),
    {
        self.is_running = false;
    }
}

/// Under first-in-first-out, tasks leave in the order they arrived: two
/// tasks queued on an empty queue are taken back first the one, then the
/// other, and the queue is empty again.
pub proof fn law_fifo_order(
    s0: TaskScheduler,
    s1: TaskScheduler,
    s2: TaskScheduler,
    s3: TaskScheduler,
    s4: TaskScheduler,
    a: ScheduledTask,
    b: ScheduledTask,
    first: Option<ScheduledTask>,
    second: Option<ScheduledTask>,
)
    requires
        s0.arrival_queue().len() == 0,
        s1.arrival_queue() == s0.arrival_queue().push(a),
        s2.arrival_queue() == s1.arrival_queue().push(b),
        first == Some(s2.arrival_queue()[0]),
        s3.arrival_queue() == s2.arrival_queue().drop_first(),
        second == Some(s3.arrival_queue()[0]),
        s4.arrival_queue() == s3.arrival_queue().drop_first(),
    ensures
        first == Some(a),
        second == Some(b),
        s4.arrival_queue().len() == 0,
{
    assert(s2.arrival_queue()[0] == a);
    assert(s3.arrival_queue()[0] == b);
}

/// Tasks leave the priority queue in order of priority: the task handed out
/// after another never has a higher priority.
pub proof fn law_priority_order(q: Seq<ScheduledTask>, first: int, second: int)
    requires
        is_most_urgent(q, first),
        is_most_urgent(q.remove(first), second),
    ensures
        rank(q.remove(first)[second].priority) <= rank(q[first].priority),
{
    let rest = q.remove(first);
    let k = if second < first { second } else { second + 1 };
    assert(rest[second] == q[k]);
}

} // verus!
