use vstd::prelude::*;
use crate::state::{
    State, StateView, has_free_slot, has_group, ids_increasing, lemma_group_pos,
    lemma_running_in_update, lemma_task_pos, running_in,
};
use crate::task::{TaskResult, TaskStatus, TaskView};

pub mod add;
pub mod finish_task;
pub mod messages;
pub mod pause;
pub mod reset;
pub mod spawn_task;

verus! {

/// What the latest poll of a child process showed.
#[derive(Clone, Copy, Debug, PartialEq, Eq, Structural)]
pub enum ChildState {
    /// The process has not exited yet.
    Running,
    /// The process has exited, with this code or, after a signal, with none.
    Exited(Option<i32>),
    /// The poll itself failed.
    Errored,
}

impl ChildState {
    /// The result that a task receives for this outcome of its process:
    /// none while the process runs.
    pub open spec fn outcome(self) -> Option<TaskResult> {
        match self {
            ChildState::Running => None,
            ChildState::Exited(Some(code)) => if code == 0 {
                Some(TaskResult::Success)
            } else {
                Some(TaskResult::Failed(code))
            },
            ChildState::Exited(None) => Some(TaskResult::Killed),
            ChildState::Errored => Some(TaskResult::Errored),
        }
    }

    /// The result that a task receives for this outcome of its process.
    pub fn task_result(&self) -> (r: Option<TaskResult>)
        ensures
            r == self.outcome(),
    {
        match self {
            ChildState::Running => None,
            ChildState::Exited(Some(0)) => Some(TaskResult::Success),
            ChildState::Exited(Some(code)) => Some(TaskResult::Failed(*code)),
            ChildState::Exited(None) => Some(TaskResult::Killed),
            ChildState::Errored => Some(TaskResult::Errored),
        }
    }
}

/// The entry of the process map for one running task.
#[derive(Clone, Copy, Debug, PartialEq, Eq, Structural)]
pub struct Child {
    pub task_id: usize,
    pub state: ChildState,
}

/// Something the caller has to do after an operation of the handler.
#[derive(Clone, Copy, Debug, PartialEq, Eq, Structural)]
pub enum Effect {
    /// Spawn the process of the task with the given id.
    Spawn(usize),
    /// Ask the process of the task with the given id to terminate.
    Kill(usize),
    /// Release the process of the finished task with the given id and run the
    /// completion callback for it.
    Callback(usize),
    /// Delete the log files of the task with the given id.
    CleanLogs(usize),
    /// Delete the log files of all tasks.
    ResetLogs,
    /// Write a snapshot of the shared state to durable storage.
    Save,
}

/// Whether the process map holds an entry for the task `id`.
pub open spec fn has_child(children: Seq<Child>, id: usize) -> bool {
    exists|k: int| 0 <= k < children.len() && (#[trigger] children[k]).task_id == id
}

/// The position of the entry for the task `id`, where the process map holds one.
pub open spec fn child_pos(children: Seq<Child>, id: usize) -> int {
    choose|k: int| 0 <= k < children.len() && (#[trigger] children[k]).task_id == id
}

/// The process map is ordered by strictly ascending task id.
pub open spec fn children_increasing(children: Seq<Child>) -> bool {
    forall|k: int, m: int|
        #![trigger children[k], children[m]]
        0 <= k < m < children.len() ==> children[k].task_id < children[m].task_id
}

/// Whether the table holds a running task with this id.
pub open spec fn is_running(tasks: Seq<TaskView>, id: usize) -> bool {
    exists|i: int|
        0 <= i < tasks.len() && (#[trigger] tasks[i]).id == id && tasks[i].status == TaskStatus::Running
}

/// Where an entry for `id` belongs in the ordered process map: behind all
/// entries with a smaller id.
pub open spec fn insert_pos(children: Seq<Child>, id: usize) -> int
    decreases children.len(),
{
    if children.len() == 0 {
        0
    } else if children.last().task_id < id {
        children.len() as int
    } else {
        insert_pos(children.drop_last(), id)
    }
}

/// The process map with a fresh entry for `id`.
pub open spec fn with_child(children: Seq<Child>, id: usize) -> Seq<Child> {
    children.insert(insert_pos(children, id), Child { task_id: id, state: ChildState::Running })
}

/// The mathematical value of a [`TaskHandler`].
pub struct HandlerView {
    pub state: StateView,
    pub children: Seq<Child>,
    pub full_reset: bool,
}

impl HandlerView {
    /// A process handle exists for a task exactly while the task is running.
    pub open spec fn process_map_consistent(self) -> bool {
        forall|id: usize|
            #![trigger has_child(self.children, id)]
            #![trigger is_running(self.state.tasks, id)]
            has_child(self.children, id) <==> is_running(self.state.tasks, id)
    }

    /// The invariant of the handler.
    pub open spec fn wf(self) -> bool {
        &&& self.state.wf()
        &&& children_increasing(self.children)
        &&& self.process_map_consistent()
    }

    /// This handler with another shared state.
    pub open spec fn with_state(self, state: StateView) -> HandlerView {
        HandlerView { state, ..self }
    }

    /// This handler with another process map.
    pub open spec fn with_children(self, children: Seq<Child>) -> HandlerView {
        HandlerView { children, ..self }
    }

    /// The handler after the task at position `i` has been started at `now`.
    pub open spec fn start_at(self, i: int, now: i64) -> HandlerView {
        HandlerView {
            state: self.state.with_tasks(self.state.tasks.update(i, self.state.tasks[i].started(now))),
            children: with_child(self.children, self.state.tasks[i].id),
            ..self
        }
    }

    /// Whether the scheduler starts the task at position `i` now.
    pub open spec fn eligible(self, i: int) -> bool {
        &&& !self.full_reset
        &&& self.state.tasks[i].status == TaskStatus::Queued
        &&& self.state.may_schedule(self.state.tasks[i].group)
    }
}

/// In an ordered process map every entry is found at its own position.
pub proof fn lemma_child_pos(children: Seq<Child>, k: int)
    requires
        children_increasing(children),
        0 <= k < children.len(),
    ensures
        has_child(children, children[k].task_id),
        child_pos(children, children[k].task_id) == k,
{
    let id = children[k].task_id;
    let p = child_pos(children, id);
    assert(0 <= p < children.len() && children[p].task_id == id);
    if p < k {
        assert(children[p].task_id < children[k].task_id);
    } else if k < p {
        assert(children[k].task_id < children[p].task_id);
    }
}

/// The insert position splits an ordered process map around the new id.
pub proof fn lemma_insert_pos(children: Seq<Child>, id: usize)
    requires
        children_increasing(children),
        !has_child(children, id),
    ensures
        0 <= insert_pos(children, id) <= children.len(),
        forall|k: int| 0 <= k < insert_pos(children, id) ==> (#[trigger] children[k]).task_id < id,
        forall|k: int| insert_pos(children, id) <= k < children.len() ==> id < (#[trigger] children[k]).task_id,
    decreases children.len(),
{
    if children.len() > 0 {
        let rest = children.drop_last();
        assert forall|k: int| 0 <= k < rest.len() implies (#[trigger] rest[k]) == children[k] by {}
        assert(!has_child(rest, id)) by {
            if has_child(rest, id) {
                let k = child_pos(rest, id);
                assert(children[k].task_id == id);
            }
        }
        assert(children.last() == children[children.len() - 1]);
        if children.last().task_id < id {
            assert forall|k: int| 0 <= k < children.len() implies (#[trigger] children[k]).task_id < id by {
                if k < children.len() - 1 {
                    assert(children[k].task_id < children[children.len() - 1].task_id);
                }
            }
        } else {
            lemma_insert_pos(rest, id);
            assert(children[children.len() - 1].task_id != id);
            let p = insert_pos(rest, id);
            assert forall|k: int| 0 <= k < p implies (#[trigger] children[k]).task_id < id by {
                assert(rest[k].task_id < id);
            }
            assert forall|k: int| p <= k < children.len() implies id < (#[trigger] children[k]).task_id by {
                if k < rest.len() {
                    assert(id < rest[k].task_id);
                }
            }
        }
    }
}

/// A fresh entry keeps the process map ordered and adds its id alone.
pub proof fn lemma_with_child(children: Seq<Child>, id: usize)
    requires
        children_increasing(children),
        !has_child(children, id),
    ensures
        children_increasing(with_child(children, id)),
        forall|other: usize| #[trigger]
            has_child(with_child(children, id), other) <==> other == id || has_child(children, other),
{
    lemma_insert_pos(children, id);
    let p = insert_pos(children, id);
    let after = with_child(children, id);
    assert(after[p].task_id == id);
    assert forall|k: int, m: int| 0 <= k < m < after.len() implies (#[trigger] after[k]).task_id < (
    #[trigger] after[m]).task_id by {
        if k < p {
            assert(after[k] == children[k]);
        } else if k > p {
            assert(after[k] == children[k - 1]);
        }
        if m < p {
            assert(after[m] == children[m]);
        } else if m > p {
            assert(after[m] == children[m - 1]);
        }
    }
    assert forall|other: usize| #[trigger]
        has_child(after, other) <==> other == id || has_child(children, other) by {
        if has_child(after, other) && other != id {
            let k = child_pos(after, other);
            if k < p {
                assert(children[k].task_id == other);
            } else {
                assert(children[k - 1].task_id == other);
            }
        }
        if has_child(children, other) {
            let k = child_pos(children, other);
            if k < p {
                assert(after[k].task_id == other);
            } else {
                assert(after[k + 1].task_id == other);
            }
        }
    }
}

/// Taking an entry out keeps the process map ordered and drops its id alone.
pub proof fn lemma_without_child(children: Seq<Child>, k: int)
    requires
        children_increasing(children),
        0 <= k < children.len(),
    ensures
        children_increasing(children.remove(k)),
        forall|other: usize| #[trigger]
            has_child(children.remove(k), other) <==> other != children[k].task_id && has_child(
                children,
                other,
            ),
{
    let after = children.remove(k);
    assert forall|a: int, b: int| 0 <= a < b < after.len() implies (#[trigger] after[a]).task_id < (
    #[trigger] after[b]).task_id by {
        let a0 = if a < k { a } else { a + 1 };
        let b0 = if b < k { b } else { b + 1 };
        assert(after[a] == children[a0]);
        assert(after[b] == children[b0]);
    }
    assert forall|other: usize| #[trigger]
        has_child(after, other) <==> other != children[k].task_id && has_child(children, other) by {
        if has_child(after, other) {
            let a = child_pos(after, other);
            let a0 = if a < k { a } else { a + 1 };
            assert(children[a0].task_id == other);
            if a0 < k {
                assert(children[a0].task_id < children[k].task_id);
            } else {
                assert(children[k].task_id < children[a0].task_id);
            }
        }
        if has_child(children, other) && other != children[k].task_id {
            let a0 = child_pos(children, other);
            let a = if a0 < k { a0 } else { a0 - 1 };
            assert(after[a].task_id == other);
        }
    }
}

/// Replacing a task by one of the same id changes which ids run at that id alone.
pub proof fn lemma_is_running_update(tasks: Seq<TaskView>, i: int, t: TaskView)
    requires
        ids_increasing(tasks),
        0 <= i < tasks.len(),
        t.id == tasks[i].id,
    ensures
        ids_increasing(tasks.update(i, t)),
        forall|id: usize| #[trigger]
            is_running(tasks.update(i, t), id) <==> if id == t.id {
                t.status == TaskStatus::Running
            } else {
                is_running(tasks, id)
            },
{
    let after = tasks.update(i, t);
    assert forall|a: int, b: int| 0 <= a < b < after.len() implies (#[trigger] after[a]).id < (
    #[trigger] after[b]).id by {
        assert(after[a].id == tasks[a].id);
        assert(after[b].id == tasks[b].id);
    }
    assert forall|id: usize| #[trigger]
        is_running(after, id) <==> if id == t.id {
            t.status == TaskStatus::Running
        } else {
            is_running(tasks, id)
        } by {
        if is_running(after, id) {
            let j = choose|j: int|
                0 <= j < after.len() && (#[trigger] after[j]).id == id && after[j].status
                    == TaskStatus::Running;
            if j != i {
                assert(tasks[j].id == id && tasks[j].status == TaskStatus::Running);
                if j < i {
                    assert(tasks[j].id < tasks[i].id);
                } else {
                    assert(tasks[i].id < tasks[j].id);
                }
            }
        }
        if id == t.id && t.status == TaskStatus::Running {
            assert(after[i].id == id && after[i].status == TaskStatus::Running);
        }
        if id != t.id && is_running(tasks, id) {
            let j = choose|j: int|
                0 <= j < tasks.len() && (#[trigger] tasks[j]).id == id && tasks[j].status
                    == TaskStatus::Running;
            assert(after[j].id == id && after[j].status == TaskStatus::Running);
        }
    }
}

/// Starting a task that waits, in a group with a free slot, keeps the invariant.
pub proof fn lemma_start_keeps_wf(h: HandlerView, i: int, now: i64)
    requires
        h.wf(),
        0 <= i < h.state.tasks.len(),
        h.state.tasks[i].status != TaskStatus::Running,
        h.state.tasks[i].status != TaskStatus::Done,
        has_free_slot(h.state.tasks, h.state.groups, h.state.tasks[i].group),
    ensures
        h.start_at(i, now).wf(),
{
    let tasks = h.state.tasks;
    let t = tasks[i].started(now);
    let after = h.start_at(i, now);
    lemma_is_running_update(tasks, i, t);
    assert(!has_child(h.children, t.id)) by {
        if is_running(tasks, t.id) {
            let j = choose|j: int|
                0 <= j < tasks.len() && (#[trigger] tasks[j]).id == t.id && tasks[j].status
                    == TaskStatus::Running;
            lemma_task_pos(tasks, j);
            lemma_task_pos(tasks, i);
        }
    }
    lemma_with_child(h.children, t.id);
    assert forall|j: int| 0 <= j < after.state.tasks.len() implies {
        &&& (#[trigger] after.state.tasks[j]).id < after.state.next_id
        &&& after.state.tasks[j].result_matches_status()
        &&& has_group(after.state.groups, after.state.tasks[j].group)
    } by {
        if j != i {
            assert(after.state.tasks[j] == tasks[j]);
        }
    }
    assert forall|g: int| 0 <= g < h.state.groups.len() implies running_in(
        after.state.tasks,
        (#[trigger] h.state.groups[g]).name,
    ) <= h.state.groups[g].parallel_limit by {
        let name = h.state.groups[g].name;
        lemma_running_in_update(tasks, i, t, name);
        if name == t.group {
            lemma_group_pos(h.state.groups, g);
        }
    }
}

/// The task handler: the shared state together with the map of the live
/// child processes.
#[derive(Debug)]
pub struct TaskHandler {
    pub state: State,
    /// One entry for each running task, ordered by ascending task id.
    pub children: Vec<Child>,
    /// Set while a reset waits for the last processes to end.
    pub full_reset: bool,
}

impl View for TaskHandler {
    type V = HandlerView;

    open spec fn view(&self) -> HandlerView {
        HandlerView { state: self.state@, children: self.children@, full_reset: self.full_reset }
    }
}

impl TaskHandler {
    /// The invariant of the handler.
    pub open spec fn wf(&self) -> bool {
        self@.wf()
    }

    /// Creates a handler around a state in which no task runs.
    pub fn new(state: State) -> (h: TaskHandler)
        requires
            state.wf(),
            forall|id: usize| !is_running(state@.tasks, id),
        ensures
            h.wf(),
            h@ == (HandlerView { state: state@, children: Seq::empty(), full_reset: false }),
    {
        TaskHandler { state, children: Vec::new(), full_reset: false }
    }

    /// Looks up the entry of the process map for a task and returns the
    /// first position at which it stands.
    pub fn find_child(&self, id: usize) -> (r: Option<usize>)
        ensures
            r is Some <==> has_child(self@.children, id),
            r matches Some(k) ==> k < self.children.len() && self@.children[k as int].task_id == id
                && forall|j: int| 0 <= j < k ==> (#[trigger] self@.children[j]).task_id != id,
    {
        let mut k: usize = 0;
        while k < self.children.len()
            invariant
                k <= self.children.len(),
                forall|j: int| 0 <= j < k ==> (#[trigger] self@.children[j]).task_id != id,
            decreases self.children.len() - k,
        {
            if self.children[k].task_id == id {
                return Some(k);
            }
            k += 1;
        }
        None
    }

    /// Enters a fresh process for `id` into the process map.
    fn insert_child(&mut self, id: usize)
        requires
            children_increasing(old(self)@.children),
            !has_child(old(self)@.children, id),
        ensures
            final(self)@ == old(self)@.with_children(with_child(old(self)@.children, id)),
    {
        let mut p: usize = self.children.len();
        proof {
            assert(self@.children.take(p as int) =~= self@.children);
        }
        while p > 0 && self.children[p - 1].task_id >= id
            invariant
                p <= self.children.len(),
                self@ == old(self)@,
                insert_pos(self@.children, id) == insert_pos(self@.children.take(p as int), id),
            decreases p,
        {
            proof {
                let prefix = self@.children.take(p as int);
                assert(prefix.drop_last() =~= self@.children.take(p - 1));
                assert(prefix.last() == self@.children[p - 1]);
            }
            p -= 1;
        }
        proof {
            let prefix = self@.children.take(p as int);
            if p > 0 {
                assert(prefix.last() == self@.children[p - 1]);
            }
        }
        self.children.insert(p, Child { task_id: id, state: ChildState::Running });
    }

    /// Starts the task at position `i`: marks it running and enters its
    /// process into the process map.
    pub fn start_task(&mut self, i: usize, now: i64)
        requires
            old(self).wf(),
            i < old(self)@.state.tasks.len(),
            old(self)@.state.tasks[i as int].status != TaskStatus::Running,
            old(self)@.state.tasks[i as int].status != TaskStatus::Done,
            has_free_slot(old(self)@.state.tasks, old(self)@.state.groups, old(self)@.state.tasks[i as int].group),
        ensures
            final(self).wf(),
            final(self)@ == old(self)@.start_at(i as int, now),
    {
        let ghost before = self@;
        let id = self.state.tasks[i].id;
        proof {
            lemma_start_keeps_wf(before, i as int, now);
            assert(!has_child(before.children, id)) by {
                if is_running(before.state.tasks, id) {
                    let j = choose|j: int|
                        0 <= j < before.state.tasks.len() && (#[trigger] before.state.tasks[j]).id == id
                            && before.state.tasks[j].status == TaskStatus::Running;
                    lemma_task_pos(before.state.tasks, j);
                    lemma_task_pos(before.state.tasks, i as int);
                }
            }
        }
        self.state.tasks[i].status = TaskStatus::Running;
        self.state.tasks[i].start = Some(now);
        self.insert_child(id);
        proof {
            assert(self@.state.tasks =~= before.state.tasks.update(i as int, before.state.tasks[i as int].started(now)));
            assert(self@.state.groups == before.state.groups);
        }
    }
}

} // verus!
