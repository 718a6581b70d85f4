use vstd::prelude::*;
use crate::daemon::task_handler::{
    Effect, HandlerView, TaskHandler, is_running, lemma_is_running_update, lemma_start_keeps_wf,
};
use crate::message::{Rejection, TaskReply};
use crate::state::{
    StateView, has_free_slot, has_group, has_task, lemma_running_in_push,
    lemma_running_in_remove, lemma_running_in_update, lemma_task_pos, running_in, task_pos,
};
use crate::task::{Task, TaskStatus, TaskView};

verus! {

/// A request that is carried out task by task.
#[derive(Clone, Copy, Debug, PartialEq, Eq, Structural)]
pub enum TaskCommand {
    /// Take the task out of the table.
    Remove,
    /// Hold the queued task back from scheduling.
    Stash,
    /// Hand the stashed task back to the scheduler.
    Enqueue,
    /// Start the waiting task at once, whatever is paused.
    Start,
    /// Hold the queued task, or ask the process of the running task to stop.
    Pause,
    /// Queue the finished task again as a new task; with `true`, start the
    /// new task at once where the scheduler would.
    Restart(bool),
}

/// What one request did for one task.
pub struct Step {
    pub handler: HandlerView,
    pub rejection: Option<Rejection>,
    pub effect: Option<Effect>,
}

/// What one request did for a list of tasks.
pub struct Batch {
    pub handler: HandlerView,
    pub replies: Seq<TaskReply>,
    pub effects: Seq<Effect>,
}

impl HandlerView {
    /// The request is turned down and nothing changes.
    pub open spec fn refuse(self, rejection: Rejection) -> Step {
        Step { handler: self, rejection: Some(rejection), effect: None }
    }

    /// The request is carried out and leaves this handler.
    pub open spec fn accept(self, effect: Option<Effect>) -> Step {
        Step { handler: self, rejection: None, effect }
    }

    /// This handler with the task at position `i` replaced.
    pub open spec fn with_task(self, i: int, task: TaskView) -> HandlerView {
        self.with_state(self.state.with_tasks(self.state.tasks.update(i, task)))
    }

    /// This handler without the task at position `i`.
    pub open spec fn without_task(self, i: int) -> HandlerView {
        self.with_state(self.state.with_tasks(self.state.tasks.remove(i)))
    }

    /// This handler with `task` appended to the table and the next id consumed.
    pub open spec fn with_new_task(self, task: TaskView) -> HandlerView {
        self.with_state(
            StateView {
                tasks: self.state.tasks.push(task),
                next_id: (self.state.next_id + 1) as usize,
                ..self.state
            },
        )
    }

    /// Removing a task: refused for an unknown id and for a running task.
    pub open spec fn remove_task(self, id: usize) -> Step {
        let i = task_pos(self.state.tasks, id);
        if !has_task(self.state.tasks, id) {
            self.refuse(Rejection::NoSuchTask)
        } else if self.state.tasks[i].status == TaskStatus::Running {
            self.refuse(Rejection::InState(TaskStatus::Running))
        } else {
            self.without_task(i).accept(None)
        }
    }

    /// Stashing a task: only a queued task can be stashed.
    pub open spec fn stash_task(self, id: usize) -> Step {
        let i = task_pos(self.state.tasks, id);
        if !has_task(self.state.tasks, id) {
            self.refuse(Rejection::NoSuchTask)
        } else if self.state.tasks[i].status != TaskStatus::Queued {
            self.refuse(Rejection::InState(self.state.tasks[i].status))
        } else {
            self.with_task(i, self.state.tasks[i].with_status(TaskStatus::Stashed)).accept(None)
        }
    }

    /// Enqueueing a task: only a stashed task can be enqueued.
    pub open spec fn enqueue_task(self, id: usize) -> Step {
        let i = task_pos(self.state.tasks, id);
        if !has_task(self.state.tasks, id) {
            self.refuse(Rejection::NoSuchTask)
        } else if self.state.tasks[i].status != TaskStatus::Stashed {
            self.refuse(Rejection::InState(self.state.tasks[i].status))
        } else {
            self.with_task(i, self.state.tasks[i].with_status(TaskStatus::Queued)).accept(None)
        }
    }

    /// Pausing a task: a queued task is held; the process of a running task
    /// is asked to stop and the task stays running until it is reaped.
    pub open spec fn pause_task(self, id: usize) -> Step {
        let i = task_pos(self.state.tasks, id);
        if !has_task(self.state.tasks, id) {
            self.refuse(Rejection::NoSuchTask)
        } else if self.state.tasks[i].status == TaskStatus::Queued {
            self.with_task(i, self.state.tasks[i].with_status(TaskStatus::Paused)).accept(None)
        } else if self.state.tasks[i].status == TaskStatus::Running {
            self.accept(Some(Effect::Kill(id)))
        } else {
            self.refuse(Rejection::InState(self.state.tasks[i].status))
        }
    }

    /// Starting a task by its id: a queued or paused task starts at once,
    /// whatever is paused, unless a reset is in progress or its group is full.
    pub open spec fn force_start(self, id: usize, now: i64) -> Step {
        let i = task_pos(self.state.tasks, id);
        if !has_task(self.state.tasks, id) {
            self.refuse(Rejection::NoSuchTask)
        } else if self.state.tasks[i].status != TaskStatus::Queued && self.state.tasks[i].status
            != TaskStatus::Paused {
            self.refuse(Rejection::InState(self.state.tasks[i].status))
        } else if self.full_reset {
            self.refuse(Rejection::Resetting)
        } else if !has_free_slot(self.state.tasks, self.state.groups, self.state.tasks[i].group) {
            self.refuse(Rejection::GroupFull)
        } else {
            self.start_at(i, now).accept(Some(Effect::Spawn(id)))
        }
    }

    /// Whether a task that joins `group` now is started at once on request.
    pub open spec fn starts_at_once(self, group: Seq<char>, start_immediately: bool) -> bool {
        start_immediately && !self.full_reset && self.state.may_schedule(group)
    }

    /// Entering a new task: it receives the next id and is queued, or, where
    /// that was asked for and the scheduler could start it, runs at once.
    pub open spec fn submit(
        self,
        command: Seq<char>,
        arguments: Seq<Seq<char>>,
        path: Seq<char>,
        group: Seq<char>,
        start_immediately: bool,
        now: i64,
    ) -> Step {
        let task = TaskView::queued(self.state.next_id, command, arguments, path, group);
        let entered = self.with_new_task(task);
        if self.starts_at_once(group, start_immediately) {
            entered.start_at(self.state.tasks.len() as int, now).accept(Some(Effect::Spawn(task.id)))
        } else {
            entered.accept(None)
        }
    }

    /// Restarting a task: a finished task is entered again as a new task with
    /// the same command, arguments, path and group.
    pub open spec fn restart_task(self, id: usize, start_immediately: bool, now: i64) -> Step {
        let i = task_pos(self.state.tasks, id);
        let task = self.state.tasks[i];
        if !has_task(self.state.tasks, id) {
            self.refuse(Rejection::NoSuchTask)
        } else if task.status != TaskStatus::Done {
            self.refuse(Rejection::InState(task.status))
        } else if self.full_reset {
            self.refuse(Rejection::Resetting)
        } else if self.state.next_id == usize::MAX {
            self.refuse(Rejection::OutOfIds)
        } else {
            self.submit(task.command, task.arguments, task.path, task.group, start_immediately, now)
        }
    }

    /// What `command` does for the task `id`.
    pub open spec fn apply(self, command: TaskCommand, id: usize, now: i64) -> Step {
        match command {
            TaskCommand::Remove => self.remove_task(id),
            TaskCommand::Stash => self.stash_task(id),
            TaskCommand::Enqueue => self.enqueue_task(id),
            TaskCommand::Start => self.force_start(id, now),
            TaskCommand::Pause => self.pause_task(id),
            TaskCommand::Restart(start_immediately) => self.restart_task(id, start_immediately, now),
        }
    }

    /// What `command` does for the id that a request names: an id that can
    /// name no task, being negative, is answered like an id that names none.
    pub open spec fn apply_named(self, command: TaskCommand, id: i32, now: i64) -> Step {
        if id < 0 {
            self.refuse(Rejection::NoSuchTask)
        } else {
            self.apply(command, id as usize, now)
        }
    }

    /// What `command` does for the tasks `ids`, taken in order.
    pub open spec fn apply_each(self, command: TaskCommand, ids: Seq<i32>, now: i64) -> Batch
        decreases ids.len(),
    {
        if ids.len() == 0 {
            Batch { handler: self, replies: Seq::empty(), effects: Seq::empty() }
        } else {
            let done = self.apply_each(command, ids.drop_last(), now);
            let step = done.handler.apply_named(command, ids.last(), now);
            Batch {
                handler: step.handler,
                replies: done.replies.push(TaskReply { task_id: ids.last(), rejection: step.rejection }),
                effects: match step.effect {
                    Some(effect) => done.effects.push(effect),
                    None => done.effects,
                },
            }
        }
    }
}

/// A task appended to the table runs exactly if it is itself running.
pub proof fn lemma_is_running_push(tasks: Seq<TaskView>, t: TaskView)
    ensures
        forall|id: usize| #[trigger]
            is_running(tasks.push(t), id) <==> is_running(tasks, id) || (t.id == id && t.status
                == TaskStatus::Running),
{
    let after = tasks.push(t);
    assert forall|id: usize| #[trigger]
        is_running(after, id) <==> is_running(tasks, id) || (t.id == id && t.status
            == TaskStatus::Running) by {
        if is_running(after, id) {
            let j = choose|j: int|
                0 <= j < after.len() && (#[trigger] after[j]).id == id && after[j].status
                    == TaskStatus::Running;
            if j < tasks.len() {
                assert(tasks[j].id == id && tasks[j].status == TaskStatus::Running);
            }
        }
        if is_running(tasks, id) {
            let j = choose|j: int|
                0 <= j < tasks.len() && (#[trigger] tasks[j]).id == id && tasks[j].status
                    == TaskStatus::Running;
            assert(after[j].id == id && after[j].status == TaskStatus::Running);
        }
        if t.id == id && t.status == TaskStatus::Running {
            assert(after[tasks.len() as int].id == id);
        }
    }
}

/// Taking a task that does not run out of the table changes nothing about
/// which ids run.
pub proof fn lemma_is_running_remove(tasks: Seq<TaskView>, i: int)
    requires
        0 <= i < tasks.len(),
        tasks[i].status != TaskStatus::Running,
    ensures
        forall|id: usize| #[trigger] is_running(tasks.remove(i), id) <==> is_running(tasks, id),
{
    let after = tasks.remove(i);
    assert forall|id: usize| #[trigger] is_running(after, id) <==> is_running(tasks, id) by {
        if is_running(after, id) {
            let j = choose|j: int|
                0 <= j < after.len() && (#[trigger] after[j]).id == id && after[j].status
                    == TaskStatus::Running;
            let j0 = if j < i { j } else { j + 1 };
            assert(tasks[j0].id == id && tasks[j0].status == TaskStatus::Running);
        }
        if is_running(tasks, id) {
            let j0 = choose|j: int|
                0 <= j < tasks.len() && (#[trigger] tasks[j]).id == id && tasks[j].status
                    == TaskStatus::Running;
            let j = if j0 < i { j0 } else { j0 - 1 };
            assert(after[j].id == id && after[j].status == TaskStatus::Running);
        }
    }
}

/// Moving a task between states in which it neither runs nor is done keeps
/// the invariant.
pub proof fn lemma_set_status_keeps_wf(h: HandlerView, i: int, status: TaskStatus)
    requires
        h.wf(),
        0 <= i < h.state.tasks.len(),
        h.state.tasks[i].status != TaskStatus::Running,
        h.state.tasks[i].status != TaskStatus::Done,
        status != TaskStatus::Running,
        status != TaskStatus::Done,
    ensures
        h.with_task(i, h.state.tasks[i].with_status(status)).wf(),
{
    let tasks = h.state.tasks;
    let t = tasks[i].with_status(status);
    let after = h.with_task(i, t);
    lemma_is_running_update(tasks, i, t);
    assert(!is_running(tasks, t.id)) by {
        if is_running(tasks, t.id) {
            let j = choose|j: int|
                0 <= j < tasks.len() && (#[trigger] tasks[j]).id == t.id && tasks[j].status
                    == TaskStatus::Running;
            lemma_task_pos(tasks, j);
            lemma_task_pos(tasks, i);
        }
    }
    assert forall|j: int| 0 <= j < after.state.tasks.len() implies {
        &&& (#[trigger] after.state.tasks[j]).id < after.state.next_id
        &&& after.state.tasks[j].result_matches_status()
        &&& has_group(after.state.groups, after.state.tasks[j].group)
    } by {
        if j != i {
            assert(after.state.tasks[j] == tasks[j]);
        }
    }
    assert forall|g: int| 0 <= g < h.state.groups.len() implies running_in(
        after.state.tasks,
        (#[trigger] h.state.groups[g]).name,
    ) <= h.state.groups[g].parallel_limit by {
        lemma_running_in_update(tasks, i, t, h.state.groups[g].name);
    }
}

/// Taking a task that does not run out of the table keeps the invariant,
/// and its id is gone from the table.
pub proof fn lemma_remove_keeps_wf(h: HandlerView, i: int)
    requires
        h.wf(),
        0 <= i < h.state.tasks.len(),
        h.state.tasks[i].status != TaskStatus::Running,
    ensures
        h.without_task(i).wf(),
        !has_task(h.without_task(i).state.tasks, h.state.tasks[i].id),
{
    let tasks = h.state.tasks;
    let after = h.without_task(i);
    lemma_is_running_remove(tasks, i);
    assert forall|j: int| 0 <= j < after.state.tasks.len() implies (#[trigger] after.state.tasks[j])
        == tasks[if j < i { j } else { j + 1 }] by {}
    assert forall|a: int, b: int| 0 <= a < b < after.state.tasks.len() implies (
    #[trigger] after.state.tasks[a]).id < (#[trigger] after.state.tasks[b]).id by {
        let a0 = if a < i { a } else { a + 1 };
        let b0 = if b < i { b } else { b + 1 };
        assert(tasks[a0].id < tasks[b0].id);
    }
    assert forall|j: int| 0 <= j < after.state.tasks.len() implies {
        &&& (#[trigger] after.state.tasks[j]).id < after.state.next_id
        &&& after.state.tasks[j].result_matches_status()
        &&& has_group(after.state.groups, after.state.tasks[j].group)
        &&& after.state.tasks[j].id != tasks[i].id
    } by {
        let j0 = if j < i { j } else { j + 1 };
        assert(after.state.tasks[j] == tasks[j0]);
        if j0 < i {
            assert(tasks[j0].id < tasks[i].id);
        } else {
            assert(tasks[i].id < tasks[j0].id);
        }
    }
    assert forall|g: int| 0 <= g < h.state.groups.len() implies running_in(
        after.state.tasks,
        (#[trigger] h.state.groups[g]).name,
    ) <= h.state.groups[g].parallel_limit by {
        lemma_running_in_remove(tasks, i, h.state.groups[g].name);
    }
}

/// Appending a queued task under the next id keeps the invariant and
/// changes no group's number of running tasks.
pub proof fn lemma_enter_keeps_wf(h: HandlerView, task: TaskView)
    requires
        h.wf(),
        h.state.next_id < usize::MAX,
        task.id == h.state.next_id,
        task.status == TaskStatus::Queued,
        task.result is None,
        has_group(h.state.groups, task.group),
    ensures
        h.with_new_task(task).wf(),
        forall|group: Seq<char>| #[trigger]
            running_in(h.with_new_task(task).state.tasks, group) == running_in(h.state.tasks, group),
{
    let tasks = h.state.tasks;
    let after = h.with_new_task(task);
    lemma_is_running_push(tasks, task);
    assert forall|group: Seq<char>| #[trigger]
        running_in(after.state.tasks, group) == running_in(tasks, group) by {
        lemma_running_in_push(tasks, task, group);
    }
    assert forall|j: int| 0 <= j < after.state.tasks.len() implies {
        &&& (#[trigger] after.state.tasks[j]).id < after.state.next_id
        &&& after.state.tasks[j].result_matches_status()
        &&& has_group(after.state.groups, after.state.tasks[j].group)
    } by {
        if j < tasks.len() {
            assert(after.state.tasks[j] == tasks[j]);
        }
    }
    assert forall|a: int, b: int| 0 <= a < b < after.state.tasks.len() implies (
    #[trigger] after.state.tasks[a]).id < (#[trigger] after.state.tasks[b]).id by {
        assert(after.state.tasks[a] == tasks[a]);
        if b < tasks.len() {
            assert(after.state.tasks[b] == tasks[b]);
        }
    }
}

/// Entering a new task keeps the invariant.
pub proof fn lemma_submit_keeps_wf(
    h: HandlerView,
    command: Seq<char>,
    arguments: Seq<Seq<char>>,
    path: Seq<char>,
    group: Seq<char>,
    start_immediately: bool,
    now: i64,
)
    requires
        h.wf(),
        h.state.next_id < usize::MAX,
        has_group(h.state.groups, group),
    ensures
        h.submit(command, arguments, path, group, start_immediately, now).handler.wf(),
{
    let task = TaskView::queued(h.state.next_id, command, arguments, path, group);
    lemma_enter_keeps_wf(h, task);
    if h.starts_at_once(group, start_immediately) {
        let entered = h.with_new_task(task);
        assert(running_in(entered.state.tasks, group) == running_in(h.state.tasks, group));
        lemma_start_keeps_wf(entered, h.state.tasks.len() as int, now);
    }
}

/// Every request for one task keeps the invariant.
pub proof fn lemma_apply_keeps_wf(h: HandlerView, command: TaskCommand, id: usize, now: i64)
    requires
        h.wf(),
    ensures
        h.apply(command, id, now).handler.wf(),
{
    if has_task(h.state.tasks, id) {
        let i = task_pos(h.state.tasks, id);
        let task = h.state.tasks[i];
        match command {
            TaskCommand::Remove => {
                if task.status != TaskStatus::Running {
                    lemma_remove_keeps_wf(h, i);
                }
            },
            TaskCommand::Stash => {
                if task.status == TaskStatus::Queued {
                    lemma_set_status_keeps_wf(h, i, TaskStatus::Stashed);
                }
            },
            TaskCommand::Enqueue => {
                if task.status == TaskStatus::Stashed {
                    lemma_set_status_keeps_wf(h, i, TaskStatus::Queued);
                }
            },
            TaskCommand::Pause => {
                if task.status == TaskStatus::Queued {
                    lemma_set_status_keeps_wf(h, i, TaskStatus::Paused);
                }
            },
            TaskCommand::Start => {
                if (task.status == TaskStatus::Queued || task.status == TaskStatus::Paused)
                    && has_free_slot(h.state.tasks, h.state.groups, task.group) {
                    lemma_start_keeps_wf(h, i, now);
                }
            },
            TaskCommand::Restart(start_immediately) => {
                if h.state.next_id < usize::MAX {
                    lemma_submit_keeps_wf(
                        h,
                        task.command,
                        task.arguments,
                        task.path,
                        task.group,
                        start_immediately,
                        now,
                    );
                }
            },
        }
    }
}

/// Every request for a list of tasks keeps the invariant.
pub proof fn lemma_apply_each_keeps_wf(h: HandlerView, command: TaskCommand, ids: Seq<i32>, now: i64)
    requires
        h.wf(),
    ensures
        h.apply_each(command, ids, now).handler.wf(),
    decreases ids.len(),
{
    if ids.len() > 0 {
        lemma_apply_each_keeps_wf(h, command, ids.drop_last(), now);
        if ids.last() >= 0 {
            lemma_apply_keeps_wf(
                h.apply_each(command, ids.drop_last(), now).handler,
                command,
                ids.last() as usize,
                now,
            );
        }
    }
}

impl TaskHandler {
    /// Gives the task at position `i`, which neither runs nor is done,
    /// another such status.
    fn set_status(&mut self, i: usize, status: TaskStatus)
        requires
            old(self).wf(),
            i < old(self).state.tasks.len(),
            old(self)@.state.tasks[i as int].status != TaskStatus::Running,
            old(self)@.state.tasks[i as int].status != TaskStatus::Done,
            status != TaskStatus::Running,
            status != TaskStatus::Done,
        ensures
            final(self).wf(),
            final(self)@ == old(self)@.with_task(i as int, old(self)@.state.tasks[i as int].with_status(status)),
    {
        let ghost before = self@;
        proof {
            lemma_set_status_keeps_wf(before, i as int, status);
        }
        self.state.tasks[i].status = status;
        proof {
            assert(self@.state.tasks =~= before.state.tasks.update(
                i as int,
                before.state.tasks[i as int].with_status(status),
            ));
        }
    }

    /// Removes a task from the table, unless it is running.
    pub fn remove_task(&mut self, id: usize) -> (rejection: Option<Rejection>)
        requires
            old(self).wf(),
        ensures
            final(self).wf(),
            final(self)@ == old(self)@.remove_task(id).handler,
            rejection == old(self)@.remove_task(id).rejection,
    {
        match self.state.find_task(id) {
            None => Some(Rejection::NoSuchTask),
            Some(i) => {
                let ghost before = self@;
                proof {
                    lemma_task_pos(before.state.tasks, i as int);
                }
                if self.state.tasks[i].status == TaskStatus::Running {
                    return Some(Rejection::InState(TaskStatus::Running));
                }
                proof {
                    lemma_remove_keeps_wf(before, i as int);
                }
                self.state.tasks.remove(i);
                proof {
                    assert(self@.state.tasks =~= before.state.tasks.remove(i as int));
                }
                None
            },
        }
    }

    /// Stashes a queued task.
    pub fn stash_task(&mut self, id: usize) -> (rejection: Option<Rejection>)
        requires
            old(self).wf(),
        ensures
            final(self).wf(),
            final(self)@ == old(self)@.stash_task(id).handler,
            rejection == old(self)@.stash_task(id).rejection,
    {
        match self.state.find_task(id) {
            None => Some(Rejection::NoSuchTask),
            Some(i) => {
                proof {
                    lemma_task_pos(self@.state.tasks, i as int);
                }
                let status = self.state.tasks[i].status;
                if status != TaskStatus::Queued {
                    return Some(Rejection::InState(status));
                }
                self.set_status(i, TaskStatus::Stashed);
                None
            },
        }
    }

    /// Enqueues a stashed task.
    pub fn enqueue_task(&mut self, id: usize) -> (rejection: Option<Rejection>)
        requires
            old(self).wf(),
        ensures
            final(self).wf(),
            final(self)@ == old(self)@.enqueue_task(id).handler,
            rejection == old(self)@.enqueue_task(id).rejection,
    {
        match self.state.find_task(id) {
            None => Some(Rejection::NoSuchTask),
            Some(i) => {
                proof {
                    lemma_task_pos(self@.state.tasks, i as int);
                }
                let status = self.state.tasks[i].status;
                if status != TaskStatus::Stashed {
                    return Some(Rejection::InState(status));
                }
                self.set_status(i, TaskStatus::Queued);
                None
            },
        }
    }

    /// Pauses one task: holds it if it is queued, asks for its process to
    /// be stopped if it is running.
    pub fn pause_task(&mut self, id: usize) -> (r: (Option<Rejection>, Option<Effect>))
        requires
            old(self).wf(),
        ensures
            final(self).wf(),
            final(self)@ == old(self)@.pause_task(id).handler,
            r.0 == old(self)@.pause_task(id).rejection,
            r.1 == old(self)@.pause_task(id).effect,
    {
        match self.state.find_task(id) {
            None => (Some(Rejection::NoSuchTask), None),
            Some(i) => {
                proof {
                    lemma_task_pos(self@.state.tasks, i as int);
                }
                match self.state.tasks[i].status {
                    TaskStatus::Queued => {
                        self.set_status(i, TaskStatus::Paused);
                        (None, None)
                    },
                    TaskStatus::Running => (None, Some(Effect::Kill(id))),
                    status => (Some(Rejection::InState(status)), None),
                }
            },
        }
    }

    /// Starts one waiting task at once, whatever is paused.
    pub fn force_start(&mut self, id: usize, now: i64) -> (r: (Option<Rejection>, Option<Effect>))
        requires
            old(self).wf(),
        ensures
            final(self).wf(),
            final(self)@ == old(self)@.force_start(id, now).handler,
            r.0 == old(self)@.force_start(id, now).rejection,
            r.1 == old(self)@.force_start(id, now).effect,
    {
        match self.state.find_task(id) {
            None => (Some(Rejection::NoSuchTask), None),
            Some(i) => {
                proof {
                    lemma_task_pos(self@.state.tasks, i as int);
                }
                let status = self.state.tasks[i].status;
                if status != TaskStatus::Queued && status != TaskStatus::Paused {
                    return (Some(Rejection::InState(status)), None);
                }
                if self.full_reset {
                    return (Some(Rejection::Resetting), None);
                }
                if !self.state.has_free_slot(&self.state.tasks[i].group) {
                    return (Some(Rejection::GroupFull), None);
                }
                self.start_task(i, now);
                (None, Some(Effect::Spawn(id)))
            },
        }
    }

    /// Enters a new task into the table of a handler that has an id left
    /// and knows the group.
    pub fn submit(
        &mut self,
        command: String,
        arguments: Vec<String>,
        path: String,
        group: String,
        start_immediately: bool,
        now: i64,
    ) -> (effect: Option<Effect>)
        requires
            old(self).wf(),
            old(self)@.state.next_id < usize::MAX,
            has_group(old(self)@.state.groups, group@),
        ensures
            final(self).wf(),
            final(self)@ == old(self)@.submit(
                command@,
                arguments.deep_view(),
                path@,
                group@,
                start_immediately,
                now,
            ).handler,
            effect == old(self)@.submit(
                command@,
                arguments.deep_view(),
                path@,
                group@,
                start_immediately,
                now,
            ).effect,
    {
        let ghost before = self@;
        let at_once = start_immediately && !self.full_reset && self.state.may_schedule(&group);
        let id = self.state.next_id;
        let n = self.state.tasks.len();
        let task = Task::new(id, command, arguments, path, group);
        let ghost entered = task@;
        proof {
            lemma_enter_keeps_wf(before, entered);
        }
        self.state.tasks.push(task);
        self.state.next_id = id + 1;
        proof {
            assert(self@.state.tasks =~= before.state.tasks.push(entered));
            assert(self@ == before.with_new_task(entered));
            assert(running_in(self@.state.tasks, entered.group) == running_in(before.state.tasks, entered.group));
        }
        if at_once {
            self.start_task(n, now);
            Some(Effect::Spawn(id))
        } else {
            None
        }
    }

    /// Restarts one finished task as a new task.
    pub fn restart_task(&mut self, id: usize, start_immediately: bool, now: i64) -> (r: (
        Option<Rejection>,
        Option<Effect>,
    ))
        requires
            old(self).wf(),
        ensures
            final(self).wf(),
            final(self)@ == old(self)@.restart_task(id, start_immediately, now).handler,
            r.0 == old(self)@.restart_task(id, start_immediately, now).rejection,
            r.1 == old(self)@.restart_task(id, start_immediately, now).effect,
    {
        match self.state.find_task(id) {
            None => (Some(Rejection::NoSuchTask), None),
            Some(i) => {
                proof {
                    lemma_task_pos(self@.state.tasks, i as int);
                }
                let status = self.state.tasks[i].status;
                if status != TaskStatus::Done {
                    return (Some(Rejection::InState(status)), None);
                }
                if self.full_reset {
                    return (Some(Rejection::Resetting), None);
                }
                if self.state.next_id == usize::MAX {
                    return (Some(Rejection::OutOfIds), None);
                }
                let task = self.state.tasks[i].clone();
                let effect = self.submit(
                    task.command,
                    task.arguments,
                    task.path,
                    task.group,
                    start_immediately,
                    now,
                );
                (None, effect)
            },
        }
    }

    /// Carries out `command` for the task `id`.
    pub fn apply(&mut self, command: TaskCommand, id: usize, now: i64) -> (r: (
        Option<Rejection>,
        Option<Effect>,
    ))
        requires
            old(self).wf(),
        ensures
            final(self).wf(),
            final(self)@ == old(self)@.apply(command, id, now).handler,
            r.0 == old(self)@.apply(command, id, now).rejection,
            r.1 == old(self)@.apply(command, id, now).effect,
    {
        match command {
            TaskCommand::Remove => (self.remove_task(id), None),
            TaskCommand::Stash => (self.stash_task(id), None),
            TaskCommand::Enqueue => (self.enqueue_task(id), None),
            TaskCommand::Start => self.force_start(id, now),
            TaskCommand::Pause => self.pause_task(id),
            TaskCommand::Restart(start_immediately) => self.restart_task(id, start_immediately, now),
        }
    }

    /// Carries out `command` for the id that a request names.
    pub fn apply_named(&mut self, command: TaskCommand, id: i32, now: i64) -> (r: (
        Option<Rejection>,
        Option<Effect>,
    ))
        requires
            old(self).wf(),
        ensures
            final(self).wf(),
            final(self)@ == old(self)@.apply_named(command, id, now).handler,
            r.0 == old(self)@.apply_named(command, id, now).rejection,
            r.1 == old(self)@.apply_named(command, id, now).effect,
    {
        if id < 0 {
            (Some(Rejection::NoSuchTask), None)
        } else {
            self.apply(command, id as usize, now)
        }
    }

    /// Carries out `command` for each of the tasks `ids`, in order, and
    /// reports what became of each.
    pub fn apply_each(&mut self, command: TaskCommand, ids: &Vec<i32>, now: i64) -> (r: (
        Vec<TaskReply>,
        Vec<Effect>,
    ))
        requires
            old(self).wf(),
        ensures
            final(self).wf(),
            final(self)@ == old(self)@.apply_each(command, ids@, now).handler,
            r.0@ == old(self)@.apply_each(command, ids@, now).replies,
            r.1@ == old(self)@.apply_each(command, ids@, now).effects,
    {
        let mut replies: Vec<TaskReply> = Vec::new();
        let mut effects: Vec<Effect> = Vec::new();
        let mut k: usize = 0;
        while k < ids.len()
            invariant
                k <= ids.len(),
                self.wf(),
                self@ == old(self)@.apply_each(command, ids@.take(k as int), now).handler,
                replies@ == old(self)@.apply_each(command, ids@.take(k as int), now).replies,
                effects@ == old(self)@.apply_each(command, ids@.take(k as int), now).effects,
            decreases ids.len() - k,
        {
            proof {
                let next = ids@.take(k + 1);
                assert(next.drop_last() =~= ids@.take(k as int));
                assert(next.last() == ids@[k as int]);
            }
            let id = ids[k];
            let (rejection, effect) = self.apply_named(command, id, now);
            replies.push(TaskReply { task_id: id, rejection });
            if let Some(e) = effect {
                effects.push(e);
            }
            k += 1;
        }
        proof {
            assert(ids@.take(k as int) =~= ids@);
        }
        (replies, effects)
    }
}

} // verus!
