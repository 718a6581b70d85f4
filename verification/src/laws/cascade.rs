use vstd::prelude::*;
use crate::daemon::task_handler::messages::{
    TaskCommand, lemma_apply_each_keeps_wf, lemma_remove_keeps_wf,
};
use crate::daemon::task_handler::add::group_or_default;
use crate::daemon::task_handler::pause::lemma_start_all_keeps_wf;
use crate::daemon::task_handler::reset::{lemma_without_done, without_done};
use crate::daemon::task_handler::spawn_task::lemma_spawn_upto;
use crate::daemon::task_handler::{HandlerView, has_child, is_running};
use crate::laws::invariants::{Event, law_step_keeps_invariant};
use crate::laws::reaping::law_reaping_pass;
use crate::message::MessageView;
use crate::state::{
    StateView, group_pos, has_group, has_task, lemma_group_pos, lemma_task_pos, task_pos,
};
use crate::task::TaskStatus;

verus! {

impl StateView {
    /// Whether a pause keeps the scheduler from starting tasks of `group`:
    /// the daemon is paused, or the group is.
    pub open spec fn blocks(self, group: Seq<char>) -> bool {
        self.paused || (has_group(self.groups, group) && self.groups[group_pos(self.groups, group)].paused)
    }
}

impl HandlerView {
    /// Whether the table holds the task `id`, the task does not run, and a
    /// pause keeps the scheduler from starting it.
    pub open spec fn holds_back(self, id: usize) -> bool {
        exists|i: int|
            0 <= i < self.state.tasks.len() && (#[trigger] self.state.tasks[i]).id == id
                && self.state.tasks[i].status != TaskStatus::Running && self.state.blocks(
                self.state.tasks[i].group,
            )
    }
}

/// Whether the event is a start request of a client.
pub open spec fn is_start(event: Event) -> bool {
    event matches Event::Request { message, .. } && message is Start
}

/// When the process of a task has failed, the reaping pass pauses the
/// daemon if pause-all is set, and else the group of the task if
/// pause-group is set: either way the scheduler is kept from starting
/// tasks of that group.
pub proof fn law_failure_pauses(h: HandlerView, now: i64, id: usize)
    requires
        h.wf(),
        h.fails(id),
    ensures
        h.state.pause_all_on_failure ==> h.reap(now).state.paused,
        h.pauses_group() ==> has_group(h.reap(now).state.groups, h.group_of(id))
            && h.reap(now).state.groups[group_pos(h.reap(now).state.groups, h.group_of(id))].paused,
        h.state.pause_all_on_failure || h.state.pause_group_on_failure ==> h.reap(now).state.blocks(
            h.group_of(id),
        ),
{
    law_reaping_pass(h, now);
    let r = h.reap(now);
    assert(is_running(h.state.tasks, id));
    let i = choose|i: int|
        0 <= i < h.state.tasks.len() && (#[trigger] h.state.tasks[i]).id == id && h.state.tasks[i].status
            == TaskStatus::Running;
    lemma_task_pos(h.state.tasks, i);
    let group = h.group_of(id);
    assert(has_group(h.state.groups, group));
    let g = group_pos(h.state.groups, group);
    assert(r.state.groups[g] == h.reaped_group(h.state.groups[g]));
    assert(h.failed_in(group));
    lemma_group_pos(r.state.groups, g);
    assert(h.any_failed());
}

/// A reaping pass leaves a group in which no process failed as it was;
/// without pause-all it leaves the pause flag of the daemon as it was, and
/// without pause-group every group.
pub proof fn law_failure_spares_other_groups(h: HandlerView, now: i64, g: int)
    requires
        h.wf(),
        0 <= g < h.state.groups.len(),
    ensures
        h.reap(now).state.groups.len() == h.state.groups.len(),
        !h.failed_in(h.state.groups[g].name) ==> h.reap(now).state.groups[g] == h.state.groups[g],
        !h.pauses_group() ==> h.reap(now).state.groups[g] == h.state.groups[g],
        !h.state.pause_all_on_failure ==> h.reap(now).state.paused == h.state.paused,
{
    law_reaping_pass(h, now);
    assert(h.reap(now).state.groups[g] == h.reaped_group(h.state.groups[g]));
}

/// A reaping pass in which no process failed sets no pause flag: a
/// success and a kill never cascade.
pub proof fn law_no_failure_no_pause(h: HandlerView, now: i64)
    requires
        h.wf(),
        !h.any_failed(),
    ensures
        h.reap(now).state.paused == h.state.paused,
        h.reap(now).state.groups == h.state.groups,
{
    law_reaping_pass(h, now);
    let r = h.reap(now);
    assert forall|g: int| 0 <= g < h.state.groups.len() implies r.state.groups[g] == h.state.groups[g] by {
        assert(r.state.groups[g] == h.reaped_group(h.state.groups[g]));
        if h.failed_in(h.state.groups[g].name) {
            let id = choose|id: usize| #[trigger] h.fails(id) && h.group_of(id) == h.state.groups[g].name;
            assert(h.fails(id));
        }
    }
    assert(r.state.groups =~= h.state.groups);
}

/// What a scheduling pass over the first `n` tasks does to each task: it
/// starts it, and then the task was queued and not kept back by a pause
/// or a reset, or it leaves it as it was.
pub proof fn lemma_spawn_upto_tasks(h: HandlerView, n: int, now: i64)
    requires
        h.wf(),
        0 <= n <= h.state.tasks.len(),
    ensures
        h.spawn_upto(n, now).state.tasks.len() == h.state.tasks.len(),
        h.spawn_upto(n, now).state.groups == h.state.groups,
        h.spawn_upto(n, now).state.paused == h.state.paused,
        forall|i: int|
            0 <= i < h.state.tasks.len() ==> #[trigger] h.spawn_upto(n, now).state.tasks[i]
                == h.state.tasks[i] || (i < n && h.state.tasks[i].status == TaskStatus::Queued
                && !h.full_reset && !h.state.blocks(h.state.tasks[i].group) && h.spawn_upto(
                n,
                now,
            ).state.tasks[i] == h.state.tasks[i].started(now)),
    decreases n,
{
    lemma_spawn_upto(h, n, now);
    let r = h.spawn_upto(n, now);
    assert(r.state.with_tasks(h.state.tasks) == h.state);
    if n > 0 {
        lemma_spawn_upto_tasks(h, n - 1, now);
        lemma_spawn_upto(h, n - 1, now);
        let b = h.spawn_upto(n - 1, now);
        assert(b.state.tasks[n - 1] == h.state.tasks[n - 1]);
        assert forall|i: int| 0 <= i < h.state.tasks.len() implies #[trigger] r.state.tasks[i]
            == h.state.tasks[i] || (i < n && h.state.tasks[i].status == TaskStatus::Queued
            && !h.full_reset && !h.state.blocks(h.state.tasks[i].group) && r.state.tasks[i]
            == h.state.tasks[i].started(now)) by {
            if b.eligible(n - 1) {
                if i != n - 1 {
                    assert(r.state.tasks[i] == b.state.tasks[i]);
                }
            }
        }
    }
}

/// The scheduler starts no task that a pause keeps back: while the daemon
/// or the group of a task is paused, a scheduling pass leaves the task as
/// it is.
pub proof fn law_paused_task_is_not_scheduled(h: HandlerView, now: i64, i: int)
    requires
        h.wf(),
        0 <= i < h.state.tasks.len(),
        h.state.blocks(h.state.tasks[i].group) || h.full_reset,
    ensures
        h.spawn_new(now).state.tasks.len() == h.state.tasks.len(),
        h.spawn_new(now).state.tasks[i] == h.state.tasks[i],
        h.spawn_new(now).state.groups == h.state.groups,
        h.spawn_new(now).state.paused == h.state.paused,
{
    lemma_spawn_upto_tasks(h, h.state.tasks.len() as int, now);
}

/// A new task leaves a task that is kept back as it is.
proof fn lemma_submit_keeps_held(
    h: HandlerView,
    command: Seq<char>,
    arguments: Seq<Seq<char>>,
    path: Seq<char>,
    group: Seq<char>,
    start_immediately: bool,
    now: i64,
    id: usize,
)
    requires
        h.holds_back(id),
    ensures
        h.submit(command, arguments, path, group, start_immediately, now).handler.holds_back(id),
{
    let i = choose|i: int|
        0 <= i < h.state.tasks.len() && (#[trigger] h.state.tasks[i]).id == id && h.state.tasks[i].status
            != TaskStatus::Running && h.state.blocks(h.state.tasks[i].group);
    let r = h.submit(command, arguments, path, group, start_immediately, now).handler;
    assert(r.state.tasks[i] == h.state.tasks[i]);
    assert(r.state.groups == h.state.groups);
}

/// A request for one task, other than a start, leaves a task that is kept
/// back kept back, unless it removes that very task.
proof fn lemma_apply_keeps_held(h: HandlerView, command: TaskCommand, target: usize, now: i64, id: usize)
    requires
        h.wf(),
        command != TaskCommand::Start,
        h.holds_back(id),
    ensures
        h.apply(command, target, now).handler.holds_back(id) || (command == TaskCommand::Remove
            && !has_task(h.apply(command, target, now).handler.state.tasks, id)),
{
    let tasks = h.state.tasks;
    let i = choose|i: int|
        0 <= i < tasks.len() && (#[trigger] tasks[i]).id == id && tasks[i].status != TaskStatus::Running
            && h.state.blocks(tasks[i].group);
    lemma_task_pos(tasks, i);
    let r = h.apply(command, target, now).handler;
    if has_task(tasks, target) {
        let p = task_pos(tasks, target);
        assert(tasks[p].id == target);
        match command {
            TaskCommand::Remove => {
                if tasks[p].status != TaskStatus::Running {
                    lemma_remove_keeps_wf(h, p);
                    if p != i {
                        let j = if i < p { i } else { i - 1 };
                        assert(r.state.tasks[j] == tasks[i]);
                    }
                }
            },
            TaskCommand::Stash => {
                if tasks[p].status == TaskStatus::Queued {
                    assert(r.state.tasks[i].id == id && r.state.tasks[i].status != TaskStatus::Running
                        && r.state.tasks[i].group == tasks[i].group);
                }
            },
            TaskCommand::Enqueue => {
                if tasks[p].status == TaskStatus::Stashed {
                    assert(r.state.tasks[i].id == id && r.state.tasks[i].status != TaskStatus::Running
                        && r.state.tasks[i].group == tasks[i].group);
                }
            },
            TaskCommand::Pause => {
                if tasks[p].status == TaskStatus::Queued {
                    assert(r.state.tasks[i].id == id && r.state.tasks[i].status != TaskStatus::Running
                        && r.state.tasks[i].group == tasks[i].group);
                }
            },
            TaskCommand::Restart(start_immediately) => {
                if tasks[p].status == TaskStatus::Done && !h.full_reset && h.state.next_id != usize::MAX {
                    lemma_submit_keeps_held(
                        h,
                        tasks[p].command,
                        tasks[p].arguments,
                        tasks[p].path,
                        tasks[p].group,
                        start_immediately,
                        now,
                        id,
                    );
                }
            },
            TaskCommand::Start => {},
        }
    }
}

/// Removing a task brings no other task into the table.
proof fn lemma_remove_keeps_gone(h: HandlerView, target: usize, id: usize)
    requires
        !has_task(h.state.tasks, id),
    ensures
        !has_task(h.remove_task(target).handler.state.tasks, id),
{
    let r = h.remove_task(target).handler;
    if has_task(r.state.tasks, id) {
        let j = choose|j: int| 0 <= j < r.state.tasks.len() && (#[trigger] r.state.tasks[j]).id == id;
        let p = task_pos(h.state.tasks, target);
        let j0 = if j < p { j } else { j + 1 };
        assert(h.state.tasks[j0].id == id);
    }
}

/// A request for a list of tasks, other than a start, leaves a task that
/// is kept back kept back, unless it removes that very task.
proof fn lemma_apply_each_keeps_held(
    h: HandlerView,
    command: TaskCommand,
    ids: Seq<i32>,
    now: i64,
    id: usize,
)
    requires
        h.wf(),
        command != TaskCommand::Start,
        h.holds_back(id),
    ensures
        h.apply_each(command, ids, now).handler.holds_back(id) || (command == TaskCommand::Remove
            && !has_task(h.apply_each(command, ids, now).handler.state.tasks, id)),
    decreases ids.len(),
{
    if ids.len() > 0 {
        lemma_apply_each_keeps_held(h, command, ids.drop_last(), now, id);
        lemma_apply_each_keeps_wf(h, command, ids.drop_last(), now);
        let b = h.apply_each(command, ids.drop_last(), now).handler;
        if ids.last() >= 0 {
            if b.holds_back(id) {
                lemma_apply_keeps_held(b, command, ids.last() as usize, now, id);
            } else {
                lemma_remove_keeps_gone(b, ids.last() as usize, id);
            }
        }
    }
}

/// A task that a pause keeps back stays unstarted until an explicit start
/// request: after anything else that happens, whether a request, a poll,
/// a reaping pass or a scheduling pass, the task is still kept back, or
/// it has left the table.
pub proof fn law_held_until_start(h: HandlerView, event: Event, id: usize)
    requires
        h.wf(),
        h.holds_back(id),
        !is_start(event),
    ensures
        h.step(event).holds_back(id) || !has_task(h.step(event).state.tasks, id),
        !is_running(h.step(event).state.tasks, id),
{
    let r = h.step(event);
    law_step_keeps_invariant(h, event);
    match event {
        Event::Request { message, now } => {
            lemma_request_keeps_held(h, message, now, id);
        },
        Event::SpawnFailed { id: failed } => {
            lemma_spawn_failed_keeps_held(h, failed, id);
        },
        Event::Poll { id: polled, state } => {
            lemma_same_table_keeps_held(h, r, id);
        },
        Event::Reap { now } => {
            lemma_reap_keeps_held(h, now, id);
        },
        Event::CompleteReset => {
            if h.reset_is_due() {
                assert(r.state.tasks.len() == 0);
            }
        },
        Event::Schedule { now } => {
            lemma_schedule_keeps_held(h, now, id);
        },
    }
    if is_running(r.state.tasks, id) {
        let a = choose|a: int|
            0 <= a < r.state.tasks.len() && (#[trigger] r.state.tasks[a]).id == id && r.state.tasks[a].status
                == TaskStatus::Running;
        assert(has_task(r.state.tasks, id));
        let j = choose|j: int|
            0 <= j < r.state.tasks.len() && (#[trigger] r.state.tasks[j]).id == id && r.state.tasks[j].status
                != TaskStatus::Running && r.state.blocks(r.state.tasks[j].group);
        lemma_task_pos(r.state.tasks, a);
        lemma_task_pos(r.state.tasks, j);
    }
}

/// A change that leaves the table and the pause flags alone leaves a task
/// that is kept back kept back.
proof fn lemma_same_table_keeps_held(h: HandlerView, r: HandlerView, id: usize)
    requires
        h.holds_back(id),
        r.state.tasks == h.state.tasks,
        r.state.groups == h.state.groups,
        h.state.paused ==> r.state.paused,
    ensures
        r.holds_back(id),
{
    let i = choose|i: int|
        0 <= i < h.state.tasks.len() && (#[trigger] h.state.tasks[i]).id == id && h.state.tasks[i].status
            != TaskStatus::Running && h.state.blocks(h.state.tasks[i].group);
    assert(r.state.tasks[i].id == id);
}

/// Undoing the start of a task leaves a task that is kept back kept back.
proof fn lemma_spawn_failed_keeps_held(h: HandlerView, failed: usize, id: usize)
    requires
        h.wf(),
        h.holds_back(id),
    ensures
        h.spawn_failed(failed).holds_back(id),
{
    let tasks = h.state.tasks;
    let i = choose|i: int|
        0 <= i < tasks.len() && (#[trigger] tasks[i]).id == id && tasks[i].status != TaskStatus::Running
            && h.state.blocks(tasks[i].group);
    let r = h.spawn_failed(failed);
    if has_child(h.children, failed) {
        assert(r.state.tasks[i].id == id && r.state.tasks[i].status != TaskStatus::Running
            && r.state.tasks[i].group == tasks[i].group);
    } else {
        assert(r.state.tasks[i].id == id);
    }
}

/// A scheduling pass leaves a task that is kept back kept back.
proof fn lemma_schedule_keeps_held(h: HandlerView, now: i64, id: usize)
    requires
        h.wf(),
        h.holds_back(id),
    ensures
        h.spawn_new(now).holds_back(id),
{
    let i = choose|i: int|
        0 <= i < h.state.tasks.len() && (#[trigger] h.state.tasks[i]).id == id && h.state.tasks[i].status
            != TaskStatus::Running && h.state.blocks(h.state.tasks[i].group);
    law_paused_task_is_not_scheduled(h, now, i);
    lemma_spawn_upto(h, h.state.tasks.len() as int, now);
    let r = h.spawn_new(now);
    assert(r.state.tasks[i] == h.state.tasks[i]);
    assert(r.state.tasks[i].id == id);
}

/// A reaping pass leaves a task that is kept back kept back.
proof fn lemma_reap_keeps_held(h: HandlerView, now: i64, id: usize)
    requires
        h.wf(),
        h.holds_back(id),
    ensures
        h.reap(now).holds_back(id),
{
    let tasks = h.state.tasks;
    let i = choose|i: int|
        0 <= i < tasks.len() && (#[trigger] tasks[i]).id == id && tasks[i].status != TaskStatus::Running
            && h.state.blocks(tasks[i].group);
    lemma_task_pos(tasks, i);
    let r = h.reap(now);
    law_reaping_pass(h, now);
    assert(!h.has_ended(id)) by {
        if has_child(h.children, id) {
            assert(is_running(tasks, id));
            let a = choose|a: int|
                0 <= a < tasks.len() && (#[trigger] tasks[a]).id == id && tasks[a].status
                    == TaskStatus::Running;
            lemma_task_pos(tasks, a);
        }
    }
    assert(r.state.tasks[i] == h.reaped_task(tasks[i], now));
    if !h.state.paused {
        let g = group_pos(h.state.groups, tasks[i].group);
        assert(r.state.groups[g] == h.reaped_group(h.state.groups[g]));
        lemma_group_pos(r.state.groups, g);
    }
}

/// Removing the finished tasks leaves a task that is kept back kept back,
/// unless it removes that very task.
proof fn lemma_clean_keeps_held(h: HandlerView, id: usize)
    requires
        h.wf(),
        h.holds_back(id),
    ensures
        h.clean().holds_back(id) || !has_task(h.clean().state.tasks, id),
{
    let tasks = h.state.tasks;
    let i = choose|i: int|
        0 <= i < tasks.len() && (#[trigger] tasks[i]).id == id && tasks[i].status != TaskStatus::Running
            && h.state.blocks(tasks[i].group);
    lemma_task_pos(tasks, i);
    lemma_without_done(tasks);
    let kept = without_done(tasks);
    let r = h.clean();
    if tasks[i].status == TaskStatus::Done {
        if has_task(kept, id) {
            let j = choose|j: int| 0 <= j < kept.len() && (#[trigger] kept[j]).id == id;
            assert(kept.contains(kept[j]));
            assert(tasks.contains(kept[j]));
            let a = choose|a: int| 0 <= a < tasks.len() && tasks[a] == kept[j];
            lemma_task_pos(tasks, a);
        }
    } else {
        assert(tasks.contains(tasks[i]));
        assert(kept.contains(tasks[i]));
        let j = choose|j: int| 0 <= j < kept.len() && kept[j] == tasks[i];
        assert(r.state.tasks[j].id == id && r.state.tasks[j].status != TaskStatus::Running
            && r.state.blocks(r.state.tasks[j].group));
    }
}

/// A request other than a start leaves a task that is kept back kept
/// back, unless it removes that very task.
proof fn lemma_request_keeps_held(h: HandlerView, message: MessageView, now: i64, id: usize)
    requires
        h.wf(),
        h.holds_back(id),
        !(message is Start),
    ensures
        h.handle_message(message, now).handler.holds_back(id) || !has_task(
            h.handle_message(message, now).handler.state.tasks,
            id,
        ),
{
    let r = h.handle_message(message, now).handler;
    match message {
        MessageView::Add { command, arguments, path, group, start_immediately } => {
            if h.add(command, arguments, path, group, start_immediately, now).rejection is None {
                lemma_submit_keeps_held(
                    h,
                    command,
                    arguments,
                    path,
                    group_or_default(group),
                    start_immediately,
                    now,
                    id,
                );
            }
        },
        MessageView::Remove { task_ids } => {
            lemma_apply_each_keeps_held(h, TaskCommand::Remove, task_ids, now, id);
        },
        MessageView::Start { task_ids } => {},
        MessageView::Restart { task_ids, start_immediately } => {
            lemma_apply_each_keeps_held(h, TaskCommand::Restart(start_immediately), task_ids, now, id);
        },
        MessageView::Pause { wait, task_ids } => {
            match task_ids {
                Some(ids) => {
                    if !wait {
                        lemma_apply_each_keeps_held(h, TaskCommand::Pause, ids, now, id);
                    }
                },
                None => {
                    lemma_same_table_keeps_held(h, r, id);
                },
            }
        },
        MessageView::Stash { task_ids } => {
            lemma_apply_each_keeps_held(h, TaskCommand::Stash, task_ids, now, id);
        },
        MessageView::Enqueue { task_ids } => {
            lemma_apply_each_keeps_held(h, TaskCommand::Enqueue, task_ids, now, id);
        },
        MessageView::Status => {},
        MessageView::Reset => {
            if h.children.len() == 0 {
                assert(r.state.tasks.len() == 0);
            } else {
                lemma_same_table_keeps_held(h, r, id);
            }
        },
        MessageView::Clean => {
            lemma_clean_keeps_held(h, id);
        },
    }
}

/// Only a start request without task ids clears a pause: after anything
/// else that happens, a paused daemon is still paused and a paused group
/// is still paused, unless a reset has been completed.
pub proof fn law_pause_persists(h: HandlerView, event: Event, g: int)
    requires
        h.wf(),
        0 <= g < h.state.groups.len(),
        !(event matches Event::Request { message, .. } && message matches MessageView::Start { task_ids }
            && task_ids is None),
    ensures
        h.step(event).state.groups.len() == h.state.groups.len(),
        h.step(event).state.groups[g].name == h.state.groups[g].name,
        h.state.groups[g].paused ==> h.step(event).state.groups[g].paused,
        h.state.paused ==> h.step(event).state.paused,
{
    match event {
        Event::Request { message, now } => {
            match message {
                MessageView::Add { command, arguments, path, group, start_immediately } => {},
                MessageView::Remove { task_ids } => {
                    lemma_apply_each_keeps_flags(h, TaskCommand::Remove, task_ids, now);
                },
                MessageView::Start { task_ids } => {
                    lemma_apply_each_keeps_flags(h, TaskCommand::Start, task_ids->0, now);
                },
                MessageView::Restart { task_ids, start_immediately } => {
                    lemma_apply_each_keeps_flags(h, TaskCommand::Restart(start_immediately), task_ids, now);
                },
                MessageView::Pause { wait, task_ids } => {
                    match task_ids {
                        Some(ids) => {
                            lemma_apply_each_keeps_flags(h, TaskCommand::Pause, ids, now);
                        },
                        None => {},
                    }
                },
                MessageView::Stash { task_ids } => {
                    lemma_apply_each_keeps_flags(h, TaskCommand::Stash, task_ids, now);
                },
                MessageView::Enqueue { task_ids } => {
                    lemma_apply_each_keeps_flags(h, TaskCommand::Enqueue, task_ids, now);
                },
                MessageView::Status => {},
                MessageView::Reset => {},
                MessageView::Clean => {},
            }
        },
        Event::SpawnFailed { id } => {},
        Event::Poll { id, state } => {},
        Event::Reap { now } => {
            law_reaping_pass(h, now);
            assert(h.reap(now).state.groups[g] == h.reaped_group(h.state.groups[g]));
        },
        Event::CompleteReset => {},
        Event::Schedule { now } => {
            lemma_spawn_upto(h, h.state.tasks.len() as int, now);
            assert(h.spawn_new(now).state.with_tasks(h.state.tasks) == h.state);
        },
    }
}

/// A request for a list of tasks changes no pause flag and no group.
proof fn lemma_apply_each_keeps_flags(h: HandlerView, command: TaskCommand, ids: Seq<i32>, now: i64)
    ensures
        h.apply_each(command, ids, now).handler.state.groups == h.state.groups,
        h.apply_each(command, ids, now).handler.state.paused == h.state.paused,
    decreases ids.len(),
{
    if ids.len() > 0 {
        lemma_apply_each_keeps_flags(h, command, ids.drop_last(), now);
    }
}

/// A start request without task ids lifts every pause: the daemon and all
/// groups are resumed, every paused task is queued again, and no task is
/// kept back any more.
pub proof fn law_start_resumes(h: HandlerView, now: i64, id: usize)
    requires
        h.wf(),
    ensures
        !h.handle_message(MessageView::Start { task_ids: None }, now).handler.state.paused,
        forall|g: int|
            0 <= g < h.state.groups.len() ==> !(#[trigger] h.handle_message(
                MessageView::Start { task_ids: None },
                now,
            ).handler.state.groups[g]).paused,
        forall|i: int|
            0 <= i < h.state.tasks.len() ==> (#[trigger] h.handle_message(
                MessageView::Start { task_ids: None },
                now,
            ).handler.state.tasks[i]).status != TaskStatus::Paused,
        !h.handle_message(MessageView::Start { task_ids: None }, now).handler.holds_back(id),
{
    let r = h.handle_message(MessageView::Start { task_ids: None }, now).handler;
    assert(r == h.start_all());
    lemma_start_all_keeps_wf(h);
    if r.holds_back(id) {
        let i = choose|i: int|
            0 <= i < r.state.tasks.len() && (#[trigger] r.state.tasks[i]).id == id && r.state.tasks[i].status
                != TaskStatus::Running && r.state.blocks(r.state.tasks[i].group);
        let g = group_pos(r.state.groups, r.state.tasks[i].group);
        assert(!r.state.groups[g].paused);
    }
}

} // verus!

