use vstd::prelude::*;
use crate::daemon::task_handler::add::group_or_default;
use crate::daemon::task_handler::messages::lemma_remove_keeps_wf;
use crate::daemon::task_handler::reset::lemma_cleared_is_wf;
use crate::daemon::task_handler::{
    ChildState, HandlerView, child_pos, has_child, insert_pos, is_running, lemma_child_pos,
    lemma_insert_pos, lemma_is_running_update, lemma_with_child,
};
use crate::laws::reaping::law_reaping_pass;
use crate::message::{MessageView, Rejection, ResponseView};
use crate::state::{has_group, has_task, lemma_task_pos, task_pos};
use crate::task::{TaskResult, TaskStatus};

verus! {

/// The table of results: exit code zero is a success, any other exit code
/// a failure with that code, an end without a code a kill, a failed poll
/// an error; a process that still runs has no result.
pub proof fn law_outcome_table(code: i32)
    ensures
        ChildState::Exited(Some(0)).outcome() == Some(TaskResult::Success),
        code != 0 ==> ChildState::Exited(Some(code)).outcome() == Some(TaskResult::Failed(code)),
        ChildState::Exited(None).outcome() == Some(TaskResult::Killed),
        ChildState::Errored.outcome() == Some(TaskResult::Errored),
        ChildState::Running.outcome() == None::<TaskResult>,
{
}

/// After a reaping pass, a task whose process had ended is done, ended at
/// the time of the pass, and has exactly the result that the table gives
/// for the outcome of its process; its entry has left the process map.
pub proof fn law_reaped_task_has_result_of_outcome(h: HandlerView, now: i64, i: int)
    requires
        h.wf(),
        0 <= i < h.state.tasks.len(),
        h.has_ended(h.state.tasks[i].id),
    ensures
        h.reap(now).state.tasks[i].id == h.state.tasks[i].id,
        h.reap(now).state.tasks[i].status == TaskStatus::Done,
        h.reap(now).state.tasks[i].end == Some(now),
        h.reap(now).state.tasks[i].result == h.children[child_pos(
            h.children,
            h.state.tasks[i].id,
        )].state.outcome(),
        !has_child(h.reap(now).children, h.state.tasks[i].id),
{
    law_reaping_pass(h, now);
    assert(h.reap(now).state.tasks[i] == h.reaped_task(h.state.tasks[i], now));
}

/// After a reaping pass, a task whose process has not ended, or that has
/// no process, is what it was.
pub proof fn law_reaping_leaves_other_tasks(h: HandlerView, now: i64, i: int)
    requires
        h.wf(),
        0 <= i < h.state.tasks.len(),
        !h.has_ended(h.state.tasks[i].id),
    ensures
        h.reap(now).state.tasks[i] == h.state.tasks[i],
{
    law_reaping_pass(h, now);
    assert(h.reap(now).state.tasks[i] == h.reaped_task(h.state.tasks[i], now));
}

/// A start whose process cannot be spawned leaves no trace: after the
/// start of a queued task has been undone, the handler is what it was
/// before the start, so the task has never counted as running.
pub proof fn law_failed_spawn_undoes_start(h: HandlerView, i: int, now: i64)
    requires
        h.wf(),
        0 <= i < h.state.tasks.len(),
        h.state.tasks[i].status == TaskStatus::Queued,
        h.state.tasks[i].start is None,
    ensures
        h.start_at(i, now).spawn_failed(h.state.tasks[i].id) == h,
{
    let tasks = h.state.tasks;
    let id = tasks[i].id;
    let started = h.start_at(i, now);
    assert(!has_child(h.children, id)) by {
        if is_running(tasks, id) {
            let j = choose|j: int|
                0 <= j < tasks.len() && (#[trigger] tasks[j]).id == id && tasks[j].status
                    == TaskStatus::Running;
            lemma_task_pos(tasks, j);
            lemma_task_pos(tasks, i);
        }
    }
    lemma_with_child(h.children, id);
    lemma_insert_pos(h.children, id);
    let p = insert_pos(h.children, id);
    assert(started.children[p].task_id == id);
    lemma_child_pos(started.children, p);
    lemma_is_running_update(tasks, i, tasks[i].started(now));
    assert(started.state.tasks[i].id == id);
    lemma_task_pos(started.state.tasks, i);
    let undone = started.spawn_failed(id);
    assert(undone.children =~= h.children);
    assert(undone.state.tasks =~= tasks);
}

/// Removing a running task always fails and changes nothing.
pub proof fn law_running_task_is_not_removed(h: HandlerView, id: usize)
    requires
        h.wf(),
        has_task(h.state.tasks, id),
        h.state.tasks[task_pos(h.state.tasks, id)].status == TaskStatus::Running,
    ensures
        h.remove_task(id).rejection == Some(Rejection::InState(TaskStatus::Running)),
        h.remove_task(id).handler == h,
        h.remove_task(id).effect is None,
{
}

/// Removing a task that is queued, stashed, paused or done always
/// succeeds: the task is gone from the table, and so from every later
/// snapshot, while every other task is still there, unchanged.
pub proof fn law_waiting_task_is_removed(h: HandlerView, id: usize, now: i64)
    requires
        h.wf(),
        has_task(h.state.tasks, id),
        h.state.tasks[task_pos(h.state.tasks, id)].status != TaskStatus::Running,
    ensures
        h.remove_task(id).rejection is None,
        h.remove_task(id).handler.wf(),
        !has_task(h.remove_task(id).handler.state.tasks, id),
        forall|i: int|
            0 <= i < h.state.tasks.len() && (#[trigger] h.state.tasks[i]).id != id
                ==> h.remove_task(id).handler.state.tasks.contains(h.state.tasks[i]),
        h.remove_task(id).handler.handle_message(MessageView::Status, now).response
            == ResponseView::Status(h.remove_task(id).handler.state),
{
    let p = task_pos(h.state.tasks, id);
    lemma_remove_keeps_wf(h, p);
    let after = h.remove_task(id).handler.state.tasks;
    assert forall|i: int| 0 <= i < h.state.tasks.len() && (#[trigger] h.state.tasks[i]).id
        != id implies after.contains(h.state.tasks[i]) by {
        let j = if i < p { i } else { i - 1 };
        assert(after[j] == h.state.tasks[i]);
    }
}

/// A reset of a handler without running processes leaves the table empty,
/// and the next task that is added receives the id zero.
pub proof fn law_reset_then_add(
    h: HandlerView,
    command: Seq<char>,
    arguments: Seq<Seq<char>>,
    path: Seq<char>,
    group: Option<Seq<char>>,
    start_immediately: bool,
    now: i64,
)
    requires
        h.wf(),
        h.children.len() == 0,
        has_group(h.state.groups, group_or_default(group)),
    ensures
        h.reset().wf(),
        h.reset().state.tasks.len() == 0,
        h.reset().state.next_id == 0,
        !h.reset().full_reset,
        h.reset().handle_message(
            MessageView::Add { command, arguments, path, group, start_immediately },
            now,
        ).response == ResponseView::Added(0),
        h.reset().handle_message(
            MessageView::Add { command, arguments, path, group, start_immediately },
            now,
        ).handler.state.tasks.len() == 1,
        h.reset().handle_message(
            MessageView::Add { command, arguments, path, group, start_immediately },
            now,
        ).handler.state.tasks[0].id == 0,
{
    lemma_cleared_is_wf(h);
}

/// A second reset changes nothing that the first has not changed.
pub proof fn law_reset_is_idempotent(h: HandlerView)
    ensures
        h.reset().reset() == h.reset(),
{
    if h.children.len() == 0 {
        assert(h.cleared().cleared() == h.cleared());
    }
}

/// A reset that had to wait for running processes is completed after the
/// reaping pass in which the last of them has ended: the table is empty
/// and ids are handed out from zero again.
pub proof fn law_reset_completes(h: HandlerView, now: i64)
    requires
        h.wf(),
        h.full_reset,
        forall|k: int| 0 <= k < h.children.len() ==> !((#[trigger] h.children[k]).state is Running),
    ensures
        h.reap(now).handle_reset().wf(),
        h.reap(now).handle_reset().state.tasks.len() == 0,
        h.reap(now).handle_reset().state.next_id == 0,
        h.reap(now).handle_reset().children.len() == 0,
        !h.reap(now).handle_reset().full_reset,
{
    law_reaping_pass(h, now);
    let r = h.reap(now);
    if r.children.len() > 0 {
        let id = r.children[0].task_id;
        assert(has_child(r.children, id));
        assert(has_child(h.children, id) && !h.has_ended(id));
        let k = child_pos(h.children, id);
        assert(!(h.children[k].state is Running));
    }
    lemma_cleared_is_wf(r);
}

} // verus!
