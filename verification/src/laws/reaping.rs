use vstd::prelude::*;
use crate::daemon::task_handler::finish_task::{
    finished_children, lemma_after_failure, lemma_finish_keeps_others, lemma_finish_keeps_wf,
    lemma_finished_children,
};
use crate::daemon::task_handler::{Child, HandlerView, child_pos, has_child, lemma_without_child};
use crate::state::{GroupView, group_pos, has_group, lemma_group_pos, lemma_task_pos, task_pos};
use crate::task::{TaskResult, TaskStatus, TaskView};

verus! {

impl HandlerView {
    /// The result that the ended process of task `id` stands for.
    pub open spec fn outcome_of(self, id: usize) -> TaskResult {
        self.children[child_pos(self.children, id)].state.outcome()->0
    }

    /// Whether the process of task `id` has ended in a way that triggers
    /// the failure policy.
    pub open spec fn fails(self, id: usize) -> bool {
        self.has_ended(id) && self.outcome_of(id).cascades()
    }

    /// The group of the task `id`.
    pub open spec fn group_of(self, id: usize) -> Seq<char> {
        self.state.tasks[task_pos(self.state.tasks, id)].group
    }

    /// Whether the process of some task of group `name` has failed.
    pub open spec fn failed_in(self, name: Seq<char>) -> bool {
        exists|id: usize| #[trigger] self.fails(id) && self.group_of(id) == name
    }

    /// Whether the process of any task has failed.
    pub open spec fn any_failed(self) -> bool {
        exists|id: usize| #[trigger] self.fails(id)
    }

    /// Whether a failure pauses the group of the task, and not the daemon.
    pub open spec fn pauses_group(self) -> bool {
        !self.state.pause_all_on_failure && self.state.pause_group_on_failure
    }

    /// What a reaping pass at `now` makes of a task: one whose process has
    /// ended is done, with the result of that process; any other is untouched.
    pub open spec fn reaped_task(self, task: TaskView, now: i64) -> TaskView {
        if self.has_ended(task.id) {
            task.finished(self.outcome_of(task.id), now)
        } else {
            task
        }
    }

    /// What a reaping pass makes of a group: it is paused if it was, or if
    /// failures pause groups and one of its tasks has failed.
    pub open spec fn reaped_group(self, group: GroupView) -> GroupView {
        group.with_paused(group.paused || (self.pauses_group() && self.failed_in(group.name)))
    }
}

/// Whether `id` is among the first `j` entries of `done`.
pub open spec fn processed(done: Seq<Child>, j: int, id: usize) -> bool {
    exists|m: int| 0 <= m < j && (#[trigger] done[m]).task_id == id
}

/// Whether a task of group `name` is among the failures in the first `j`
/// entries of `done`.
pub open spec fn failed_before(h: HandlerView, done: Seq<Child>, j: int, name: Seq<char>) -> bool {
    exists|m: int|
        0 <= m < j && (#[trigger] done[m]).state.outcome()->0.cascades() && h.group_of(done[m].task_id)
            == name
}

/// Whether there is a failure among the first `j` entries of `done`.
pub open spec fn any_failed_before(done: Seq<Child>, j: int) -> bool {
    exists|m: int| 0 <= m < j && (#[trigger] done[m]).state.outcome()->0.cascades()
}

/// What `done` has to be for a reaping pass over `h`: ordered entries of the
/// process map whose processes have ended.
pub open spec fn ended_entries(h: HandlerView, done: Seq<Child>) -> bool {
    &&& forall|a: int, b: int|
        #![trigger done[a], done[b]]
        0 <= a < b < done.len() ==> done[a].task_id < done[b].task_id
    &&& forall|m: int|
        0 <= m < done.len() ==> !((#[trigger] done[m]).state is Running) && has_child(
            h.children,
            done[m].task_id,
        ) && h.children[child_pos(h.children, done[m].task_id)] == done[m]
}

/// The handler after the first `j` entries of `done` have been reaped,
/// stated field by field.
pub open spec fn partly_reaped(h: HandlerView, done: Seq<Child>, j: int, now: i64, r: HandlerView) -> bool {
    &&& r.wf()
    &&& r.full_reset == h.full_reset
    &&& r.state.next_id == h.state.next_id
    &&& r.state.pause_group_on_failure == h.state.pause_group_on_failure
    &&& r.state.pause_all_on_failure == h.state.pause_all_on_failure
    &&& r.state.paused == (h.state.paused || (h.state.pause_all_on_failure && any_failed_before(done, j)))
    &&& r.state.tasks.len() == h.state.tasks.len()
    &&& forall|i: int|
        0 <= i < h.state.tasks.len() ==> #[trigger] r.state.tasks[i] == if processed(
            done,
            j,
            h.state.tasks[i].id,
        ) {
            h.state.tasks[i].finished(h.outcome_of(h.state.tasks[i].id), now)
        } else {
            h.state.tasks[i]
        }
    &&& r.state.groups.len() == h.state.groups.len()
    &&& forall|g: int|
        0 <= g < h.state.groups.len() ==> #[trigger] r.state.groups[g] == h.state.groups[g].with_paused(
            h.state.groups[g].paused || (h.pauses_group() && failed_before(
                h,
                done,
                j,
                h.state.groups[g].name,
            )),
        )
    &&& forall|id: usize| #[trigger]
        has_child(r.children, id) <==> has_child(h.children, id) && !processed(done, j, id)
    &&& forall|id: usize| #[trigger]
        has_child(r.children, id) ==> r.children[child_pos(r.children, id)] == h.children[child_pos(
            h.children,
            id,
        )]
}

/// Reaping the first `j` of the ended entries, one after the other, has
/// the effect that is stated field by field.
pub proof fn lemma_finish_all(h: HandlerView, done: Seq<Child>, j: int, now: i64)
    requires
        h.wf(),
        0 <= j <= done.len(),
        ended_entries(h, done),
    ensures
        partly_reaped(h, done, j, now, h.finish_all(done.take(j), now)),
    decreases j,
{
    if j == 0 {
        assert(done.take(0).len() == 0);
    } else {
        lemma_finish_all(h, done, j - 1, now);
        let b = h.finish_all(done.take(j - 1), now);
        let id = done[j - 1].task_id;
        assert(done.take(j).drop_last() =~= done.take(j - 1));
        assert(done.take(j).last() == done[j - 1]);
        let r = b.finish(id, now);
        assert(r == h.finish_all(done.take(j), now));
        let tasks = h.state.tasks;

        // The entry of `id` has not been reaped yet.
        assert(!processed(done, j - 1, id)) by {
            if processed(done, j - 1, id) {
                let m = choose|m: int| 0 <= m < j - 1 && (#[trigger] done[m]).task_id == id;
                assert(done[m].task_id < done[j - 1].task_id);
            }
        }
        assert(has_child(b.children, id));
        let k = child_pos(b.children, id);
        assert(b.children[k] == done[j - 1]);
        assert(b.has_ended(id));
        lemma_finish_keeps_wf(b, id, now);
        let i = choose|i: int|
            0 <= i < b.state.tasks.len() && (#[trigger] b.state.tasks[i]).id == id && b.state.tasks[i].status
                == TaskStatus::Running;
        lemma_task_pos(b.state.tasks, i);
        assert(b.state.tasks[i] == tasks[i]);
        lemma_task_pos(tasks, i);
        let result = h.outcome_of(id);
        assert(result == b.children[k].state.outcome()->0);
        let group = tasks[i].group;
        assert(h.group_of(id) == group);
        let mid = b.state.with_tasks(b.state.tasks.update(i, tasks[i].finished(result, now)));
        lemma_after_failure(mid, group);
        assert(r.state.tasks == mid.tasks);

        assert forall|x: usize| processed(done, j, x) <==> processed(done, j - 1, x) || x == id by {
            if processed(done, j, x) {
                let m = choose|m: int| 0 <= m < j && (#[trigger] done[m]).task_id == x;
                if m < j - 1 {
                    assert(processed(done, j - 1, x));
                }
            }
            if processed(done, j - 1, x) {
                let m = choose|m: int| 0 <= m < j - 1 && (#[trigger] done[m]).task_id == x;
                assert(0 <= m < j && done[m].task_id == x);
            }
            if x == id {
                assert(done[j - 1].task_id == x);
            }
        }
        assert forall|n: int| 0 <= n < tasks.len() implies #[trigger] r.state.tasks[n] == if processed(
            done,
            j,
            tasks[n].id,
        ) {
            tasks[n].finished(h.outcome_of(tasks[n].id), now)
        } else {
            tasks[n]
        } by {
            if n != i {
                assert(r.state.tasks[n] == b.state.tasks[n]);
                if n < i {
                    assert(tasks[n].id < tasks[i].id);
                } else {
                    assert(tasks[i].id < tasks[n].id);
                }
            }
        }

        // The pause flags.
        let failed_now = done[j - 1].state.outcome()->0.cascades();
        assert(failed_now == result.cascades());
        assert(any_failed_before(done, j) <==> any_failed_before(done, j - 1) || failed_now) by {
            if any_failed_before(done, j) {
                let m = choose|m: int| 0 <= m < j && (#[trigger] done[m]).state.outcome()->0.cascades();
                if m < j - 1 {
                    assert(any_failed_before(done, j - 1));
                }
            }
            if any_failed_before(done, j - 1) {
                let m = choose|m: int|
                    0 <= m < j - 1 && (#[trigger] done[m]).state.outcome()->0.cascades();
                assert(0 <= m < j && done[m].state.outcome()->0.cascades());
            }
            if failed_now {
                assert(done[j - 1].state.outcome()->0.cascades());
            }
        }
        assert forall|name: Seq<char>|
            failed_before(h, done, j, name) <==> failed_before(h, done, j - 1, name) || (failed_now
                && group == name) by {
            if failed_before(h, done, j, name) {
                let m = choose|m: int|
                    0 <= m < j && (#[trigger] done[m]).state.outcome()->0.cascades() && h.group_of(
                        done[m].task_id,
                    ) == name;
                if m < j - 1 {
                    assert(failed_before(h, done, j - 1, name));
                }
            }
            if failed_before(h, done, j - 1, name) {
                let m = choose|m: int|
                    0 <= m < j - 1 && (#[trigger] done[m]).state.outcome()->0.cascades() && h.group_of(
                        done[m].task_id,
                    ) == name;
                assert(0 <= m < j && done[m].state.outcome()->0.cascades() && h.group_of(done[m].task_id)
                    == name);
            }
            if failed_now && group == name {
                assert(done[j - 1].state.outcome()->0.cascades() && h.group_of(done[j - 1].task_id)
                    == name);
            }
        }
        assert(has_group(h.state.groups, group));
        let g0 = group_pos(h.state.groups, group);
        assert(b.state.groups[g0].name == group);
        lemma_group_pos(b.state.groups, g0);
        assert(mid.groups == b.state.groups);
        assert forall|g: int| 0 <= g < h.state.groups.len() implies #[trigger] r.state.groups[g]
            == h.state.groups[g].with_paused(
            h.state.groups[g].paused || (h.pauses_group() && failed_before(
                h,
                done,
                j,
                h.state.groups[g].name,
            )),
        ) by {
            let name = h.state.groups[g].name;
            assert(failed_before(h, done, j, name) <==> failed_before(h, done, j - 1, name) || (failed_now
                && group == name));
            assert(b.state.groups[g].name == name);
            if g != g0 {
                if g < g0 {
                    assert(h.state.groups[g].name != h.state.groups[g0].name);
                } else {
                    assert(h.state.groups[g0].name != h.state.groups[g].name);
                }
            }
        }

        // The process map.
        lemma_without_child(b.children, k);
        assert forall|x: usize| #[trigger]
            has_child(r.children, x) <==> has_child(h.children, x) && !processed(done, j, x) by {
            assert(processed(done, j, x) <==> processed(done, j - 1, x) || x == id);
        }
        assert forall|x: usize| #[trigger] has_child(r.children, x) implies r.children[child_pos(
            r.children,
            x,
        )] == h.children[child_pos(h.children, x)] by {
            assert(has_child(b.children, x));
            lemma_finish_keeps_others(b, id, now, x);
        }
    }
}

/// Every entry of the process map whose process has ended is among the
/// ended entries.
pub proof fn lemma_finished_children_complete(children: Seq<Child>, k: int)
    requires
        0 <= k < children.len(),
        !(children[k].state is Running),
    ensures
        exists|m: int|
            0 <= m < finished_children(children).len() && #[trigger] finished_children(children)[m]
                == children[k],
    decreases children.len(),
{
    let done = finished_children(children);
    let rest = children.drop_last();
    assert(children.last() == children[children.len() - 1]);
    if k == children.len() - 1 {
        assert(done[done.len() - 1] == children[k]);
    } else {
        assert(rest[k] == children[k]);
        lemma_finished_children_complete(rest, k);
        let before = finished_children(rest);
        let m = choose|m: int| 0 <= m < before.len() && #[trigger] before[m] == rest[k];
        assert(done[m] == before[m]);
    }
}

/// What one reaping pass does, stated field by field. Each task whose
/// process has ended is done, with the end time `now` and the result that
/// the outcome of its process stands for; every other task is untouched.
/// The process map keeps exactly the entries of the processes that still
/// run. With pause-all set, the daemon is paused if any process failed;
/// else, with pause-group set, a group is paused if one of its own tasks
/// failed; no pause flag is ever cleared and no other is set.
pub proof fn law_reaping_pass(h: HandlerView, now: i64)
    requires
        h.wf(),
    ensures
        h.reap(now).wf(),
        h.reap(now).full_reset == h.full_reset,
        h.reap(now).state.next_id == h.state.next_id,
        h.reap(now).state.pause_group_on_failure == h.state.pause_group_on_failure,
        h.reap(now).state.pause_all_on_failure == h.state.pause_all_on_failure,
        h.reap(now).state.tasks.len() == h.state.tasks.len(),
        forall|i: int|
            0 <= i < h.state.tasks.len() ==> #[trigger] h.reap(now).state.tasks[i] == h.reaped_task(
                h.state.tasks[i],
                now,
            ),
        forall|id: usize| #[trigger]
            has_child(h.reap(now).children, id) <==> has_child(h.children, id) && !h.has_ended(id),
        forall|id: usize| #[trigger]
            has_child(h.reap(now).children, id) ==> h.reap(now).children[child_pos(
                h.reap(now).children,
                id,
            )] == h.children[child_pos(h.children, id)],
        h.reap(now).state.paused == (h.state.paused || (h.state.pause_all_on_failure && h.any_failed())),
        h.reap(now).state.groups.len() == h.state.groups.len(),
        forall|g: int|
            0 <= g < h.state.groups.len() ==> #[trigger] h.reap(now).state.groups[g] == h.reaped_group(
                h.state.groups[g],
            ),
{
    let done = finished_children(h.children);
    let n = done.len() as int;
    lemma_finished_children(h.children);
    lemma_finish_all(h, done, n, now);
    assert(done.take(n) =~= done);
    let r = h.reap(now);
    assert(partly_reaped(h, done, n, now, r));

    assert forall|id: usize| processed(done, n, id) <==> h.has_ended(id) by {
        if processed(done, n, id) {
            let m = choose|m: int| 0 <= m < n && (#[trigger] done[m]).task_id == id;
            assert(h.children[child_pos(h.children, id)] == done[m]);
        }
        if h.has_ended(id) {
            let k = child_pos(h.children, id);
            lemma_finished_children_complete(h.children, k);
            let m = choose|m: int| 0 <= m < done.len() && #[trigger] done[m] == h.children[k];
            assert(done[m].task_id == id);
        }
    }
    assert(any_failed_before(done, n) <==> h.any_failed()) by {
        if any_failed_before(done, n) {
            let m = choose|m: int| 0 <= m < n && (#[trigger] done[m]).state.outcome()->0.cascades();
            let id = done[m].task_id;
            assert(processed(done, n, id));
            assert(h.fails(id));
        }
        if h.any_failed() {
            let id = choose|id: usize| #[trigger] h.fails(id);
            assert(processed(done, n, id));
            let m = choose|m: int| 0 <= m < n && (#[trigger] done[m]).task_id == id;
            assert(h.children[child_pos(h.children, id)] == done[m]);
            assert(done[m].state.outcome()->0.cascades());
        }
    }
    assert forall|name: Seq<char>| failed_before(h, done, n, name) <==> h.failed_in(name) by {
        if failed_before(h, done, n, name) {
            let m = choose|m: int|
                0 <= m < n && (#[trigger] done[m]).state.outcome()->0.cascades() && h.group_of(
                    done[m].task_id,
                ) == name;
            let id = done[m].task_id;
            assert(processed(done, n, id));
            assert(h.fails(id) && h.group_of(id) == name);
        }
        if h.failed_in(name) {
            let id = choose|id: usize| #[trigger] h.fails(id) && h.group_of(id) == name;
            assert(processed(done, n, id));
            let m = choose|m: int| 0 <= m < n && (#[trigger] done[m]).task_id == id;
            assert(h.children[child_pos(h.children, id)] == done[m]);
            assert(done[m].state.outcome()->0.cascades() && h.group_of(done[m].task_id) == name);
        }
    }
    assert forall|i: int| 0 <= i < h.state.tasks.len() implies #[trigger] r.state.tasks[i]
        == h.reaped_task(h.state.tasks[i], now) by {
        assert(processed(done, n, h.state.tasks[i].id) <==> h.has_ended(h.state.tasks[i].id));
    }
    assert forall|id: usize| #[trigger]
        has_child(r.children, id) <==> has_child(h.children, id) && !h.has_ended(id) by {
        assert(processed(done, n, id) <==> h.has_ended(id));
    }
    assert forall|g: int| 0 <= g < h.state.groups.len() implies #[trigger] r.state.groups[g]
        == h.reaped_group(h.state.groups[g]) by {
        assert(failed_before(h, done, n, h.state.groups[g].name) <==> h.failed_in(h.state.groups[g].name));
    }
}

} // verus!
