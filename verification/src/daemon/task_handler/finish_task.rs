use vstd::prelude::*;
use crate::daemon::task_handler::{
    Child, ChildState, Effect, HandlerView, TaskHandler, child_pos, children_increasing,
    has_child, is_running, lemma_child_pos, lemma_is_running_update, lemma_without_child,
};
use crate::state::{
    StateView, group_pos, has_group, lemma_flag_keeps_wf, lemma_running_in_update,
    lemma_task_pos, running_in, task_pos,
};
use crate::task::TaskStatus;

verus! {

/// The entries whose process has ended, in the order of the process map.
pub open spec fn finished_children(children: Seq<Child>) -> Seq<Child>
    decreases children.len(),
{
    if children.len() == 0 {
        Seq::empty()
    } else if children.last().state is Running {
        finished_children(children.drop_last())
    } else {
        finished_children(children.drop_last()).push(children.last())
    }
}

impl HandlerView {
    /// The handler after a poll of the process of task `id` showed `state`:
    /// the entry of the process map records it; an unknown id changes nothing.
    pub open spec fn polled(self, id: usize, state: ChildState) -> HandlerView {
        if has_child(self.children, id) {
            self.with_children(
                self.children.update(child_pos(self.children, id), Child { task_id: id, state }),
            )
        } else {
            self
        }
    }

    /// The handler after the process of the started task `id` could not be
    /// spawned: the start is undone, so the entry leaves the process map and
    /// the task waits in the queue again, without a start time. An id
    /// without an entry in the process map changes nothing.
    pub open spec fn spawn_failed(self, id: usize) -> HandlerView {
        if has_child(self.children, id) {
            let i = task_pos(self.state.tasks, id);
            HandlerView {
                state: self.state.with_tasks(self.state.tasks.update(i, self.state.tasks[i].requeued())),
                children: self.children.remove(child_pos(self.children, id)),
                ..self
            }
        } else {
            self
        }
    }

    /// Whether the process of task `id` is in the process map and has ended.
    pub open spec fn has_ended(self, id: usize) -> bool {
        has_child(self.children, id) && !(self.children[child_pos(self.children, id)].state is Running)
    }

    /// The handler after the ended process of task `id` has been reaped at
    /// `now`: the entry leaves the process map, the task is done with the
    /// result that the outcome of the process stands for, and a failure is
    /// followed by the failure policy for the task's group.
    pub open spec fn finish(self, id: usize, now: i64) -> HandlerView {
        let k = child_pos(self.children, id);
        let i = task_pos(self.state.tasks, id);
        let task = self.state.tasks[i];
        let result = self.children[k].state.outcome()->0;
        let state = self.state.with_tasks(self.state.tasks.update(i, task.finished(result, now)));
        HandlerView {
            state: if result.cascades() {
                state.after_failure(task.group)
            } else {
                state
            },
            children: self.children.remove(k),
            ..self
        }
    }

    /// The handler after the processes of `done` have been reaped in order.
    pub open spec fn finish_all(self, done: Seq<Child>, now: i64) -> HandlerView
        decreases done.len(),
    {
        if done.len() == 0 {
            self
        } else {
            self.finish_all(done.drop_last(), now).finish(done.last().task_id, now)
        }
    }

    /// What reaping the processes of `done` asks of the caller: for each, the
    /// completion callback and, during a reset, the removal of its logs.
    pub open spec fn finish_effects(self, done: Seq<Child>) -> Seq<Effect>
        decreases done.len(),
    {
        if done.len() == 0 {
            Seq::empty()
        } else {
            let rest = self.finish_effects(done.drop_last());
            let id = done.last().task_id;
            if self.full_reset {
                rest.push(Effect::Callback(id)).push(Effect::CleanLogs(id))
            } else {
                rest.push(Effect::Callback(id))
            }
        }
    }

    /// The handler after one reaping pass at `now`.
    pub open spec fn reap(self, now: i64) -> HandlerView {
        self.finish_all(finished_children(self.children), now)
    }

    /// What one reaping pass asks of the caller: the effects of each reaped
    /// process and then, if any was reaped, one snapshot.
    pub open spec fn reap_effects(self) -> Seq<Effect> {
        let done = finished_children(self.children);
        if done.len() == 0 {
            Seq::empty()
        } else {
            self.finish_effects(done).push(Effect::Save)
        }
    }
}

/// The failure policy keeps the invariant of the state and touches no task.
pub proof fn lemma_after_failure(s: StateView, group: Seq<char>)
    requires
        s.wf(),
    ensures
        s.after_failure(group).wf(),
        s.after_failure(group).tasks == s.tasks,
{
    if !s.pause_all_on_failure && s.pause_group_on_failure && has_group(s.groups, group) {
        let g = group_pos(s.groups, group);
        lemma_flag_keeps_wf(s, g, true);
    }
}

/// Reaping an ended process keeps the invariant of the handler.
pub proof fn lemma_finish_keeps_wf(h: HandlerView, id: usize, now: i64)
    requires
        h.wf(),
        h.has_ended(id),
    ensures
        h.finish(id, now).wf(),
        is_running(h.state.tasks, id),
        h.state.with_tasks(
            h.state.tasks.update(
                task_pos(h.state.tasks, id),
                h.state.tasks[task_pos(h.state.tasks, id)].finished(
                    h.children[child_pos(h.children, id)].state.outcome()->0,
                    now,
                ),
            ),
        ).wf(),
{
    let tasks = h.state.tasks;
    let k = child_pos(h.children, id);
    assert(is_running(tasks, id));
    let i0 = choose|j: int|
        0 <= j < tasks.len() && (#[trigger] tasks[j]).id == id && tasks[j].status == TaskStatus::Running;
    lemma_task_pos(tasks, i0);
    let i = task_pos(tasks, id);
    let result = h.children[k].state.outcome()->0;
    let t = tasks[i].finished(result, now);
    let state = h.state.with_tasks(tasks.update(i, t));
    lemma_is_running_update(tasks, i, t);
    lemma_without_child(h.children, k);
    assert forall|j: int| 0 <= j < state.tasks.len() implies {
        &&& (#[trigger] state.tasks[j]).id < state.next_id
        &&& state.tasks[j].result_matches_status()
        &&& has_group(state.groups, state.tasks[j].group)
    } by {
        if j != i {
            assert(state.tasks[j] == tasks[j]);
        }
    }
    assert forall|g: int| 0 <= g < state.groups.len() implies running_in(
        state.tasks,
        (#[trigger] state.groups[g]).name,
    ) <= state.groups[g].parallel_limit by {
        lemma_running_in_update(tasks, i, t, state.groups[g].name);
    }
    assert(state.wf());
    lemma_after_failure(state, tasks[i].group);
}

/// Reaping one process leaves the other entries of the process map alone.
pub proof fn lemma_finish_keeps_others(h: HandlerView, id: usize, now: i64, other: usize)
    requires
        h.wf(),
        h.has_ended(id),
        has_child(h.children, other),
        other != id,
    ensures
        has_child(h.finish(id, now).children, other),
        h.finish(id, now).children[child_pos(h.finish(id, now).children, other)] == h.children[child_pos(
            h.children,
            other,
        )],
{
    let k = child_pos(h.children, id);
    let m = child_pos(h.children, other);
    let after = h.children.remove(k);
    lemma_without_child(h.children, k);
    let a = if m < k { m } else { m - 1 };
    assert(after[a] == h.children[m]);
    lemma_child_pos(after, a);
}

/// Undoing the start of a task keeps the invariant of the handler.
pub proof fn lemma_spawn_failed_keeps_wf(h: HandlerView, id: usize)
    requires
        h.wf(),
    ensures
        h.spawn_failed(id).wf(),
        has_child(h.children, id) ==> is_running(h.state.tasks, id),
{
    if has_child(h.children, id) {
        let tasks = h.state.tasks;
        let k = child_pos(h.children, id);
        assert(is_running(tasks, id));
        let i0 = choose|j: int|
            0 <= j < tasks.len() && (#[trigger] tasks[j]).id == id && tasks[j].status == TaskStatus::Running;
        lemma_task_pos(tasks, i0);
        let i = task_pos(tasks, id);
        let t = tasks[i].requeued();
        let after = h.spawn_failed(id);
        lemma_is_running_update(tasks, i, t);
        lemma_without_child(h.children, k);
        assert forall|j: int| 0 <= j < after.state.tasks.len() implies {
            &&& (#[trigger] after.state.tasks[j]).id < after.state.next_id
            &&& after.state.tasks[j].result_matches_status()
            &&& has_group(after.state.groups, after.state.tasks[j].group)
        } by {
            if j != i {
                assert(after.state.tasks[j] == tasks[j]);
            }
        }
        assert forall|g: int| 0 <= g < after.state.groups.len() implies running_in(
            after.state.tasks,
            (#[trigger] after.state.groups[g]).name,
        ) <= after.state.groups[g].parallel_limit by {
            lemma_running_in_update(tasks, i, t, after.state.groups[g].name);
        }
    }
}

/// Recording a poll keeps the invariant of the handler.
pub proof fn lemma_polled_keeps_wf(h: HandlerView, id: usize, state: ChildState)
    requires
        h.wf(),
    ensures
        h.polled(id, state).wf(),
{
    if has_child(h.children, id) {
        let k = child_pos(h.children, id);
        let after = h.polled(id, state).children;
        assert forall|j: int| 0 <= j < after.len() implies (#[trigger] after[j]).task_id
            == h.children[j].task_id by {}
        assert forall|a: int, b: int| 0 <= a < b < after.len() implies (#[trigger] after[a]).task_id < (
        #[trigger] after[b]).task_id by {
            assert(h.children[a].task_id < h.children[b].task_id);
        }
        assert forall|other: usize| has_child(after, other) <==> has_child(h.children, other) by {
            if has_child(after, other) {
                let j = child_pos(after, other);
                assert(h.children[j].task_id == other);
            }
            if has_child(h.children, other) {
                let j = child_pos(h.children, other);
                assert(after[j].task_id == other);
            }
        }
    }
}

impl TaskHandler {
    /// Records what the latest poll of the process of task `id` showed.
    /// Returns whether the process map holds that task.
    pub fn record_poll(&mut self, id: usize, state: ChildState) -> (known: bool)
        requires
            old(self).wf(),
        ensures
            final(self).wf(),
            known == has_child(old(self)@.children, id),
            final(self)@ == old(self)@.polled(id, state),
    {
        match self.find_child(id) {
            Some(k) => {
                let ghost before = self@;
                proof {
                    lemma_child_pos(before.children, k as int);
                    lemma_polled_keeps_wf(before, id, state);
                }
                self.children[k].state = state;
                proof {
                    assert(self@.children =~= before.children.update(k as int, Child { task_id: id, state }));
                }
                true
            },
            None => false,
        }
    }

    /// Undoes the start of the task `id` after its process could not be
    /// spawned, so that the task never counts as having run. Returns whether
    /// the process map held an entry for the task.
    pub fn spawn_failed(&mut self, id: usize) -> (known: bool)
        requires
            old(self).wf(),
        ensures
            final(self).wf(),
            known == has_child(old(self)@.children, id),
            final(self)@ == old(self)@.spawn_failed(id),
    {
        let ghost before = self@;
        proof {
            lemma_spawn_failed_keeps_wf(before, id);
        }
        let found_child = self.find_child(id);
        let found_task = self.state.find_task(id);
        if let (Some(k), Some(i)) = (found_child, found_task) {
            proof {
                lemma_child_pos(before.children, k as int);
                lemma_task_pos(before.state.tasks, i as int);
            }
            self.children.remove(k);
            self.state.tasks[i].status = TaskStatus::Queued;
            self.state.tasks[i].start = None;
            proof {
                assert(self@.state.tasks =~= before.state.tasks.update(
                    i as int,
                    before.state.tasks[i as int].requeued(),
                ));
            }
            true
        } else {
            false
        }
    }

    /// Gathers the entries of the process map whose process has ended.
    pub fn get_finished(&self) -> (finished: Vec<Child>)
        ensures
            finished@ == finished_children(self@.children),
    {
        let mut finished: Vec<Child> = Vec::new();
        let mut k: usize = 0;
        while k < self.children.len()
            invariant
                k <= self.children.len(),
                finished@ == finished_children(self@.children.take(k as int)),
            decreases self.children.len() - k,
        {
            proof {
                let next = self@.children.take(k + 1);
                assert(next.drop_last() =~= self@.children.take(k as int));
                assert(next.last() == self@.children[k as int]);
            }
            match self.children[k].state {
                ChildState::Running => {},
                _ => {
                    finished.push(self.children[k]);
                },
            }
            k += 1;
        }
        proof {
            assert(self@.children.take(k as int) =~= self@.children);
        }
        finished
    }

    /// Reaps the ended process of task `id`.
    pub fn finish_child(&mut self, id: usize, now: i64)
        requires
            old(self).wf(),
            old(self)@.has_ended(id),
        ensures
            final(self).wf(),
            final(self)@ == old(self)@.finish(id, now),
    {
        let ghost before = self@;
        proof {
            lemma_finish_keeps_wf(before, id, now);
        }
        let found_child = self.find_child(id);
        let found_task = self.state.find_task(id);
        if let (Some(k), Some(i)) = (found_child, found_task) {
            proof {
                lemma_child_pos(before.children, k as int);
                lemma_task_pos(before.state.tasks, i as int);
            }
            let child = self.children.remove(k);
            if let Some(result) = child.state.task_result() {
                self.state.tasks[i].status = TaskStatus::Done;
                self.state.tasks[i].end = Some(now);
                self.state.tasks[i].result = Some(result);
                proof {
                    assert(self@.state.tasks =~= before.state.tasks.update(
                        i as int,
                        before.state.tasks[i as int].finished(result, now),
                    ));
                }
                if result.is_failure() {
                    let group = self.state.tasks[i].group.clone();
                    self.state.handle_task_failure(&group);
                }
            }
        }
    }

    /// Checks whether there are any finished processes and, where there are,
    /// handles them at the time `now` and updates the shared state: every
    /// process of the map that has ended is released, its task is done with
    /// the result of the process, and failures are followed by the failure
    /// policy.
    pub fn handle_finished_tasks(&mut self, now: i64) -> (effects: Vec<Effect>)
        requires
            old(self).wf(),
        ensures
            final(self).wf(),
            final(self)@ == old(self)@.reap(now),
            effects@ == old(self)@.reap_effects(),
    {
        let finished = self.get_finished();
        let mut effects: Vec<Effect> = Vec::new();
        if finished.is_empty() {
            return effects;
        }
        proof {
            lemma_finished_children(self@.children);
        }
        let mut j: usize = 0;
        while j < finished.len()
            invariant
                j <= finished.len(),
                self.wf(),
                self@ == old(self)@.finish_all(finished@.take(j as int), now),
                effects@ == old(self)@.finish_effects(finished@.take(j as int)),
                self.full_reset == old(self).full_reset,
                forall|a: int, b: int|
                    #![trigger finished@[a], finished@[b]]
                    0 <= a < b < finished.len() ==> finished@[a].task_id < finished@[b].task_id,
                forall|m: int|
                    j <= m < finished.len() ==> has_child(self@.children, (#[trigger] finished@[m]).task_id)
                        && self@.children[child_pos(self@.children, finished@[m].task_id)] == finished@[m],
                forall|m: int| 0 <= m < finished.len() ==> !((#[trigger] finished@[m]).state is Running),
            decreases finished.len() - j,
        {
            let id = finished[j].task_id;
            let ghost current = self@;
            proof {
                let next = finished@.take(j + 1);
                assert(next.drop_last() =~= finished@.take(j as int));
                assert(next.last() == finished@[j as int]);
                assert forall|m: int| j < m < finished.len() implies has_child(
                    current.finish(id, now).children,
                    (#[trigger] finished@[m]).task_id,
                ) && current.finish(id, now).children[child_pos(
                    current.finish(id, now).children,
                    finished@[m].task_id,
                )] == finished@[m] by {
                    assert(finished@[j as int].task_id < finished@[m].task_id);
                    lemma_finish_keeps_others(current, id, now, finished@[m].task_id);
                }
            }
            self.finish_child(id, now);
            effects.push(Effect::Callback(id));
            if self.full_reset {
                effects.push(Effect::CleanLogs(id));
            }
            j += 1;
        }
        proof {
            assert(finished@.take(j as int) =~= finished@);
        }
        effects.push(Effect::Save);
        effects
    }
}

/// The ended entries of an ordered process map are ordered, have all ended,
/// and each is still found in the map.
pub proof fn lemma_finished_children(children: Seq<Child>)
    requires
        children_increasing(children),
    ensures
        forall|a: int, b: int|
            #![trigger finished_children(children)[a], finished_children(children)[b]]
            0 <= a < b < finished_children(children).len() ==> finished_children(children)[a].task_id
                < finished_children(children)[b].task_id,
        forall|m: int|
            0 <= m < finished_children(children).len() ==> {
                let c = #[trigger] finished_children(children)[m];
                &&& !(c.state is Running)
                &&& has_child(children, c.task_id)
                &&& children[child_pos(children, c.task_id)] == c
            },
    decreases children.len(),
{
    let done = finished_children(children);
    if children.len() > 0 {
        let rest = children.drop_last();
        let last = children[children.len() - 1];
        assert(children.last() == last);
        lemma_finished_children(rest);
        let before = finished_children(rest);
        assert forall|m: int| 0 <= m < before.len() implies {
            &&& has_child(children, (#[trigger] before[m]).task_id)
            &&& children[child_pos(children, before[m].task_id)] == before[m]
            &&& before[m].task_id < last.task_id
        } by {
            let p = child_pos(rest, before[m].task_id);
            assert(rest[p] == children[p]);
            lemma_child_pos(children, p);
            assert(children[p].task_id < children[children.len() - 1].task_id);
        }
        if !(last.state is Running) {
            lemma_child_pos(children, children.len() - 1);
            assert forall|m: int| 0 <= m < done.len() implies {
                let c = #[trigger] done[m];
                &&& !(c.state is Running)
                &&& has_child(children, c.task_id)
                &&& children[child_pos(children, c.task_id)] == c
            } by {
                if m < before.len() {
                    assert(done[m] == before[m]);
                }
            }
            assert forall|a: int, b: int| 0 <= a < b < done.len() implies (#[trigger] done[a]).task_id < (
            #[trigger] done[b]).task_id by {
                assert(done[a] == before[a]);
                if b < before.len() {
                    assert(done[b] == before[b]);
                }
            }
        }
    }
}

} // verus!

