use vstd::prelude::*;
use crate::daemon::task_handler::pause::kill_all;
use crate::daemon::task_handler::{Effect, HandlerView, TaskHandler, is_running};
use crate::state::{StateView, has_group, ids_increasing, running_in};
use crate::task::{Task, TaskStatus, TaskView, task_views};

verus! {

/// The table without its finished tasks.
pub open spec fn without_done(tasks: Seq<TaskView>) -> Seq<TaskView>
    decreases tasks.len(),
{
    if tasks.len() == 0 {
        Seq::empty()
    } else if tasks.last().status == TaskStatus::Done {
        without_done(tasks.drop_last())
    } else {
        without_done(tasks.drop_last()).push(tasks.last())
    }
}

/// The removal of the logs of each finished task, in the order of the table.
pub open spec fn clean_effects(tasks: Seq<TaskView>) -> Seq<Effect>
    decreases tasks.len(),
{
    if tasks.len() == 0 {
        Seq::empty()
    } else if tasks.last().status == TaskStatus::Done {
        clean_effects(tasks.drop_last()).push(Effect::CleanLogs(tasks.last().id))
    } else {
        clean_effects(tasks.drop_last())
    }
}

impl HandlerView {
    /// The handler with an empty table that hands out ids from zero again.
    pub open spec fn cleared(self) -> HandlerView {
        HandlerView {
            state: StateView { tasks: Seq::empty(), next_id: 0, ..self.state },
            children: self.children,
            full_reset: false,
        }
    }

    /// The handler after a reset was requested: cleared at once where no
    /// process runs, else waiting for the processes to end.
    pub open spec fn reset(self) -> HandlerView {
        if self.children.len() == 0 {
            self.cleared()
        } else {
            HandlerView { full_reset: true, ..self }
        }
    }

    /// What a requested reset asks of the caller: to delete all logs where
    /// the table was cleared, else to stop every process.
    pub open spec fn reset_effects(self) -> Seq<Effect> {
        if self.children.len() == 0 {
            seq![Effect::ResetLogs]
        } else {
            kill_all(self.children)
        }
    }

    /// Whether a requested reset can be completed now.
    pub open spec fn reset_is_due(self) -> bool {
        self.full_reset && self.children.len() == 0
    }

    /// The handler after a due reset has been completed.
    pub open spec fn handle_reset(self) -> HandlerView {
        if self.reset_is_due() {
            self.cleared()
        } else {
            self
        }
    }

    /// What completing a due reset asks of the caller.
    pub open spec fn handle_reset_effects(self) -> Seq<Effect> {
        if self.reset_is_due() {
            seq![Effect::ResetLogs, Effect::Save]
        } else {
            Seq::empty()
        }
    }

    /// The handler after the finished tasks have been removed.
    pub open spec fn clean(self) -> HandlerView {
        self.with_state(self.state.with_tasks(without_done(self.state.tasks)))
    }
}

/// What is left of a table without its finished tasks: exactly the tasks
/// that are not done, in their order, and so the same running tasks.
pub proof fn lemma_without_done(tasks: Seq<TaskView>)
    requires
        ids_increasing(tasks),
    ensures
        ids_increasing(without_done(tasks)),
        forall|t: TaskView| #[trigger]
            without_done(tasks).contains(t) <==> tasks.contains(t) && t.status != TaskStatus::Done,
        forall|group: Seq<char>| #[trigger]
            running_in(without_done(tasks), group) == running_in(tasks, group),
        forall|id: usize| #[trigger] is_running(without_done(tasks), id) <==> is_running(tasks, id),
    decreases tasks.len(),
{
    let kept = without_done(tasks);
    if tasks.len() == 0 {
        assert forall|t: TaskView| #[trigger] kept.contains(t) <==> tasks.contains(t) && t.status
            != TaskStatus::Done by {}
        assert forall|id: usize| #[trigger] is_running(kept, id) <==> is_running(tasks, id) by {}
    } else {
        let rest = tasks.drop_last();
        let last = tasks[tasks.len() - 1];
        assert(tasks.last() == last);
        assert forall|i: int| 0 <= i < rest.len() implies (#[trigger] rest[i]) == tasks[i] by {}
        lemma_without_done(rest);
        let before = without_done(rest);
        assert forall|t: TaskView| #[trigger]
            kept.contains(t) <==> tasks.contains(t) && t.status != TaskStatus::Done by {
            if kept.contains(t) {
                let j = choose|j: int| 0 <= j < kept.len() && kept[j] == t;
                if j < before.len() {
                    assert(before[j] == t);
                    assert(before.contains(t));
                    let i = choose|i: int| 0 <= i < rest.len() && rest[i] == t;
                    assert(tasks[i] == t);
                } else {
                    assert(t == last);
                }
            }
            if tasks.contains(t) && t.status != TaskStatus::Done {
                let i = choose|i: int| 0 <= i < tasks.len() && tasks[i] == t;
                if i < rest.len() {
                    assert(rest[i] == t);
                    assert(rest.contains(t));
                    assert(before.contains(t));
                    let j = choose|j: int| 0 <= j < before.len() && before[j] == t;
                    assert(kept[j] == t);
                } else {
                    assert(kept[kept.len() - 1] == t);
                }
            }
        }
        assert forall|i: int, j: int| 0 <= i < j < kept.len() implies (#[trigger] kept[i]).id < (
        #[trigger] kept[j]).id by {
            assert(kept[i] == before[i]);
            if j < before.len() {
                assert(kept[j] == before[j]);
            } else {
                assert(before.contains(before[i]));
                assert(rest.contains(before[i]));
                let a = choose|a: int| 0 <= a < rest.len() && rest[a] == before[i];
                assert(tasks[a].id < tasks[tasks.len() - 1].id);
            }
        }
        assert forall|group: Seq<char>| #[trigger]
            running_in(kept, group) == running_in(tasks, group) by {
            assert(running_in(before, group) == running_in(rest, group));
            if last.status != TaskStatus::Done {
                assert(kept.drop_last() =~= before);
            }
        }
        assert forall|id: usize| #[trigger] is_running(kept, id) <==> is_running(tasks, id) by {
            assert(is_running(before, id) <==> is_running(rest, id));
            if is_running(kept, id) {
                let j = choose|j: int|
                    0 <= j < kept.len() && (#[trigger] kept[j]).id == id && kept[j].status
                        == TaskStatus::Running;
                if j < before.len() {
                    assert(before[j].id == id && before[j].status == TaskStatus::Running);
                    let i = choose|i: int|
                        0 <= i < rest.len() && (#[trigger] rest[i]).id == id && rest[i].status
                            == TaskStatus::Running;
                    assert(tasks[i].id == id && tasks[i].status == TaskStatus::Running);
                } else {
                    assert(tasks[tasks.len() - 1].id == id);
                }
            }
            if is_running(tasks, id) {
                let i = choose|i: int|
                    0 <= i < tasks.len() && (#[trigger] tasks[i]).id == id && tasks[i].status
                        == TaskStatus::Running;
                if i < rest.len() {
                    assert(rest[i].id == id && rest[i].status == TaskStatus::Running);
                    let j = choose|j: int|
                        0 <= j < before.len() && (#[trigger] before[j]).id == id && before[j].status
                            == TaskStatus::Running;
                    assert(kept[j].id == id && kept[j].status == TaskStatus::Running);
                } else {
                    assert(kept[kept.len() - 1].id == id);
                }
            }
        }
    }
}

/// Removing the finished tasks keeps the invariant.
pub proof fn lemma_clean_keeps_wf(h: HandlerView)
    requires
        h.wf(),
    ensures
        h.clean().wf(),
{
    let tasks = h.state.tasks;
    let kept = without_done(tasks);
    lemma_without_done(tasks);
    assert forall|j: int| 0 <= j < kept.len() implies {
        &&& (#[trigger] kept[j]).id < h.state.next_id
        &&& kept[j].result_matches_status()
        &&& has_group(h.state.groups, kept[j].group)
    } by {
        assert(kept.contains(kept[j]));
        assert(tasks.contains(kept[j]));
        let i = choose|i: int| 0 <= i < tasks.len() && tasks[i] == kept[j];
        assert(tasks[i].id < h.state.next_id);
    }
    assert forall|g: int| 0 <= g < h.state.groups.len() implies running_in(
        kept,
        (#[trigger] h.state.groups[g]).name,
    ) <= h.state.groups[g].parallel_limit by {
        assert(running_in(kept, h.state.groups[g].name) == running_in(tasks, h.state.groups[g].name));
    }
}

/// A cleared handler without processes satisfies the invariant.
pub proof fn lemma_cleared_is_wf(h: HandlerView)
    requires
        h.wf(),
        h.children.len() == 0,
    ensures
        h.cleared().wf(),
{
}

impl TaskHandler {
    /// Empties the table and lets the ids start from zero again.
    fn clear(&mut self)
        requires
            old(self).wf(),
            old(self).children.len() == 0,
        ensures
            final(self).wf(),
            final(self)@ == old(self)@.cleared(),
    {
        proof {
            lemma_cleared_is_wf(self@);
        }
        self.state.tasks = Vec::new();
        self.state.next_id = 0;
        self.full_reset = false;
        proof {
            assert(self@.state.tasks =~= Seq::<TaskView>::empty());
        }
    }

    /// Requests a reset: where no process runs, the table is cleared at
    /// once; else every process is to be stopped and the reset is completed
    /// by [`TaskHandler::handle_reset`] when the last has been reaped.
    pub fn reset(&mut self) -> (effects: Vec<Effect>)
        requires
            old(self).wf(),
        ensures
            final(self).wf(),
            final(self)@ == old(self)@.reset(),
            effects@ == old(self)@.reset_effects(),
    {
        if self.children.len() == 0 {
            self.clear();
            let mut effects: Vec<Effect> = Vec::new();
            effects.push(Effect::ResetLogs);
            proof {
                assert(effects@ =~= seq![Effect::ResetLogs]);
            }
            effects
        } else {
            self.full_reset = true;
            self.kill_children()
        }
    }

    /// Completes a requested reset once the process map is empty.
    pub fn handle_reset(&mut self) -> (effects: Vec<Effect>)
        requires
            old(self).wf(),
        ensures
            final(self).wf(),
            final(self)@ == old(self)@.handle_reset(),
            effects@ == old(self)@.handle_reset_effects(),
    {
        let mut effects: Vec<Effect> = Vec::new();
        if self.full_reset && self.children.len() == 0 {
            self.clear();
            effects.push(Effect::ResetLogs);
            effects.push(Effect::Save);
            proof {
                assert(effects@ =~= seq![Effect::ResetLogs, Effect::Save]);
            }
        }
        effects
    }

    /// Removes every finished task from the table; the caller deletes their logs.
    pub fn clean(&mut self) -> (effects: Vec<Effect>)
        requires
            old(self).wf(),
        ensures
            final(self).wf(),
            final(self)@ == old(self)@.clean(),
            effects@ == clean_effects(old(self)@.state.tasks),
    {
        let ghost before = self@;
        proof {
            lemma_clean_keeps_wf(before);
        }
        let mut kept: Vec<Task> = Vec::new();
        let mut effects: Vec<Effect> = Vec::new();
        let mut i: usize = 0;
        while i < self.state.tasks.len()
            invariant
                i <= self.state.tasks.len(),
                self@ == before,
                task_views(kept@) == without_done(before.state.tasks.take(i as int)),
                effects@ == clean_effects(before.state.tasks.take(i as int)),
            decreases self.state.tasks.len() - i,
        {
            proof {
                let next = before.state.tasks.take(i + 1);
                assert(next.drop_last() =~= before.state.tasks.take(i as int));
                assert(next.last() == before.state.tasks[i as int]);
            }
            if self.state.tasks[i].status == TaskStatus::Done {
                effects.push(Effect::CleanLogs(self.state.tasks[i].id));
            } else {
                let ghost copied = task_views(kept@);
                kept.push(self.state.tasks[i].clone());
                proof {
                    assert(task_views(kept@) =~= copied.push(before.state.tasks[i as int]));
                }
            }
            i += 1;
        }
        proof {
            assert(before.state.tasks.take(i as int) =~= before.state.tasks);
        }
        self.state.tasks = kept;
        effects
    }
}

} // verus!
