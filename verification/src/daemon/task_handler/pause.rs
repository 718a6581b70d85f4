use vstd::prelude::*;
use crate::daemon::task_handler::{Child, Effect, HandlerView, TaskHandler, is_running};
use crate::state::{GroupView, StateView, has_group, group_pos, occupies, running_in};
use crate::task::{TaskStatus, TaskView};

verus! {

/// A paused task goes back to the queue; any other task stays as it is.
pub open spec fn resumed(task: TaskView) -> TaskView {
    if task.status == TaskStatus::Paused {
        task.with_status(TaskStatus::Queued)
    } else {
        task
    }
}

/// The table after every paused task has gone back to the queue.
pub open spec fn resumed_tasks(tasks: Seq<TaskView>) -> Seq<TaskView> {
    tasks.map_values(|t: TaskView| resumed(t))
}

/// The groups, none of them paused.
pub open spec fn resumed_groups(groups: Seq<GroupView>) -> Seq<GroupView> {
    groups.map_values(|g: GroupView| g.with_paused(false))
}

/// One request to terminate for each process of the map, in order.
pub open spec fn kill_all(children: Seq<Child>) -> Seq<Effect> {
    children.map_values(|c: Child| Effect::Kill(c.task_id))
}

impl HandlerView {
    /// The handler after the daemon and all groups have been resumed and the
    /// paused tasks have gone back to the queue.
    pub open spec fn start_all(self) -> HandlerView {
        self.with_state(
            StateView {
                tasks: resumed_tasks(self.state.tasks),
                groups: resumed_groups(self.state.groups),
                paused: false,
                ..self.state
            },
        )
    }

    /// The handler after the daemon has been paused.
    pub open spec fn pause_all(self) -> HandlerView {
        self.with_state(self.state.with_paused(true))
    }

    /// What pausing the daemon asks of the caller: nothing where the running
    /// tasks may finish, else to stop every process.
    pub open spec fn pause_all_effects(self, wait: bool) -> Seq<Effect> {
        if wait {
            Seq::empty()
        } else {
            kill_all(self.children)
        }
    }
}

/// Two tables that agree, place by place, on what each task occupies run
/// the same number of tasks in the group.
pub proof fn lemma_running_in_same(a: Seq<TaskView>, b: Seq<TaskView>, group: Seq<char>)
    requires
        a.len() == b.len(),
        forall|i: int| 0 <= i < a.len() ==> occupies(#[trigger] a[i], group) == occupies(b[i], group),
    ensures
        running_in(a, group) == running_in(b, group),
    decreases a.len(),
{
    if a.len() > 0 {
        assert forall|i: int| 0 <= i < a.drop_last().len() implies occupies(
            #[trigger] a.drop_last()[i],
            group,
        ) == occupies(b.drop_last()[i], group) by {
            assert(occupies(a[i], group) == occupies(b[i], group));
        }
        lemma_running_in_same(a.drop_last(), b.drop_last(), group);
        assert(occupies(a[a.len() - 1], group) == occupies(b[a.len() - 1], group));
    }
}

/// Two tables that agree, place by place, on the id and on whether the
/// task runs have the same running ids.
pub proof fn lemma_is_running_same(a: Seq<TaskView>, b: Seq<TaskView>)
    requires
        a.len() == b.len(),
        forall|i: int|
            0 <= i < a.len() ==> (#[trigger] a[i]).id == b[i].id && (a[i].status == TaskStatus::Running
                <==> b[i].status == TaskStatus::Running),
    ensures
        forall|id: usize| #[trigger] is_running(a, id) <==> is_running(b, id),
{
    assert forall|id: usize| #[trigger] is_running(a, id) <==> is_running(b, id) by {
        if is_running(a, id) {
            let j = choose|j: int|
                0 <= j < a.len() && (#[trigger] a[j]).id == id && a[j].status == TaskStatus::Running;
            assert(b[j].id == id && b[j].status == TaskStatus::Running);
        }
        if is_running(b, id) {
            let j = choose|j: int|
                0 <= j < b.len() && (#[trigger] b[j]).id == id && b[j].status == TaskStatus::Running;
            assert(a[j].id == b[j].id);
            assert(a[j].id == id && a[j].status == TaskStatus::Running);
        }
    }
}

/// Resuming everything keeps the invariant.
pub proof fn lemma_start_all_keeps_wf(h: HandlerView)
    requires
        h.wf(),
    ensures
        h.start_all().wf(),
{
    let tasks = h.state.tasks;
    let groups = h.state.groups;
    let after = h.start_all();
    assert forall|i: int| 0 <= i < tasks.len() implies {
        &&& (#[trigger] after.state.tasks[i]).id == tasks[i].id
        &&& after.state.tasks[i].group == tasks[i].group
        &&& (after.state.tasks[i].status == TaskStatus::Running <==> tasks[i].status
            == TaskStatus::Running)
    } by {}
    assert forall|g: int| 0 <= g < groups.len() implies (#[trigger] after.state.groups[g]).name
        == groups[g].name && after.state.groups[g].parallel_limit == groups[g].parallel_limit by {}
    lemma_is_running_same(after.state.tasks, tasks);
    assert forall|i: int| 0 <= i < after.state.tasks.len() implies {
        &&& (#[trigger] after.state.tasks[i]).id < after.state.next_id
        &&& after.state.tasks[i].result_matches_status()
        &&& has_group(after.state.groups, after.state.tasks[i].group)
    } by {
        let g = group_pos(groups, tasks[i].group);
        assert(has_group(groups, tasks[i].group));
        assert(after.state.groups[g].name == tasks[i].group);
    }
    assert forall|i: int, j: int| 0 <= i < j < after.state.tasks.len() implies (
    #[trigger] after.state.tasks[i]).id < (#[trigger] after.state.tasks[j]).id by {
        assert(tasks[i].id < tasks[j].id);
    }
    assert forall|g: int, k: int| 0 <= g < k < after.state.groups.len() implies (
    #[trigger] after.state.groups[g]).name != (#[trigger] after.state.groups[k]).name by {
        assert(groups[g].name != groups[k].name);
    }
    assert forall|g: int| 0 <= g < after.state.groups.len() implies running_in(
        after.state.tasks,
        (#[trigger] after.state.groups[g]).name,
    ) <= after.state.groups[g].parallel_limit by {
        let name = groups[g].name;
        assert forall|i: int| 0 <= i < tasks.len() implies occupies(
            #[trigger] after.state.tasks[i],
            name,
        ) == occupies(tasks[i], name) by {}
        lemma_running_in_same(after.state.tasks, tasks, name);
    }
}

impl TaskHandler {
    /// Resumes the daemon and every group, and hands every paused task back
    /// to the scheduler.
    pub fn start_all(&mut self)
        requires
            old(self).wf(),
        ensures
            final(self).wf(),
            final(self)@ == old(self)@.start_all(),
    {
        let ghost before = self@;
        proof {
            lemma_start_all_keeps_wf(before);
        }
        self.state.paused = false;
        let mut g: usize = 0;
        while g < self.state.groups.len()
            invariant
                g <= self.state.groups.len(),
                self@.state.groups.len() == before.state.groups.len(),
                forall|j: int|
                    0 <= j < before.state.groups.len() ==> (#[trigger] self@.state.groups[j]) == if j < g {
                        before.state.groups[j].with_paused(false)
                    } else {
                        before.state.groups[j]
                    },
                self@.state.tasks == before.state.tasks,
                !self@.state.paused,
                self@.state.next_id == before.state.next_id,
                self@.state.pause_group_on_failure == before.state.pause_group_on_failure,
                self@.state.pause_all_on_failure == before.state.pause_all_on_failure,
                self@.children == before.children,
                self@.full_reset == before.full_reset,
            decreases self.state.groups.len() - g,
        {
            let ghost prev = self@.state.groups;
            self.state.groups[g].paused = false;
            proof {
                assert forall|j: int| 0 <= j < prev.len() implies (#[trigger] self@.state.groups[j]) == if j
                    == g {
                    prev[j].with_paused(false)
                } else {
                    prev[j]
                } by {}
            }
            g += 1;
        }
        let mut i: usize = 0;
        while i < self.state.tasks.len()
            invariant
                i <= self.state.tasks.len(),
                self@.state.tasks.len() == before.state.tasks.len(),
                forall|j: int|
                    0 <= j < before.state.tasks.len() ==> (#[trigger] self@.state.tasks[j]) == if j < i {
                        resumed(before.state.tasks[j])
                    } else {
                        before.state.tasks[j]
                    },
                self@.state.groups =~= resumed_groups(before.state.groups),
                !self@.state.paused,
                self@.state.next_id == before.state.next_id,
                self@.state.pause_group_on_failure == before.state.pause_group_on_failure,
                self@.state.pause_all_on_failure == before.state.pause_all_on_failure,
                self@.children == before.children,
                self@.full_reset == before.full_reset,
            decreases self.state.tasks.len() - i,
        {
            let ghost prev = self@.state.tasks;
            if self.state.tasks[i].status == TaskStatus::Paused {
                self.state.tasks[i].status = TaskStatus::Queued;
            }
            proof {
                assert forall|j: int| 0 <= j < prev.len() implies (#[trigger] self@.state.tasks[j]) == if j
                    == i {
                    resumed(prev[j])
                } else {
                    prev[j]
                } by {}
            }
            i += 1;
        }
        proof {
            assert(self@.state.tasks =~= resumed_tasks(before.state.tasks));
            assert(self@.state == before.start_all().state);
        }
    }

    /// Pauses the daemon; unless `wait` is set, asks for every running
    /// process to be stopped as well.
    pub fn pause_all(&mut self, wait: bool) -> (effects: Vec<Effect>)
        requires
            old(self).wf(),
        ensures
            final(self).wf(),
            final(self)@ == old(self)@.pause_all(),
            effects@ == old(self)@.pause_all_effects(wait),
    {
        self.state.paused = true;
        if wait {
            Vec::new()
        } else {
            self.kill_children()
        }
    }

    /// One request to terminate for each process of the map.
    pub fn kill_children(&self) -> (effects: Vec<Effect>)
        ensures
            effects@ == kill_all(self@.children),
    {
        let mut effects: Vec<Effect> = Vec::new();
        let mut k: usize = 0;
        while k < self.children.len()
            invariant
                k <= self.children.len(),
                effects@ == kill_all(self@.children.take(k as int)),
            decreases self.children.len() - k,
        {
            effects.push(Effect::Kill(self.children[k].task_id));
            k += 1;
            proof {
                assert(effects@ =~= kill_all(self@.children.take(k as int)));
            }
        }
        proof {
            assert(self@.children.take(k as int) =~= self@.children);
        }
        effects
    }
}

} // verus!
