use vstd::prelude::*;
use crate::daemon::task_handler::{TaskHandler, child_pos, children_increasing, has_child, is_running};
use crate::state::{
    State, has_group, ids_increasing, lemma_task_pos, names_distinct, running_in, task_pos,
    within_capacity,
};
use crate::task::TaskStatus;

verus! {

impl State {
    /// Whether the tasks are ordered by ascending id, below the next id,
    /// and each has a result exactly if it is done.
    fn tasks_are_valid(&self) -> (b: bool)
        ensures
            b == (ids_increasing(self@.tasks) && (forall|i: int|
                0 <= i < self@.tasks.len() ==> (#[trigger] self@.tasks[i]).id < self@.next_id)
                && (forall|i: int|
                0 <= i < self@.tasks.len() ==> (#[trigger] self@.tasks[i]).result_matches_status())),
    {
        let mut i: usize = 0;
        while i < self.tasks.len()
            invariant
                i <= self.tasks.len(),
                forall|a: int, b: int|
                    #![trigger self@.tasks[a], self@.tasks[b]]
                    0 <= a < b < i ==> self@.tasks[a].id < self@.tasks[b].id,
                forall|a: int| 0 <= a < i ==> (#[trigger] self@.tasks[a]).id < self@.next_id,
                forall|a: int| 0 <= a < i ==> (#[trigger] self@.tasks[a]).result_matches_status(),
            decreases self.tasks.len() - i,
        {
            let task = &self.tasks[i];
            if task.id >= self.next_id {
                return false;
            }
            if task.result.is_some() != (task.status == TaskStatus::Done) {
                assert(!self@.tasks[i as int].result_matches_status());
                return false;
            }
            if i > 0 && self.tasks[i - 1].id >= task.id {
                assert(!(self@.tasks[i - 1].id < self@.tasks[i as int].id));
                return false;
            }
            proof {
                assert forall|a: int, b: int| 0 <= a < b < i + 1 implies (#[trigger] self@.tasks[a]).id < (
                #[trigger] self@.tasks[b]).id by {
                    if b == i && a < i - 1 {
                        assert(self@.tasks[a].id < self@.tasks[i - 1].id);
                    }
                }
            }
            i += 1;
        }
        true
    }

    /// Whether every task belongs to a configured group.
    fn groups_are_known(&self) -> (b: bool)
        ensures
            b == (forall|i: int|
                0 <= i < self@.tasks.len() ==> has_group(
                    self@.groups,
                    (#[trigger] self@.tasks[i]).group,
                )),
    {
        let mut i: usize = 0;
        while i < self.tasks.len()
            invariant
                i <= self.tasks.len(),
                forall|a: int|
                    0 <= a < i ==> has_group(self@.groups, (#[trigger] self@.tasks[a]).group),
            decreases self.tasks.len() - i,
        {
            if self.find_group(&self.tasks[i].group).is_none() {
                assert(!has_group(self@.groups, self@.tasks[i as int].group));
                return false;
            }
            i += 1;
        }
        true
    }

    /// Whether no two groups share a name.
    fn names_are_distinct(&self) -> (b: bool)
        ensures
            b == names_distinct(self@.groups),
    {
        let mut h: usize = 0;
        while h < self.groups.len()
            invariant
                h <= self.groups.len(),
                forall|a: int, b: int|
                    #![trigger self@.groups[a], self@.groups[b]]
                    0 <= a < b < h ==> self@.groups[a].name != self@.groups[b].name,
            decreases self.groups.len() - h,
        {
            let mut g: usize = 0;
            while g < h
                invariant
                    g <= h,
                    h < self.groups.len(),
                    forall|a: int|
                        0 <= a < g ==> (#[trigger] self@.groups[a]).name != self@.groups[h as int].name,
                decreases h - g,
            {
                if self.groups[g].name == self.groups[h].name {
                    assert(self@.groups[g as int].name == self@.groups[h as int].name);
                    return false;
                }
                g += 1;
            }
            h += 1;
        }
        true
    }

    /// Whether no group runs more tasks than its limit allows.
    fn is_within_capacity(&self) -> (b: bool)
        ensures
            b == within_capacity(self@.tasks, self@.groups),
    {
        let mut g: usize = 0;
        while g < self.groups.len()
            invariant
                g <= self.groups.len(),
                forall|a: int|
                    0 <= a < g ==> running_in(self@.tasks, (#[trigger] self@.groups[a]).name)
                        <= self@.groups[a].parallel_limit,
            decreases self.groups.len() - g,
        {
            if self.running_in_group(&self.groups[g].name) > self.groups[g].parallel_limit {
                assert(running_in(self@.tasks, self@.groups[g as int].name)
                    > self@.groups[g as int].parallel_limit);
                return false;
            }
            g += 1;
        }
        true
    }

    /// Decides whether the invariant of the shared state holds, for a state
    /// that comes from outside, such as a stored snapshot.
    pub fn is_valid(&self) -> (b: bool)
        ensures
            b == self.wf(),
    {
        self.tasks_are_valid() && self.groups_are_known() && self.names_are_distinct()
            && self.is_within_capacity()
    }

    /// Whether no task of the table is running.
    pub fn is_idle(&self) -> (b: bool)
        ensures
            b == (forall|id: usize| !is_running(self@.tasks, id)),
    {
        let mut i: usize = 0;
        while i < self.tasks.len()
            invariant
                i <= self.tasks.len(),
                forall|a: int| 0 <= a < i ==> (#[trigger] self@.tasks[a]).status != TaskStatus::Running,
            decreases self.tasks.len() - i,
        {
            if self.tasks[i].status == TaskStatus::Running {
                assert(is_running(self@.tasks, self@.tasks[i as int].id));
                return false;
            }
            i += 1;
        }
        true
    }
}

impl TaskHandler {
    /// Whether the process map is ordered by ascending task id.
    fn children_are_ordered(&self) -> (b: bool)
        ensures
            b == children_increasing(self@.children),
    {
        let mut k: usize = 0;
        while k < self.children.len()
            invariant
                k <= self.children.len(),
                forall|a: int, b: int|
                    #![trigger self@.children[a], self@.children[b]]
                    0 <= a < b < k ==> self@.children[a].task_id < self@.children[b].task_id,
            decreases self.children.len() - k,
        {
            if k > 0 && self.children[k - 1].task_id >= self.children[k].task_id {
                assert(!(self@.children[k - 1].task_id < self@.children[k as int].task_id));
                return false;
            }
            proof {
                assert forall|a: int, b: int| 0 <= a < b < k + 1 implies (#[trigger] self@.children[a]).task_id
                    < (#[trigger] self@.children[b]).task_id by {
                    if b == k && a < k - 1 {
                        assert(self@.children[a].task_id < self@.children[k - 1].task_id);
                    }
                }
            }
            k += 1;
        }
        true
    }

    /// Whether the process map holds an entry exactly for the running tasks.
    fn process_map_is_consistent(&self) -> (b: bool)
        requires
            ids_increasing(self@.state.tasks),
        ensures
            b == self@.process_map_consistent(),
    {
        let mut k: usize = 0;
        while k < self.children.len()
            invariant
                k <= self.children.len(),
                ids_increasing(self@.state.tasks),
                forall|a: int|
                    0 <= a < k ==> is_running(self@.state.tasks, (#[trigger] self@.children[a]).task_id),
            decreases self.children.len() - k,
        {
            let id = self.children[k].task_id;
            let running = match self.state.find_task(id) {
                Some(i) => {
                    proof {
                        lemma_task_pos(self@.state.tasks, i as int);
                    }
                    self.state.tasks[i].status == TaskStatus::Running
                },
                None => false,
            };
            if !running {
                proof {
                    assert(has_child(self@.children, self@.children[k as int].task_id));
                    if is_running(self@.state.tasks, id) {
                        let j = choose|j: int|
                            0 <= j < self@.state.tasks.len() && (#[trigger] self@.state.tasks[j]).id == id
                                && self@.state.tasks[j].status == TaskStatus::Running;
                        lemma_task_pos(self@.state.tasks, j);
                    }
                }
                return false;
            }
            proof {
                let i = task_pos(self@.state.tasks, id);
                assert(self@.state.tasks[i].id == id && self@.state.tasks[i].status == TaskStatus::Running);
            }
            k += 1;
        }
        let mut i: usize = 0;
        while i < self.state.tasks.len()
            invariant
                i <= self.state.tasks.len(),
                forall|a: int|
                    0 <= a < i && (#[trigger] self@.state.tasks[a]).status == TaskStatus::Running
                        ==> has_child(self@.children, self@.state.tasks[a].id),
            decreases self.state.tasks.len() - i,
        {
            if self.state.tasks[i].status == TaskStatus::Running && self.find_child(self.state.tasks[i].id).is_none() {
                assert(is_running(self@.state.tasks, self@.state.tasks[i as int].id));
                return false;
            }
            i += 1;
        }
        proof {
            assert forall|id: usize| has_child(self@.children, id) <==> is_running(self@.state.tasks, id) by {
                if has_child(self@.children, id) {
                    let a = child_pos(self@.children, id);
                    assert(is_running(self@.state.tasks, self@.children[a].task_id));
                }
                if is_running(self@.state.tasks, id) {
                    let j = choose|j: int|
                        0 <= j < self@.state.tasks.len() && (#[trigger] self@.state.tasks[j]).id == id
                            && self@.state.tasks[j].status == TaskStatus::Running;
                    assert(has_child(self@.children, self@.state.tasks[j].id));
                }
            }
        }
        true
    }

    /// Decides whether the invariant of the handler holds.
    pub fn is_valid(&self) -> (b: bool)
        ensures
            b == self.wf(),
    {
        self.state.is_valid() && self.children_are_ordered() && self.process_map_is_consistent()
    }

    /// Creates a handler around a state that comes from outside: succeeds
    /// exactly if the state satisfies its invariant and none of its tasks
    /// runs.
    pub fn restore(state: State) -> (r: Option<TaskHandler>)
        ensures
            r is Some <==> state.wf() && (forall|id: usize| !is_running(state@.tasks, id)),
            r matches Some(handler) ==> handler.wf() && handler@.state == state@ && handler@.children.len()
                == 0 && !handler@.full_reset,
    {
        if state.is_valid() && state.is_idle() {
            Some(TaskHandler::new(state))
        } else {
            None
        }
    }
}

} // verus!
