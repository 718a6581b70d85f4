use vstd::prelude::*;
use crate::task::{Task, TaskStatus, TaskView, task_views};

verus! {

/// A named concurrency domain.
#[derive(Debug)]
pub struct Group {
    pub name: String,
    /// How many tasks of the group may run at the same time.
    pub parallel_limit: usize,
    /// While set, the scheduler starts no task of the group.
    pub paused: bool,
}

/// The mathematical value of a [`Group`].
pub struct GroupView {
    pub name: Seq<char>,
    pub parallel_limit: usize,
    pub paused: bool,
}

impl GroupView {
    /// This group with another pause flag.
    pub open spec fn with_paused(self, paused: bool) -> GroupView {
        GroupView { paused, ..self }
    }
}

impl View for Group {
    type V = GroupView;

    open spec fn view(&self) -> GroupView {
        GroupView { name: self.name@, parallel_limit: self.parallel_limit, paused: self.paused }
    }
}

impl Clone for Group {
    fn clone(&self) -> (g: Group)
        ensures
            g@ == self@,
    {
        Group { name: self.name.clone(), parallel_limit: self.parallel_limit, paused: self.paused }
    }
}

/// The views of a sequence of groups, in order.
pub open spec fn group_views(groups: Seq<Group>) -> Seq<GroupView> {
    groups.map_values(|g: Group| g@)
}

/// The name of the group that tasks join when they name none.
pub open spec fn default_group() -> Seq<char> {
    "default"@
}

/// Whether the table holds a task with this id.
pub open spec fn has_task(tasks: Seq<TaskView>, id: usize) -> bool {
    exists|i: int| 0 <= i < tasks.len() && (#[trigger] tasks[i]).id == id
}

/// The position of the task with this id, where the table holds one.
pub open spec fn task_pos(tasks: Seq<TaskView>, id: usize) -> int {
    choose|i: int| 0 <= i < tasks.len() && (#[trigger] tasks[i]).id == id
}

/// The table is ordered by strictly ascending id, so no id occurs twice.
pub open spec fn ids_increasing(tasks: Seq<TaskView>) -> bool {
    forall|i: int, j: int|
        #![trigger tasks[i], tasks[j]]
        0 <= i < j < tasks.len() ==> tasks[i].id < tasks[j].id
}

/// Whether a group of this name is configured.
pub open spec fn has_group(groups: Seq<GroupView>, name: Seq<char>) -> bool {
    exists|g: int| 0 <= g < groups.len() && (#[trigger] groups[g]).name == name
}

/// The position of the group of this name, where one is configured.
pub open spec fn group_pos(groups: Seq<GroupView>, name: Seq<char>) -> int {
    choose|g: int| 0 <= g < groups.len() && (#[trigger] groups[g]).name == name
}

/// No two groups share a name.
pub open spec fn names_distinct(groups: Seq<GroupView>) -> bool {
    forall|g: int, h: int|
        #![trigger groups[g], groups[h]]
        0 <= g < h < groups.len() ==> groups[g].name != groups[h].name
}

/// What one task adds to the number of running tasks of `group`.
pub open spec fn occupies(t: TaskView, group: Seq<char>) -> nat {
    if t.status == TaskStatus::Running && t.group == group {
        1
    } else {
        0
    }
}

/// The number of running tasks that belong to `group`.
pub open spec fn running_in(tasks: Seq<TaskView>, group: Seq<char>) -> nat
    decreases tasks.len(),
{
    if tasks.len() == 0 {
        0
    } else {
        running_in(tasks.drop_last(), group) + occupies(tasks.last(), group)
    }
}

/// No group runs more tasks than its limit allows.
pub open spec fn within_capacity(tasks: Seq<TaskView>, groups: Seq<GroupView>) -> bool {
    forall|g: int|
        0 <= g < groups.len() ==> running_in(tasks, (#[trigger] groups[g]).name)
            <= groups[g].parallel_limit
}

/// Whether `name` is a configured group that could run one more task.
pub open spec fn has_free_slot(tasks: Seq<TaskView>, groups: Seq<GroupView>, name: Seq<char>) -> bool {
    has_group(groups, name) && running_in(tasks, name) < groups[group_pos(groups, name)].parallel_limit
}

/// The mathematical value of a [`State`].
pub struct StateView {
    pub tasks: Seq<TaskView>,
    pub groups: Seq<GroupView>,
    pub paused: bool,
    pub next_id: usize,
    pub pause_group_on_failure: bool,
    pub pause_all_on_failure: bool,
}

impl StateView {
    /// The invariant of the shared state.
    pub open spec fn wf(self) -> bool {
        &&& ids_increasing(self.tasks)
        &&& forall|i: int| 0 <= i < self.tasks.len() ==> (#[trigger] self.tasks[i]).id < self.next_id
        &&& forall|i: int| 0 <= i < self.tasks.len() ==> (#[trigger] self.tasks[i]).result_matches_status()
        &&& forall|i: int| 0 <= i < self.tasks.len() ==> has_group(self.groups, (#[trigger] self.tasks[i]).group)
        &&& names_distinct(self.groups)
        &&& within_capacity(self.tasks, self.groups)
    }

    /// Whether the scheduler may start a task of `group` now.
    pub open spec fn may_schedule(self, group: Seq<char>) -> bool {
        &&& !self.paused
        &&& has_free_slot(self.tasks, self.groups, group)
        &&& !self.groups[group_pos(self.groups, group)].paused
    }

    /// This state with another task table.
    pub open spec fn with_tasks(self, tasks: Seq<TaskView>) -> StateView {
        StateView { tasks, ..self }
    }

    /// This state with the pause flag of the group at position `g` set to `paused`.
    pub open spec fn with_group_paused(self, g: int, paused: bool) -> StateView {
        StateView { groups: self.groups.update(g, self.groups[g].with_paused(paused)), ..self }
    }

    /// This state with the daemon-wide pause flag set to `paused`.
    pub open spec fn with_paused(self, paused: bool) -> StateView {
        StateView { paused, ..self }
    }

    /// The state after a task of `group` has failed: with pause-all set the
    /// whole daemon is paused, else with pause-group set the group is.
    pub open spec fn after_failure(self, group: Seq<char>) -> StateView {
        if self.pause_all_on_failure {
            self.with_paused(true)
        } else if self.pause_group_on_failure && has_group(self.groups, group) {
            self.with_group_paused(group_pos(self.groups, group), true)
        } else {
            self
        }
    }
}

impl StateView {
    /// The state of a daemon that has just been configured: no task, the
    /// default group alone, nothing paused.
    pub open spec fn initial(
        default_parallel_tasks: usize,
        pause_group_on_failure: bool,
        pause_all_on_failure: bool,
    ) -> StateView {
        StateView {
            tasks: Seq::empty(),
            groups: seq![
                GroupView { name: default_group(), parallel_limit: default_parallel_tasks, paused: false },
            ],
            paused: false,
            next_id: 0,
            pause_group_on_failure,
            pause_all_on_failure,
        }
    }

    /// This state with one more group.
    pub open spec fn with_group(self, group: GroupView) -> StateView {
        StateView { groups: self.groups.push(group), ..self }
    }
}

/// In an id-ordered table every task is found at its own position.
pub proof fn lemma_task_pos(tasks: Seq<TaskView>, i: int)
    requires
        ids_increasing(tasks),
        0 <= i < tasks.len(),
    ensures
        has_task(tasks, tasks[i].id),
        task_pos(tasks, tasks[i].id) == i,
{
    let id = tasks[i].id;
    let p = task_pos(tasks, id);
    assert(0 <= p < tasks.len() && tasks[p].id == id);
    if p < i {
        assert(tasks[p].id < tasks[i].id);
    } else if i < p {
        assert(tasks[i].id < tasks[p].id);
    }
}

/// Among distinct names every group is found at its own position.
pub proof fn lemma_group_pos(groups: Seq<GroupView>, g: int)
    requires
        names_distinct(groups),
        0 <= g < groups.len(),
    ensures
        has_group(groups, groups[g].name),
        group_pos(groups, groups[g].name) == g,
{
    let name = groups[g].name;
    let p = group_pos(groups, name);
    assert(0 <= p < groups.len() && groups[p].name == name);
    if p < g {
        assert(groups[p].name != groups[g].name);
    } else if g < p {
        assert(groups[g].name != groups[p].name);
    }
}

/// A task appended to the table counts for its own group alone.
pub proof fn lemma_running_in_push(tasks: Seq<TaskView>, t: TaskView, group: Seq<char>)
    ensures
        running_in(tasks.push(t), group) == running_in(tasks, group) + occupies(t, group),
{
    assert(tasks.push(t).drop_last() =~= tasks);
}

/// Replacing one task changes the count by what the two tasks occupy.
pub proof fn lemma_running_in_update(tasks: Seq<TaskView>, i: int, t: TaskView, group: Seq<char>)
    requires
        0 <= i < tasks.len(),
    ensures
        running_in(tasks.update(i, t), group) + occupies(tasks[i], group) == running_in(tasks, group)
            + occupies(t, group),
    decreases tasks.len(),
{
    if i == tasks.len() - 1 {
        assert(tasks.update(i, t).drop_last() =~= tasks.drop_last());
    } else {
        lemma_running_in_update(tasks.drop_last(), i, t, group);
        assert(tasks.update(i, t).drop_last() =~= tasks.drop_last().update(i, t));
    }
}

/// Taking one task out lowers the count by what it occupied.
pub proof fn lemma_running_in_remove(tasks: Seq<TaskView>, i: int, group: Seq<char>)
    requires
        0 <= i < tasks.len(),
    ensures
        running_in(tasks.remove(i), group) + occupies(tasks[i], group) == running_in(tasks, group),
    decreases tasks.len(),
{
    if i == tasks.len() - 1 {
        assert(tasks.remove(i) =~= tasks.drop_last());
    } else {
        lemma_running_in_remove(tasks.drop_last(), i, group);
        assert(tasks.remove(i).drop_last() =~= tasks.drop_last().remove(i));
        assert(tasks.remove(i).last() == tasks.last());
    }
}

/// A group that no task names runs nothing.
pub proof fn lemma_running_in_unused(tasks: Seq<TaskView>, group: Seq<char>)
    requires
        forall|i: int| 0 <= i < tasks.len() ==> (#[trigger] tasks[i]).group != group,
    ensures
        running_in(tasks, group) == 0,
    decreases tasks.len(),
{
    if tasks.len() > 0 {
        lemma_running_in_unused(tasks.drop_last(), group);
    }
}

/// Pausing or resuming a group leaves every lookup by name as it was.
pub proof fn lemma_flag_keeps_lookup(groups: Seq<GroupView>, g: int, paused: bool, name: Seq<char>)
    requires
        names_distinct(groups),
        0 <= g < groups.len(),
    ensures
        names_distinct(groups.update(g, groups[g].with_paused(paused))),
        has_group(groups.update(g, groups[g].with_paused(paused)), name) == has_group(groups, name),
        has_group(groups, name) ==> group_pos(groups.update(g, groups[g].with_paused(paused)), name)
            == group_pos(groups, name),
{
    let after = groups.update(g, groups[g].with_paused(paused));
    assert forall|k: int| 0 <= k < groups.len() implies (#[trigger] after[k]).name == groups[k].name by {}
    if has_group(groups, name) {
        let p = group_pos(groups, name);
        assert(after[p].name == name);
        lemma_group_pos(after, p);
    }
    if has_group(after, name) {
        let p = group_pos(after, name);
        assert(groups[p].name == name);
    }
}

/// Pausing or resuming a group keeps the invariant of the state.
pub proof fn lemma_flag_keeps_wf(s: StateView, g: int, paused: bool)
    requires
        s.wf(),
        0 <= g < s.groups.len(),
    ensures
        s.with_group_paused(g, paused).wf(),
{
    let after = s.groups.update(g, s.groups[g].with_paused(paused));
    assert forall|i: int| 0 <= i < s.tasks.len() implies has_group(after, (#[trigger] s.tasks[i]).group) by {
        lemma_flag_keeps_lookup(s.groups, g, paused, s.tasks[i].group);
    }
    lemma_flag_keeps_lookup(s.groups, g, paused, s.groups[g].name);
    assert forall|k: int| 0 <= k < after.len() implies running_in(s.tasks, (#[trigger] after[k]).name)
        <= after[k].parallel_limit by {
        assert(after[k].name == s.groups[k].name);
        assert(after[k].parallel_limit == s.groups[k].parallel_limit);
    }
}

/// The shared state: the task table, the groups and the daemon-wide switches.
#[derive(Debug)]
pub struct State {
    /// The tasks, ordered by ascending id.
    pub tasks: Vec<Task>,
    /// The configured groups.
    pub groups: Vec<Group>,
    /// While set, the scheduler starts no task at all.
    pub paused: bool,
    /// The id that the next new task receives.
    pub next_id: usize,
    pub pause_group_on_failure: bool,
    pub pause_all_on_failure: bool,
}

impl View for State {
    type V = StateView;

    open spec fn view(&self) -> StateView {
        StateView {
            tasks: task_views(self.tasks@),
            groups: group_views(self.groups@),
            paused: self.paused,
            next_id: self.next_id,
            pause_group_on_failure: self.pause_group_on_failure,
            pause_all_on_failure: self.pause_all_on_failure,
        }
    }
}

impl State {
    /// The invariant of the shared state.
    pub open spec fn wf(&self) -> bool {
        self@.wf()
    }

    /// Creates the state of a freshly configured daemon.
    pub fn new(default_parallel_tasks: usize, pause_group_on_failure: bool, pause_all_on_failure: bool) -> (s: State)
        ensures
            s.wf(),
            s@ == StateView::initial(default_parallel_tasks, pause_group_on_failure, pause_all_on_failure),
    {
        let mut groups: Vec<Group> = Vec::new();
        groups.push(Group { name: String::from_str("default"), parallel_limit: default_parallel_tasks, paused: false });
        let s = State {
            tasks: Vec::new(),
            groups,
            paused: false,
            next_id: 0,
            pause_group_on_failure,
            pause_all_on_failure,
        };
        proof {
            let init = StateView::initial(default_parallel_tasks, pause_group_on_failure, pause_all_on_failure);
            assert(s@.tasks =~= init.tasks);
            assert(s@.groups =~= init.groups);
        }
        s
    }

    /// Configures one more group, unless a group of that name exists.
    pub fn add_group(&mut self, name: String, parallel_limit: usize) -> (added: bool)
        requires
            old(self).wf(),
        ensures
            final(self).wf(),
            added == !has_group(old(self)@.groups, name@),
            final(self)@ == if added {
                old(self)@.with_group(GroupView { name: name@, parallel_limit, paused: false })
            } else {
                old(self)@
            },
    {
        if self.find_group(&name).is_some() {
            return false;
        }
        let ghost before = self@;
        let ghost group = GroupView { name: name@, parallel_limit, paused: false };
        self.groups.push(Group { name, parallel_limit, paused: false });
        proof {
            let after = self@;
            assert(after.groups =~= before.groups.push(group));
            assert(after.tasks == before.tasks);
            assert forall|i: int| 0 <= i < after.tasks.len() implies has_group(
                after.groups,
                (#[trigger] after.tasks[i]).group,
            ) by {
                let p = group_pos(before.groups, before.tasks[i].group);
                assert(after.groups[p].name == before.tasks[i].group);
            }
            assert forall|i: int| 0 <= i < before.tasks.len() implies (#[trigger] before.tasks[i]).group
                != group.name by {}
            lemma_running_in_unused(before.tasks, group.name);
            assert forall|k: int| 0 <= k < after.groups.len() implies running_in(
                after.tasks,
                (#[trigger] after.groups[k]).name,
            ) <= after.groups[k].parallel_limit by {
                if k < before.groups.len() {
                    assert(after.groups[k] == before.groups[k]);
                }
            }
        }
        true
    }

    /// Looks a task up by its id and returns the first position in the table
    /// at which it stands.
    pub fn find_task(&self, id: usize) -> (r: Option<usize>)
        ensures
            r is Some <==> has_task(self@.tasks, id),
            r matches Some(i) ==> i < self.tasks.len() && self@.tasks[i as int].id == id && forall|j: int|
                0 <= j < i ==> (#[trigger] self@.tasks[j]).id != id,
    {
        let mut i: usize = 0;
        while i < self.tasks.len()
            invariant
                i <= self.tasks.len(),
                forall|j: int| 0 <= j < i ==> (#[trigger] self@.tasks[j]).id != id,
            decreases self.tasks.len() - i,
        {
            if self.tasks[i].id == id {
                return Some(i);
            }
            i += 1;
        }
        None
    }

    /// Looks a group up by its name and returns the first position at which
    /// it stands.
    pub fn find_group(&self, name: &String) -> (r: Option<usize>)
        ensures
            r is Some <==> has_group(self@.groups, name@),
            r matches Some(g) ==> g < self.groups.len() && self@.groups[g as int].name == name@
                && forall|j: int| 0 <= j < g ==> (#[trigger] self@.groups[j]).name != name@,
    {
        let mut g: usize = 0;
        while g < self.groups.len()
            invariant
                g <= self.groups.len(),
                forall|j: int| 0 <= j < g ==> (#[trigger] self@.groups[j]).name != name@,
            decreases self.groups.len() - g,
        {
            if self.groups[g].name == *name {
                assert(self@.groups[g as int].name == name@);
                return Some(g);
            }
            g += 1;
        }
        None
    }

    /// Counts the running tasks of a group.
    pub fn running_in_group(&self, name: &String) -> (n: usize)
        ensures
            n == running_in(self@.tasks, name@),
    {
        let mut n: usize = 0;
        let mut i: usize = 0;
        while i < self.tasks.len()
            invariant
                i <= self.tasks.len(),
                n == running_in(self@.tasks.take(i as int), name@),
                n <= i,
            decreases self.tasks.len() - i,
        {
            proof {
                let prefix = self@.tasks.take(i as int);
                assert(self@.tasks.take(i + 1) =~= prefix.push(self@.tasks[i as int]));
                lemma_running_in_push(prefix, self@.tasks[i as int], name@);
            }
            if self.tasks[i].status == TaskStatus::Running && self.tasks[i].group == *name {
                n += 1;
            }
            i += 1;
        }
        proof {
            assert(self@.tasks.take(i as int) =~= self@.tasks);
        }
        n
    }

    /// Whether `name` is a configured group that could run one more task.
    pub fn has_free_slot(&self, name: &String) -> (b: bool)
        requires
            self.wf(),
        ensures
            b == has_free_slot(self@.tasks, self@.groups, name@),
    {
        match self.find_group(name) {
            Some(g) => {
                proof {
                    lemma_group_pos(self@.groups, g as int);
                }
                self.running_in_group(name) < self.groups[g].parallel_limit
            },
            None => false,
        }
    }

    /// Whether the scheduler may start a task of `name` now: nothing in the
    /// way is paused and the group has a free slot.
    pub fn may_schedule(&self, name: &String) -> (b: bool)
        requires
            self.wf(),
        ensures
            b == self@.may_schedule(name@),
    {
        if self.paused {
            return false;
        }
        match self.find_group(name) {
            Some(g) => {
                proof {
                    lemma_group_pos(self@.groups, g as int);
                }
                !self.groups[g].paused && self.running_in_group(name) < self.groups[g].parallel_limit
            },
            None => false,
        }
    }

    /// Applies the failure policy after a task of `group` has failed.
    pub fn handle_task_failure(&mut self, group: &String)
        requires
            old(self).wf(),
        ensures
            final(self).wf(),
            final(self)@ == old(self)@.after_failure(group@),
    {
        if self.pause_all_on_failure {
            self.paused = true;
            return ;
        }
        if self.pause_group_on_failure {
            if let Some(g) = self.find_group(group) {
                let ghost before = self@;
                self.groups[g].paused = true;
                proof {
                    lemma_group_pos(before.groups, g as int);
                    lemma_flag_keeps_wf(before, g as int, true);
                    assert(self@.groups =~= before.groups.update(g as int, before.groups[g as int].with_paused(true)));
                }
            }
        }
    }
}

impl Clone for State {
    /// A snapshot of the state.
    fn clone(&self) -> (s: State)
        ensures
            s@ == self@,
    {
        let mut tasks: Vec<Task> = Vec::new();
        let mut i: usize = 0;
        while i < self.tasks.len()
            invariant
                i <= self.tasks.len(),
                tasks.len() == i,
                task_views(tasks@) == task_views(self.tasks@).take(i as int),
            decreases self.tasks.len() - i,
        {
            let ghost copied = task_views(tasks@);
            tasks.push(self.tasks[i].clone());
            i += 1;
            proof {
                assert forall|j: int| 0 <= j < i implies task_views(tasks@)[j] == task_views(self.tasks@)[j] by {
                    if j < i - 1 {
                        assert(task_views(tasks@)[j] == copied[j]);
                    }
                }
                assert(task_views(tasks@) =~= task_views(self.tasks@).take(i as int));
            }
        }
        let mut groups: Vec<Group> = Vec::new();
        let mut g: usize = 0;
        while g < self.groups.len()
            invariant
                g <= self.groups.len(),
                groups.len() == g,
                group_views(groups@) == group_views(self.groups@).take(g as int),
            decreases self.groups.len() - g,
        {
            let ghost copied = group_views(groups@);
            groups.push(self.groups[g].clone());
            g += 1;
            proof {
                assert forall|j: int| 0 <= j < g implies group_views(groups@)[j] == group_views(self.groups@)[j] by {
                    if j < g - 1 {
                        assert(group_views(groups@)[j] == copied[j]);
                    }
                }
                assert(group_views(groups@) =~= group_views(self.groups@).take(g as int));
            }
        }
        proof {
            assert(task_views(self.tasks@).take(i as int) =~= task_views(self.tasks@));
            assert(group_views(self.groups@).take(g as int) =~= group_views(self.groups@));
        }
        State {
            tasks,
            groups,
            paused: self.paused,
            next_id: self.next_id,
            pause_group_on_failure: self.pause_group_on_failure,
            pause_all_on_failure: self.pause_all_on_failure,
        }
    }
}

} // verus!
