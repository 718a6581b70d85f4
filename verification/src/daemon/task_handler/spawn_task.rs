use vstd::prelude::*;
use crate::daemon::task_handler::{Effect, HandlerView, TaskHandler, lemma_start_keeps_wf};
use crate::task::TaskStatus;

verus! {

impl HandlerView {
    /// The handler after the scheduler has looked at the first `n` tasks of
    /// the table, in order, and has started each that was eligible at its turn.
    pub open spec fn spawn_upto(self, n: int, now: i64) -> HandlerView
        decreases n,
    {
        if n <= 0 {
            self
        } else {
            let h = self.spawn_upto(n - 1, now);
            if h.eligible(n - 1) {
                h.start_at(n - 1, now)
            } else {
                h
            }
        }
    }

    /// The processes to spawn for the tasks started among the first `n`.
    pub open spec fn spawned_upto(self, n: int, now: i64) -> Seq<Effect>
        decreases n,
    {
        if n <= 0 {
            Seq::empty()
        } else {
            let h = self.spawn_upto(n - 1, now);
            let rest = self.spawned_upto(n - 1, now);
            if h.eligible(n - 1) {
                rest.push(Effect::Spawn(h.state.tasks[n - 1].id))
            } else {
                rest
            }
        }
    }

    /// The handler after one scheduling pass at `now`.
    pub open spec fn spawn_new(self, now: i64) -> HandlerView {
        self.spawn_upto(self.state.tasks.len() as int, now)
    }

    /// What one scheduling pass at `now` asks of the caller: to spawn the
    /// processes of the started tasks and then, if any was started, to
    /// write one snapshot.
    pub open spec fn spawn_effects(self, now: i64) -> Seq<Effect> {
        let spawned = self.spawned_upto(self.state.tasks.len() as int, now);
        if spawned.len() == 0 {
            spawned
        } else {
            spawned.push(Effect::Save)
        }
    }
}

/// A scheduling pass keeps the invariant, the length of the table and
/// everything but the tasks and the process map.
pub proof fn lemma_spawn_upto(h: HandlerView, n: int, now: i64)
    requires
        h.wf(),
        n <= h.state.tasks.len(),
    ensures
        h.spawn_upto(n, now).wf(),
        h.spawn_upto(n, now).state.tasks.len() == h.state.tasks.len(),
        h.spawn_upto(n, now).state.with_tasks(h.state.tasks) == h.state,
        h.spawn_upto(n, now).full_reset == h.full_reset,
    decreases n,
{
    if n > 0 {
        lemma_spawn_upto(h, n - 1, now);
        let before = h.spawn_upto(n - 1, now);
        if before.eligible(n - 1) {
            lemma_start_keeps_wf(before, n - 1, now);
        }
    }
}

impl TaskHandler {
    /// Whether the scheduler starts the task at position `i` now.
    pub fn is_eligible(&self, i: usize) -> (b: bool)
        requires
            self.wf(),
            i < self.state.tasks.len(),
        ensures
            b == self@.eligible(i as int),
    {
        !self.full_reset && self.state.tasks[i].status == TaskStatus::Queued && self.state.may_schedule(
            &self.state.tasks[i].group,
        )
    }

    /// One scheduling pass: starts every queued task, in ascending order of
    /// id, whose group is not paused and has a free slot, unless the daemon is
    /// paused or being reset. The caller spawns the processes and stores a
    /// snapshot.
    pub fn spawn_new(&mut self, now: i64) -> (effects: Vec<Effect>)
        requires
            old(self).wf(),
        ensures
            final(self).wf(),
            final(self)@ == old(self)@.spawn_new(now),
            effects@ == old(self)@.spawn_effects(now),
    {
        let mut effects: Vec<Effect> = Vec::new();
        let n = self.state.tasks.len();
        let mut i: usize = 0;
        while i < n
            invariant
                i <= n,
                n == old(self)@.state.tasks.len(),
                n == self.state.tasks.len(),
                old(self).wf(),
                self.wf(),
                self@ == old(self)@.spawn_upto(i as int, now),
                effects@ == old(self)@.spawned_upto(i as int, now),
            decreases n - i,
        {
            if self.is_eligible(i) {
                let id = self.state.tasks[i].id;
                self.start_task(i, now);
                effects.push(Effect::Spawn(id));
            }
            i += 1;
        }
        if effects.len() > 0 {
            effects.push(Effect::Save);
        }
        effects
    }
}

} // verus!
