use vstd::prelude::*;
use crate::daemon::task_handler::spawn_task::lemma_spawn_upto;
use crate::daemon::task_handler::HandlerView;
use crate::laws::cascade::lemma_spawn_upto_tasks;
use crate::state::{has_free_slot, lemma_running_in_update};
use crate::task::TaskStatus;

verus! {

/// Among the first `n` tasks none is left that the scheduler could start
/// after it has looked at them.
proof fn lemma_spawn_upto_saturates(h: HandlerView, n: int, now: i64)
    requires
        h.wf(),
        0 <= n <= h.state.tasks.len(),
    ensures
        forall|i: int| 0 <= i < n ==> !h.spawn_upto(n, now).eligible(i),
    decreases n,
{
    if n > 0 {
        lemma_spawn_upto_saturates(h, n - 1, now);
        lemma_spawn_upto(h, n - 1, now);
        let b = h.spawn_upto(n - 1, now);
        let r = h.spawn_upto(n, now);
        if b.eligible(n - 1) {
            let started = b.state.tasks[n - 1].started(now);
            assert forall|i: int| 0 <= i < n implies !r.eligible(i) by {
                if i < n - 1 {
                    assert(!b.eligible(i));
                    let group = b.state.tasks[i].group;
                    lemma_running_in_update(b.state.tasks, n - 1, started, group);
                    assert(has_free_slot(r.state.tasks, r.state.groups, group) ==> has_free_slot(
                        b.state.tasks,
                        b.state.groups,
                        group,
                    ));
                }
            }
        }
    }
}

/// What one scheduling pass does. It starts a task only if the task was
/// queued and neither a pause nor a reset kept it back, and leaves every
/// other task, every group and every pause flag as they were. When it is
/// over, nothing is left to start: no queued task remains whose group is
/// free to run one more.
pub proof fn law_scheduling_pass(h: HandlerView, now: i64)
    requires
        h.wf(),
    ensures
        h.spawn_new(now).wf(),
        h.spawn_new(now).state.tasks.len() == h.state.tasks.len(),
        h.spawn_new(now).state.groups == h.state.groups,
        h.spawn_new(now).state.paused == h.state.paused,
        h.spawn_new(now).state.next_id == h.state.next_id,
        h.spawn_new(now).full_reset == h.full_reset,
        forall|i: int|
            0 <= i < h.state.tasks.len() ==> #[trigger] h.spawn_new(now).state.tasks[i]
                == h.state.tasks[i] || (h.state.tasks[i].status == TaskStatus::Queued && !h.full_reset
                && !h.state.blocks(h.state.tasks[i].group) && h.spawn_new(now).state.tasks[i]
                == h.state.tasks[i].started(now)),
        forall|i: int| 0 <= i < h.state.tasks.len() ==> !h.spawn_new(now).eligible(i),
{
    let n = h.state.tasks.len() as int;
    lemma_spawn_upto(h, n, now);
    lemma_spawn_upto_tasks(h, n, now);
    lemma_spawn_upto_saturates(h, n, now);
    assert(h.spawn_new(now).state.with_tasks(h.state.tasks) == h.state);
}

} // verus!
