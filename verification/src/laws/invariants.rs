use vstd::prelude::*;
use crate::daemon::message_handler::lemma_handle_message_keeps_wf;
use crate::daemon::task_handler::finish_task::{lemma_polled_keeps_wf, lemma_spawn_failed_keeps_wf};
use crate::daemon::task_handler::reset::lemma_cleared_is_wf;
use crate::daemon::task_handler::spawn_task::lemma_spawn_upto;
use crate::daemon::task_handler::{ChildState, HandlerView, has_child, is_running};
use crate::laws::reaping::law_reaping_pass;
use crate::message::MessageView;
use crate::state::running_in;

verus! {

/// Anything that can happen to the handler.
pub enum Event {
    /// A request of a client arrives.
    Request { message: MessageView, now: i64 },
    /// The process of the started task `id` could not be spawned.
    SpawnFailed { id: usize },
    /// A poll of the process of task `id` shows `state`.
    Poll { id: usize, state: ChildState },
    /// A reaping pass.
    Reap { now: i64 },
    /// A due reset is completed.
    CompleteReset,
    /// A scheduling pass.
    Schedule { now: i64 },
}

impl HandlerView {
    /// The handler after `event`.
    pub open spec fn step(self, event: Event) -> HandlerView {
        match event {
            Event::Request { message, now } => self.handle_message(message, now).handler,
            Event::SpawnFailed { id } => self.spawn_failed(id),
            Event::Poll { id, state } => self.polled(id, state),
            Event::Reap { now } => self.reap(now),
            Event::CompleteReset => self.handle_reset(),
            Event::Schedule { now } => self.spawn_new(now),
        }
    }

    /// The handler after `events`, in order.
    pub open spec fn run(self, events: Seq<Event>) -> HandlerView
        decreases events.len(),
    {
        if events.len() == 0 {
            self
        } else {
            self.run(events.drop_last()).step(events.last())
        }
    }
}

/// Whatever happens, the invariant of the handler holds afterwards.
pub proof fn law_step_keeps_invariant(h: HandlerView, event: Event)
    requires
        h.wf(),
    ensures
        h.step(event).wf(),
{
    match event {
        Event::Request { message, now } => {
            lemma_handle_message_keeps_wf(h, message, now);
        },
        Event::SpawnFailed { id } => {
            lemma_spawn_failed_keeps_wf(h, id);
        },
        Event::Poll { id, state } => {
            lemma_polled_keeps_wf(h, id, state);
        },
        Event::Reap { now } => {
            law_reaping_pass(h, now);
        },
        Event::CompleteReset => {
            if h.reset_is_due() {
                lemma_cleared_is_wf(h);
            }
        },
        Event::Schedule { now } => {
            lemma_spawn_upto(h, h.state.tasks.len() as int, now);
        },
    }
}

/// The invariant holds in every state that a handler reaches, whatever the
/// requests, polls and passes are and however they interleave.
pub proof fn law_invariant_always_holds(h: HandlerView, events: Seq<Event>)
    requires
        h.wf(),
    ensures
        h.run(events).wf(),
    decreases events.len(),
{
    if events.len() > 0 {
        law_invariant_always_holds(h, events.drop_last());
        law_step_keeps_invariant(h.run(events.drop_last()), events.last());
    }
}

/// In every state that a handler reaches, the process map holds an entry
/// for a task if and only if that task is running.
pub proof fn law_process_map_matches_running(h: HandlerView, events: Seq<Event>, id: usize)
    requires
        h.wf(),
    ensures
        has_child(h.run(events).children, id) <==> is_running(h.run(events).state.tasks, id),
{
    law_invariant_always_holds(h, events);
}

/// In every state that a handler reaches, no group runs more tasks than
/// its limit allows.
pub proof fn law_group_capacity(h: HandlerView, events: Seq<Event>, g: int)
    requires
        h.wf(),
        0 <= g < h.run(events).state.groups.len(),
    ensures
        running_in(h.run(events).state.tasks, h.run(events).state.groups[g].name) <= h.run(
            events,
        ).state.groups[g].parallel_limit,
{
    law_invariant_always_holds(h, events);
}

/// In every state that a handler reaches, a task has a result if and only
/// if it is done.
pub proof fn law_result_only_when_done(h: HandlerView, events: Seq<Event>, i: int)
    requires
        h.wf(),
        0 <= i < h.run(events).state.tasks.len(),
    ensures
        h.run(events).state.tasks[i].result_matches_status(),
{
    law_invariant_always_holds(h, events);
}

} // verus!
