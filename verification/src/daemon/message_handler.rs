use vstd::prelude::*;
use crate::daemon::task_handler::messages::{
    TaskCommand, lemma_apply_each_keeps_wf, lemma_submit_keeps_wf,
};
use crate::daemon::task_handler::add::group_or_default;
use crate::daemon::task_handler::pause::lemma_start_all_keeps_wf;
use crate::daemon::task_handler::reset::{clean_effects, lemma_clean_keeps_wf, lemma_cleared_is_wf};
use crate::daemon::task_handler::{Effect, HandlerView, TaskHandler};
use crate::message::{Message, MessageView, Rejection, Response, ResponseView};

verus! {

/// What the daemon did with one request.
pub struct Handled {
    pub handler: HandlerView,
    pub response: ResponseView,
    /// What the caller has to do, in this order.
    pub effects: Seq<Effect>,
}

/// The effects of a request that asks for at most one.
pub open spec fn effect_list(effect: Option<Effect>) -> Seq<Effect> {
    match effect {
        Some(e) => seq![e],
        None => Seq::empty(),
    }
}

impl HandlerView {
    /// The request as a whole is turned down: nothing changes and nothing is to be done.
    pub open spec fn turn_down(self, rejection: Rejection) -> Handled {
        Handled { handler: self, response: ResponseView::Failure(rejection), effects: Seq::empty() }
    }

    /// The request is carried out task by task; a snapshot follows.
    pub open spec fn handle_tasks(self, command: TaskCommand, ids: Seq<i32>, now: i64) -> Handled {
        let batch = self.apply_each(command, ids, now);
        Handled {
            handler: batch.handler,
            response: ResponseView::Tasks(batch.replies),
            effects: batch.effects.push(Effect::Save),
        }
    }

    /// What the daemon does with a request that arrives at `now`. Every
    /// request but a status query and one turned down as a whole is followed
    /// by a snapshot.
    pub open spec fn handle_message(self, message: MessageView, now: i64) -> Handled {
        match message {
            MessageView::Add { command, arguments, path, group, start_immediately } => {
                let step = self.add(command, arguments, path, group, start_immediately, now);
                match step.rejection {
                    Some(rejection) => self.turn_down(rejection),
                    None => Handled {
                        handler: step.handler,
                        response: ResponseView::Added(self.state.next_id),
                        effects: effect_list(step.effect).push(Effect::Save),
                    },
                }
            },
            MessageView::Remove { task_ids } => self.handle_tasks(TaskCommand::Remove, task_ids, now),
            MessageView::Start { task_ids } => match task_ids {
                Some(ids) => self.handle_tasks(TaskCommand::Start, ids, now),
                None => Handled {
                    handler: self.start_all(),
                    response: ResponseView::Success,
                    effects: seq![Effect::Save],
                },
            },
            MessageView::Restart { task_ids, start_immediately } => self.handle_tasks(
                TaskCommand::Restart(start_immediately),
                task_ids,
                now,
            ),
            MessageView::Pause { wait, task_ids } => match task_ids {
                Some(ids) => if wait {
                    self.turn_down(Rejection::WaitWithTasks)
                } else {
                    self.handle_tasks(TaskCommand::Pause, ids, now)
                },
                None => Handled {
                    handler: self.pause_all(),
                    response: ResponseView::Success,
                    effects: self.pause_all_effects(wait).push(Effect::Save),
                },
            },
            MessageView::Stash { task_ids } => self.handle_tasks(TaskCommand::Stash, task_ids, now),
            MessageView::Enqueue { task_ids } => self.handle_tasks(TaskCommand::Enqueue, task_ids, now),
            MessageView::Status => Handled {
                handler: self,
                response: ResponseView::Status(self.state),
                effects: Seq::empty(),
            },
            MessageView::Reset => Handled {
                handler: self.reset(),
                response: ResponseView::Success,
                effects: self.reset_effects().push(Effect::Save),
            },
            MessageView::Clean => Handled {
                handler: self.clean(),
                response: ResponseView::Success,
                effects: clean_effects(self.state.tasks).push(Effect::Save),
            },
        }
    }
}

/// Every request keeps the invariant of the handler.
pub proof fn lemma_handle_message_keeps_wf(h: HandlerView, message: MessageView, now: i64)
    requires
        h.wf(),
    ensures
        h.handle_message(message, now).handler.wf(),
{
    match message {
        MessageView::Add { command, arguments, path, group, start_immediately } => {
            if h.add(command, arguments, path, group, start_immediately, now).rejection is None {
                lemma_submit_keeps_wf(
                    h,
                    command,
                    arguments,
                    path,
                    group_or_default(group),
                    start_immediately,
                    now,
                );
            }
        },
        MessageView::Remove { task_ids } => {
            lemma_apply_each_keeps_wf(h, TaskCommand::Remove, task_ids, now);
        },
        MessageView::Start { task_ids } => {
            match task_ids {
                Some(ids) => {
                    lemma_apply_each_keeps_wf(h, TaskCommand::Start, ids, now);
                },
                None => {
                    lemma_start_all_keeps_wf(h);
                },
            }
        },
        MessageView::Restart { task_ids, start_immediately } => {
            lemma_apply_each_keeps_wf(h, TaskCommand::Restart(start_immediately), task_ids, now);
        },
        MessageView::Pause { wait, task_ids } => {
            match task_ids {
                Some(ids) => {
                    lemma_apply_each_keeps_wf(h, TaskCommand::Pause, ids, now);
                },
                None => {},
            }
        },
        MessageView::Stash { task_ids } => {
            lemma_apply_each_keeps_wf(h, TaskCommand::Stash, task_ids, now);
        },
        MessageView::Enqueue { task_ids } => {
            lemma_apply_each_keeps_wf(h, TaskCommand::Enqueue, task_ids, now);
        },
        MessageView::Status => {},
        MessageView::Reset => {
            if h.children.len() == 0 {
                lemma_cleared_is_wf(h);
            }
        },
        MessageView::Clean => {
            lemma_clean_keeps_wf(h);
        },
    }
}

impl TaskHandler {
    /// Carries out `command` for the tasks `ids` and asks for a snapshot.
    fn handle_tasks(&mut self, command: TaskCommand, ids: &Vec<i32>, now: i64) -> (r: (
        Response,
        Vec<Effect>,
    ))
        requires
            old(self).wf(),
        ensures
            final(self).wf(),
            final(self)@ == old(self)@.handle_tasks(command, ids@, now).handler,
            r.0@ == old(self)@.handle_tasks(command, ids@, now).response,
            r.1@ == old(self)@.handle_tasks(command, ids@, now).effects,
    {
        let (replies, mut effects) = self.apply_each(command, ids, now);
        effects.push(Effect::Save);
        (Response::Tasks(replies), effects)
    }

    /// Handles one request of a client that arrives at `now`: changes the
    /// state as the request asks, and returns the answer for the client
    /// together with what the caller has to do.
    pub fn handle_message(&mut self, message: Message, now: i64) -> (r: (Response, Vec<Effect>))
        requires
            old(self).wf(),
        ensures
            final(self).wf(),
            final(self)@ == old(self)@.handle_message(message@, now).handler,
            r.0@ == old(self)@.handle_message(message@, now).response,
            r.1@ == old(self)@.handle_message(message@, now).effects,
    {
        match message {
            Message::Add(add) => {
                let (result, effect) = self.add(add, now);
                match result {
                    Err(rejection) => (Response::Failure(rejection), Vec::new()),
                    Ok(id) => {
                        let mut effects: Vec<Effect> = Vec::new();
                        if let Some(e) = effect {
                            effects.push(e);
                        }
                        proof {
                            assert(effects@ =~= effect_list(effect));
                        }
                        effects.push(Effect::Save);
                        (Response::Added(id), effects)
                    },
                }
            },
            Message::Remove(remove) => self.handle_tasks(TaskCommand::Remove, &remove.task_ids, now),
            Message::Start(start) => match start.task_ids {
                Some(ids) => self.handle_tasks(TaskCommand::Start, &ids, now),
                None => {
                    self.start_all();
                    let mut effects: Vec<Effect> = Vec::new();
                    effects.push(Effect::Save);
                    proof {
                        assert(effects@ =~= seq![Effect::Save]);
                    }
                    (Response::Success, effects)
                },
            },
            Message::Restart(restart) => self.handle_tasks(
                TaskCommand::Restart(restart.start_immediately),
                &restart.task_ids,
                now,
            ),
            Message::Pause(pause) => match pause.task_ids {
                Some(ids) => {
                    if pause.wait {
                        (Response::Failure(Rejection::WaitWithTasks), Vec::new())
                    } else {
                        self.handle_tasks(TaskCommand::Pause, &ids, now)
                    }
                },
                None => {
                    let mut effects = self.pause_all(pause.wait);
                    effects.push(Effect::Save);
                    (Response::Success, effects)
                },
            },
            Message::Stash(stash) => self.handle_tasks(TaskCommand::Stash, &stash.task_ids, now),
            Message::Enqueue(enqueue) => self.handle_tasks(TaskCommand::Enqueue, &enqueue.task_ids, now),
            Message::Status => (Response::Status(self.state.clone()), Vec::new()),
            Message::Reset => {
                let mut effects = self.reset();
                effects.push(Effect::Save);
                (Response::Success, effects)
            },
            Message::Clean => {
                let mut effects = self.clean();
                effects.push(Effect::Save);
                (Response::Success, effects)
            },
        }
    }
}

} // verus!
