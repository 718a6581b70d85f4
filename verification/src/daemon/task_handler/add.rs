use vstd::prelude::*;
use crate::daemon::task_handler::messages::Step;
use crate::daemon::task_handler::{Effect, HandlerView, TaskHandler};
use crate::message::{AddMessage, Rejection, name_view};
use crate::state::{default_group, has_group};

verus! {

/// The name of the group that a new task joins.
pub open spec fn group_or_default(group: Option<Seq<char>>) -> Seq<char> {
    match group {
        Some(name) => name,
        None => default_group(),
    }
}

impl HandlerView {
    /// Adding a task: refused during a reset, for an unknown group and when
    /// no id is left; else the task is entered under the next id.
    pub open spec fn add(
        self,
        command: Seq<char>,
        arguments: Seq<Seq<char>>,
        path: Seq<char>,
        group: Option<Seq<char>>,
        start_immediately: bool,
        now: i64,
    ) -> Step {
        let name = group_or_default(group);
        if self.full_reset {
            self.refuse(Rejection::Resetting)
        } else if !has_group(self.state.groups, name) {
            self.refuse(Rejection::NoSuchGroup)
        } else if self.state.next_id == usize::MAX {
            self.refuse(Rejection::OutOfIds)
        } else {
            self.submit(command, arguments, path, name, start_immediately, now)
        }
    }
}

impl TaskHandler {
    /// Adds a task and returns the id that it was given.
    pub fn add(&mut self, message: AddMessage, now: i64) -> (r: (Result<usize, Rejection>, Option<Effect>))
        requires
            old(self).wf(),
        ensures
            final(self).wf(),
            final(self)@ == old(self)@.add(
                message.command@,
                message.arguments.deep_view(),
                message.path@,
                name_view(message.group),
                message.start_immediately,
                now,
            ).handler,
            r.0 == match old(self)@.add(
                message.command@,
                message.arguments.deep_view(),
                message.path@,
                name_view(message.group),
                message.start_immediately,
                now,
            ).rejection {
                Some(rejection) => Err::<usize, Rejection>(rejection),
                None => Ok(old(self)@.state.next_id),
            },
            r.1 == old(self)@.add(
                message.command@,
                message.arguments.deep_view(),
                message.path@,
                name_view(message.group),
                message.start_immediately,
                now,
            ).effect,
    {
        let group = match message.group {
            Some(name) => name,
            None => String::from_str("default"),
        };
        if self.full_reset {
            return (Err(Rejection::Resetting), None);
        }
        if self.state.find_group(&group).is_none() {
            return (Err(Rejection::NoSuchGroup), None);
        }
        if self.state.next_id == usize::MAX {
            return (Err(Rejection::OutOfIds), None);
        }
        let id = self.state.next_id;
        let effect = self.submit(
            message.command,
            message.arguments,
            message.path,
            group,
            message.start_immediately,
            now,
        );
        (Ok(id), effect)
    }
}

} // verus!
