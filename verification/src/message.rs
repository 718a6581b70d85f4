use vstd::prelude::*;
use crate::state::{State, StateView};
use crate::task::TaskStatus;

verus! {

/// Queue a command for execution.
#[derive(Debug)]
pub struct AddMessage {
    pub command: String,
    pub arguments: Vec<String>,
    pub path: String,
    /// The group to join; the default group where none is named.
    pub group: Option<String>,
    pub start_immediately: bool,
}

/// Remove tasks from the table.
#[derive(Debug)]
pub struct RemoveMessage {
    pub task_ids: Vec<i32>,
}

/// Resume the daemon and all groups, or start the named tasks at once.
#[derive(Debug)]
pub struct StartMessage {
    pub task_ids: Option<Vec<i32>>,
}

/// Queue finished tasks again, each as a new task.
#[derive(Debug)]
pub struct RestartMessage {
    pub task_ids: Vec<i32>,
    pub start_immediately: bool,
}

/// Pause the daemon, or the named tasks.
#[derive(Debug)]
pub struct PauseMessage {
    pub wait: bool,
    pub task_ids: Option<Vec<i32>>,
}

/// Hold queued tasks back from scheduling.
#[derive(Debug)]
pub struct StashMessage {
    pub task_ids: Vec<i32>,
}

/// Hand stashed tasks back to the scheduler.
#[derive(Debug)]
pub struct EnqueueMessage {
    pub task_ids: Vec<i32>,
}

/// A request of a client to the daemon.
#[derive(Debug)]
pub enum Message {
    Add(AddMessage),
    Remove(RemoveMessage),
    Start(StartMessage),
    Restart(RestartMessage),
    Pause(PauseMessage),
    Stash(StashMessage),
    Enqueue(EnqueueMessage),
    Status,
    Reset,
    Clean,
}

/// The mathematical value of a [`Message`].
#[allow(inconsistent_fields)]
pub enum MessageView {
    Add {
        command: Seq<char>,
        arguments: Seq<Seq<char>>,
        path: Seq<char>,
        group: Option<Seq<char>>,
        start_immediately: bool,
    },
    Remove { task_ids: Seq<i32> },
    Start { task_ids: Option<Seq<i32>> },
    Restart { task_ids: Seq<i32>, start_immediately: bool },
    Pause { wait: bool, task_ids: Option<Seq<i32>> },
    Stash { task_ids: Seq<i32> },
    Enqueue { task_ids: Seq<i32> },
    Status,
    Reset,
    Clean,
}

/// The view of an optional string.
pub open spec fn name_view(name: Option<String>) -> Option<Seq<char>> {
    match name {
        Some(n) => Some(n@),
        None => None,
    }
}

/// The view of an optional list of task ids.
pub open spec fn ids_view(ids: Option<Vec<i32>>) -> Option<Seq<i32>> {
    match ids {
        Some(v) => Some(v@),
        None => None,
    }
}

impl View for Message {
    type V = MessageView;

    open spec fn view(&self) -> MessageView {
        match self {
            Message::Add(m) => MessageView::Add {
                command: m.command@,
                arguments: m.arguments.deep_view(),
                path: m.path@,
                group: name_view(m.group),
                start_immediately: m.start_immediately,
            },
            Message::Remove(m) => MessageView::Remove { task_ids: m.task_ids@ },
            Message::Start(m) => MessageView::Start { task_ids: ids_view(m.task_ids) },
            Message::Restart(m) => MessageView::Restart {
                task_ids: m.task_ids@,
                start_immediately: m.start_immediately,
            },
            Message::Pause(m) => MessageView::Pause { wait: m.wait, task_ids: ids_view(m.task_ids) },
            Message::Stash(m) => MessageView::Stash { task_ids: m.task_ids@ },
            Message::Enqueue(m) => MessageView::Enqueue { task_ids: m.task_ids@ },
            Message::Status => MessageView::Status,
            Message::Reset => MessageView::Reset,
            Message::Clean => MessageView::Clean,
        }
    }
}

/// Why a request, or its part for one task, was turned down.
#[derive(Clone, Copy, Debug, PartialEq, Eq, Structural)]
pub enum Rejection {
    /// No task has this id.
    NoSuchTask,
    /// The request does not apply to a task in this state.
    InState(TaskStatus),
    /// No group has this name.
    NoSuchGroup,
    /// The group of the task runs as many tasks as it may.
    GroupFull,
    /// A reset is in progress.
    Resetting,
    /// Every id has been handed out.
    OutOfIds,
    /// `wait` was given together with task ids.
    WaitWithTasks,
}

/// What became of a request for one task.
#[derive(Clone, Copy, Debug, PartialEq, Eq, Structural)]
pub struct TaskReply {
    /// The id as the request named it.
    pub task_id: i32,
    /// `None` where the request was carried out.
    pub rejection: Option<Rejection>,
}

/// The answer of the daemon to one request.
#[derive(Debug)]
pub enum Response {
    /// The task was added under this id.
    Added(usize),
    /// What became of the request, task by task.
    Tasks(Vec<TaskReply>),
    /// A snapshot of the shared state.
    Status(State),
    /// The request was carried out.
    Success,
    /// The request as a whole was turned down.
    Failure(Rejection),
}

/// The mathematical value of a [`Response`].
pub enum ResponseView {
    Added(usize),
    Tasks(Seq<TaskReply>),
    Status(StateView),
    Success,
    Failure(Rejection),
}

impl View for Response {
    type V = ResponseView;

    open spec fn view(&self) -> ResponseView {
        match self {
            Response::Added(id) => ResponseView::Added(*id),
            Response::Tasks(replies) => ResponseView::Tasks(replies@),
            Response::Status(state) => ResponseView::Status(state@),
            Response::Success => ResponseView::Success,
            Response::Failure(rejection) => ResponseView::Failure(*rejection),
        }
    }
}

} // verus!
