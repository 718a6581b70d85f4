use vstd::prelude::*;

verus! {

/// Where a task stands in its life cycle.
#[derive(Clone, Copy, Debug, PartialEq, Eq, Structural)]
pub enum TaskStatus {
    /// Waiting to be started by the scheduler.
    Queued,
    /// Held back: never started automatically until it is enqueued again.
    Stashed,
    /// A child process is executing the command.
    Running,
    /// Held individually by a pause request.
    Paused,
    /// The process has ended; the outcome is recorded in `result`.
    Done,
}

/// The outcome recorded for a task whose process has ended.
#[derive(Clone, Copy, Debug, PartialEq, Eq, Structural)]
pub enum TaskResult {
    /// The process exited with code zero.
    Success,
    /// The process exited with the given non-zero code.
    Failed(i32),
    /// The process was ended by a signal and left no exit code.
    Killed,
    /// Polling the process failed.
    Errored,
}

impl TaskResult {
    /// Whether this outcome triggers the failure cascade.
    pub open spec fn cascades(self) -> bool {
        self is Failed || self is Errored
    }

    /// Whether this outcome triggers the failure cascade.
    pub fn is_failure(&self) -> (b: bool)
        ensures
            b == self.cascades(),
    {
        match self {
            TaskResult::Failed(_) => true,
            TaskResult::Errored => true,
            _ => false,
        }
    }
}

/// One user-submitted unit of work.
#[derive(Debug)]
pub struct Task {
    pub id: usize,
    pub command: String,
    pub arguments: Vec<String>,
    pub path: String,
    pub group: String,
    pub status: TaskStatus,
    pub result: Option<TaskResult>,
    pub start: Option<i64>,
    pub end: Option<i64>,
}

/// The mathematical value of a [`Task`].
pub struct TaskView {
    pub id: usize,
    pub command: Seq<char>,
    pub arguments: Seq<Seq<char>>,
    pub path: Seq<char>,
    pub group: Seq<char>,
    pub status: TaskStatus,
    pub result: Option<TaskResult>,
    pub start: Option<i64>,
    pub end: Option<i64>,
}

impl TaskView {
    /// A fresh task: queued, never started, without a result.
    pub open spec fn queued(
        id: usize,
        command: Seq<char>,
        arguments: Seq<Seq<char>>,
        path: Seq<char>,
        group: Seq<char>,
    ) -> TaskView {
        TaskView {
            id,
            command,
            arguments,
            path,
            group,
            status: TaskStatus::Queued,
            result: None,
            start: None,
            end: None,
        }
    }

    /// The same task with another status.
    pub open spec fn with_status(self, status: TaskStatus) -> TaskView {
        TaskView { status, ..self }
    }

    /// The same task, started at `now`.
    pub open spec fn started(self, now: i64) -> TaskView {
        TaskView { status: TaskStatus::Running, start: Some(now), ..self }
    }

    /// The same task, back in the queue as if it had never been started.
    pub open spec fn requeued(self) -> TaskView {
        TaskView { status: TaskStatus::Queued, start: None, ..self }
    }

    /// The same task, ended at `now` with `result`.
    pub open spec fn finished(self, result: TaskResult, now: i64) -> TaskView {
        TaskView { status: TaskStatus::Done, result: Some(result), end: Some(now), ..self }
    }

    /// A result is recorded exactly for finished tasks.
    pub open spec fn result_matches_status(self) -> bool {
        self.result is Some <==> self.status == TaskStatus::Done
    }
}

impl View for Task {
    type V = TaskView;

    open spec fn view(&self) -> TaskView {
        TaskView {
            id: self.id,
            command: self.command@,
            arguments: self.arguments.deep_view(),
            path: self.path@,
            group: self.group@,
            status: self.status,
            result: self.result,
            start: self.start,
            end: self.end,
        }
    }
}

impl Task {
    /// Creates a queued task.
    pub fn new(id: usize, command: String, arguments: Vec<String>, path: String, group: String) -> (t: Task)
        ensures
            t@ == TaskView::queued(id, command@, arguments.deep_view(), path@, group@),
    {
        Task {
            id,
            command,
            arguments,
            path,
            group,
            status: TaskStatus::Queued,
            result: None,
            start: None,
            end: None,
        }
    }

    /// Whether the task has reached its terminal state.
    pub fn is_done(&self) -> (b: bool)
        ensures
            b == (self@.status == TaskStatus::Done),
    {
        self.status == TaskStatus::Done
    }

    /// Whether a child process is executing the task.
    pub fn is_running(&self) -> (b: bool)
        ensures
            b == (self@.status == TaskStatus::Running),
    {
        self.status == TaskStatus::Running
    }
}

impl Clone for Task {
    fn clone(&self) -> (t: Task)
        ensures
            t@ == self@,
    {
        let arguments = self.arguments.clone();
        proof {
            assert(arguments.deep_view() =~= self.arguments.deep_view());
        }
        Task {
            id: self.id,
            command: self.command.clone(),
            arguments,
            path: self.path.clone(),
            group: self.group.clone(),
            status: self.status,
            result: self.result,
            start: self.start,
            end: self.end,
        }
    }
}

/// The views of a sequence of tasks, in order.
pub open spec fn task_views(tasks: Seq<Task>) -> Seq<TaskView> {
    tasks.map_values(|t: Task| t@)
}

} // verus!
