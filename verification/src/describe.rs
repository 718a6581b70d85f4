use vstd::prelude::*;
use crate::message::{Rejection, TaskReply};
use crate::task::TaskStatus;

verus! {

/// The numeral of a digit.
pub open spec fn digit(d: nat) -> Seq<char> {
    if d == 0 {
        "0"@
    } else if d == 1 {
        "1"@
    } else if d == 2 {
        "2"@
    } else if d == 3 {
        "3"@
    } else if d == 4 {
        "4"@
    } else if d == 5 {
        "5"@
    } else if d == 6 {
        "6"@
    } else if d == 7 {
        "7"@
    } else if d == 8 {
        "8"@
    } else {
        "9"@
    }
}

/// The decimal numeral of a number, without leading zeros.
pub open spec fn decimal(n: nat) -> Seq<char>
    decreases n,
{
    if n < 10 {
        digit(n)
    } else {
        decimal(n / 10) + digit(n % 10)
    }
}

/// The numeral of a digit.
fn digit_str(d: usize) -> (s: &'static str)
    requires
        d < 10,
    ensures
        s@ == digit(d as nat),
{
    match d {
        0 => "0",
        1 => "1",
        2 => "2",
        3 => "3",
        4 => "4",
        5 => "5",
        6 => "6",
        7 => "7",
        8 => "8",
        _ => "9",
    }
}

/// Writes a number as a decimal numeral.
pub fn decimal_string(n: usize) -> (s: String)
    ensures
        s@ == decimal(n as nat),
    decreases n,
{
    if n < 10 {
        String::from_str(digit_str(n))
    } else {
        let mut s = decimal_string(n / 10);
        s.append(digit_str(n % 10));
        s
    }
}

/// The decimal numeral of a task id as a request names it, with a minus
/// sign for a negative one.
pub open spec fn signed_decimal(n: int) -> Seq<char> {
    if n < 0 {
        "-"@ + decimal((-n) as nat)
    } else {
        decimal(n as nat)
    }
}

/// Writes a task id, as a request names it, as a decimal numeral.
pub fn signed_decimal_string(n: i32) -> (s: String)
    ensures
        s@ == signed_decimal(n as int),
{
    if n < 0 {
        let magnitude: i64 = -(n as i64);
        String::from_str("-").concat(decimal_string(magnitude as usize).as_str())
    } else {
        decimal_string(n as usize)
    }
}

impl TaskStatus {
    /// The word for the status.
    pub open spec fn name(self) -> Seq<char> {
        match self {
            TaskStatus::Queued => "queued"@,
            TaskStatus::Stashed => "stashed"@,
            TaskStatus::Running => "running"@,
            TaskStatus::Paused => "paused"@,
            TaskStatus::Done => "done"@,
        }
    }

    /// The word for the status.
    pub fn as_str(&self) -> (s: &'static str)
        ensures
            s@ == self.name(),
    {
        match self {
            TaskStatus::Queued => "queued",
            TaskStatus::Stashed => "stashed",
            TaskStatus::Running => "running",
            TaskStatus::Paused => "paused",
            TaskStatus::Done => "done",
        }
    }
}

impl Rejection {
    /// The reason in words; for a task in the wrong state it names the state.
    pub open spec fn text(self) -> Seq<char> {
        match self {
            Rejection::NoSuchTask => "there is no such task"@,
            Rejection::InState(status) => "the task is "@ + status.name(),
            Rejection::NoSuchGroup => "there is no such group"@,
            Rejection::GroupFull => "the group of the task runs as many tasks as it may"@,
            Rejection::Resetting => "the daemon is being reset"@,
            Rejection::OutOfIds => "every task id is in use"@,
            Rejection::WaitWithTasks => "`wait` cannot be combined with task ids"@,
        }
    }

    /// Describes the reason in words.
    pub fn describe(&self) -> (s: String)
        ensures
            s@ == self.text(),
    {
        match self {
            Rejection::NoSuchTask => String::from_str("there is no such task"),
            Rejection::InState(status) => String::from_str("the task is ").concat(status.as_str()),
            Rejection::NoSuchGroup => String::from_str("there is no such group"),
            Rejection::GroupFull => String::from_str("the group of the task runs as many tasks as it may"),
            Rejection::Resetting => String::from_str("the daemon is being reset"),
            Rejection::OutOfIds => String::from_str("every task id is in use"),
            Rejection::WaitWithTasks => String::from_str("`wait` cannot be combined with task ids"),
        }
    }
}

impl TaskReply {
    /// What became of the request for the task, in words: the id of the
    /// task and, where the request was turned down, the reason.
    pub open spec fn text(self) -> Seq<char> {
        match self.rejection {
            None => "Task "@ + signed_decimal(self.task_id as int) + ": ok"@,
            Some(rejection) => "Task "@ + signed_decimal(self.task_id as int) + ": rejected, "@
                + rejection.text(),
        }
    }

    /// Describes in words what became of the request for the task.
    pub fn describe(&self) -> (s: String)
        ensures
            s@ == self.text(),
    {
        let mut s = String::from_str("Task ");
        let id = signed_decimal_string(self.task_id);
        s.append(id.as_str());
        match self.rejection {
            None => {
                s.append(": ok");
            },
            Some(rejection) => {
                s.append(": rejected, ");
                let reason = rejection.describe();
                s.append(reason.as_str());
            },
        }
        s
    }
}

} // verus!
