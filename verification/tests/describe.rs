use pueue::describe::{decimal_string, signed_decimal_string};
use pueue::message::{Rejection, TaskReply};
use pueue::task::TaskStatus;

#[test]
fn numbers_are_written_in_decimal() {
    assert_eq!(decimal_string(0), "0");
    assert_eq!(decimal_string(7), "7");
    assert_eq!(decimal_string(10), "10");
    assert_eq!(decimal_string(1234567890), "1234567890");
    assert_eq!(decimal_string(usize::MAX), usize::MAX.to_string());
    for n in 0..2000 {
        assert_eq!(decimal_string(n), n.to_string());
    }
}

#[test]
fn status_has_a_word() {
    assert_eq!(TaskStatus::Queued.as_str(), "queued");
    assert_eq!(TaskStatus::Stashed.as_str(), "stashed");
    assert_eq!(TaskStatus::Running.as_str(), "running");
    assert_eq!(TaskStatus::Paused.as_str(), "paused");
    assert_eq!(TaskStatus::Done.as_str(), "done");
}

#[test]
fn rejection_names_the_conflicting_state() {
    assert_eq!(Rejection::InState(TaskStatus::Running).describe(), "the task is running");
    assert_eq!(Rejection::InState(TaskStatus::Done).describe(), "the task is done");
    assert_eq!(Rejection::NoSuchTask.describe(), "there is no such task");
    assert_eq!(Rejection::NoSuchGroup.describe(), "there is no such group");
    assert_eq!(Rejection::GroupFull.describe(), "the group of the task runs as many tasks as it may");
    assert_eq!(Rejection::Resetting.describe(), "the daemon is being reset");
    assert_eq!(Rejection::OutOfIds.describe(), "every task id is in use");
    assert_eq!(Rejection::WaitWithTasks.describe(), "`wait` cannot be combined with task ids");
}

#[test]
fn reply_names_the_task_and_the_reason() {
    let reply = TaskReply { task_id: 42, rejection: Some(Rejection::InState(TaskStatus::Running)) };
    assert_eq!(reply.describe(), "Task 42: rejected, the task is running");
    let reply = TaskReply { task_id: 0, rejection: Some(Rejection::NoSuchTask) };
    assert_eq!(reply.describe(), "Task 0: rejected, there is no such task");
    let reply = TaskReply { task_id: 105, rejection: None };
    assert_eq!(reply.describe(), "Task 105: ok");
}

#[test]
fn reply_names_a_negative_id_as_it_was_given() {
    let reply = TaskReply { task_id: -7, rejection: Some(Rejection::NoSuchTask) };
    assert_eq!(reply.describe(), "Task -7: rejected, there is no such task");
    assert_eq!(signed_decimal_string(-1), "-1");
    assert_eq!(signed_decimal_string(0), "0");
    assert_eq!(signed_decimal_string(i32::MAX), "2147483647");
    assert_eq!(signed_decimal_string(i32::MIN), "-2147483648");
    for n in -300..300 {
        assert_eq!(signed_decimal_string(n), n.to_string());
    }
}
