use pueue::daemon::task_handler::{Child, ChildState, Effect, TaskHandler};
use pueue::message::{AddMessage, Message, Response};
use pueue::state::State;
use pueue::task::{TaskResult, TaskStatus};

fn add_to(group: Option<&str>, command: &str, start_immediately: bool) -> Message {
    Message::Add(AddMessage {
        command: command.to_string(),
        arguments: Vec::new(),
        path: "/".to_string(),
        group: group.map(|g| g.to_string()),
        start_immediately,
    })
}

/// A handler with `n` running tasks in the default group.
fn running(n: usize, pause_group: bool, pause_all: bool) -> TaskHandler {
    let mut handler = TaskHandler::new(State::new(n, pause_group, pause_all));
    for _ in 0..n {
        handler.handle_message(add_to(None, "sleep", true), 1);
    }
    handler
}

#[test]
fn exit_code_zero_is_success() {
    let mut handler = TaskHandler::new(State::new(1, false, false));
    let (response, effects) = handler.handle_message(add_to(None, "true", true), 10);
    assert!(matches!(response, Response::Added(0)));
    assert_eq!(effects, vec![Effect::Spawn(0), Effect::Save]);
    assert_eq!(handler.state.tasks[0].status, TaskStatus::Running);
    assert!(handler.record_poll(0, ChildState::Exited(Some(0))));
    let effects = handler.handle_finished_tasks(20);
    assert_eq!(effects, vec![Effect::Callback(0), Effect::Save]);
    assert_eq!(handler.state.tasks[0].status, TaskStatus::Done);
    assert_eq!(handler.state.tasks[0].result, Some(TaskResult::Success));
    assert_eq!(handler.state.tasks[0].start, Some(10));
    assert_eq!(handler.state.tasks[0].end, Some(20));
    assert!(handler.children.is_empty());
}

#[test]
fn exit_code_seven_is_failed_seven() {
    let mut handler = running(1, false, false);
    handler.record_poll(0, ChildState::Exited(Some(7)));
    handler.handle_finished_tasks(5);
    assert_eq!(handler.state.tasks[0].status, TaskStatus::Done);
    assert_eq!(handler.state.tasks[0].result, Some(TaskResult::Failed(7)));
}

#[test]
fn negative_exit_code_is_failed() {
    let mut handler = running(1, false, false);
    handler.record_poll(0, ChildState::Exited(Some(-1)));
    handler.handle_finished_tasks(5);
    assert_eq!(handler.state.tasks[0].result, Some(TaskResult::Failed(-1)));
}

#[test]
fn missing_exit_code_is_killed() {
    let mut handler = running(1, true, true);
    handler.record_poll(0, ChildState::Exited(None));
    handler.handle_finished_tasks(5);
    assert_eq!(handler.state.tasks[0].status, TaskStatus::Done);
    assert_eq!(handler.state.tasks[0].result, Some(TaskResult::Killed));
    // A kill never cascades.
    assert!(!handler.state.paused);
    assert!(!handler.state.groups[0].paused);
}

#[test]
fn poll_error_is_errored_and_cascades() {
    let mut handler = running(1, true, false);
    handler.record_poll(0, ChildState::Errored);
    let effects = handler.handle_finished_tasks(5);
    assert_eq!(effects, vec![Effect::Callback(0), Effect::Save]);
    assert_eq!(handler.state.tasks[0].status, TaskStatus::Done);
    assert_eq!(handler.state.tasks[0].result, Some(TaskResult::Errored));
    assert_eq!(handler.state.tasks[0].end, Some(5));
    assert!(handler.state.groups[0].paused);
    assert!(handler.children.is_empty());
}

#[test]
fn task_result_follows_the_table() {
    assert_eq!(ChildState::Running.task_result(), None);
    assert_eq!(ChildState::Exited(Some(0)).task_result(), Some(TaskResult::Success));
    assert_eq!(ChildState::Exited(Some(1)).task_result(), Some(TaskResult::Failed(1)));
    assert_eq!(ChildState::Exited(Some(255)).task_result(), Some(TaskResult::Failed(255)));
    assert_eq!(ChildState::Exited(None).task_result(), Some(TaskResult::Killed));
    assert_eq!(ChildState::Errored.task_result(), Some(TaskResult::Errored));
    assert!(TaskResult::Failed(3).is_failure());
    assert!(TaskResult::Errored.is_failure());
    assert!(!TaskResult::Killed.is_failure());
    assert!(!TaskResult::Success.is_failure());
}

#[test]
fn nothing_finished_means_nothing_to_do() {
    let mut handler = running(2, true, true);
    assert!(handler.get_finished().is_empty());
    let effects = handler.handle_finished_tasks(9);
    assert!(effects.is_empty());
    assert_eq!(handler.children.len(), 2);
    assert_eq!(handler.state.tasks[0].status, TaskStatus::Running);
    assert_eq!(handler.state.tasks[1].status, TaskStatus::Running);
    assert_eq!(handler.state.tasks[0].end, None);
}

#[test]
fn get_finished_lists_ended_processes_in_order_of_id() {
    let mut handler = running(4, false, false);
    handler.record_poll(3, ChildState::Exited(Some(0)));
    handler.record_poll(1, ChildState::Errored);
    assert_eq!(
        handler.get_finished(),
        vec![
            Child { task_id: 1, state: ChildState::Errored },
            Child { task_id: 3, state: ChildState::Exited(Some(0)) },
        ]
    );
    // Gathering does not change the process map.
    assert_eq!(handler.children.len(), 4);
}

#[test]
fn one_snapshot_per_pass() {
    let mut handler = running(3, false, false);
    handler.record_poll(0, ChildState::Exited(Some(0)));
    handler.record_poll(2, ChildState::Exited(Some(2)));
    let effects = handler.handle_finished_tasks(7);
    assert_eq!(effects, vec![Effect::Callback(0), Effect::Callback(2), Effect::Save]);
    assert_eq!(handler.children, vec![Child { task_id: 1, state: ChildState::Running }]);
    assert_eq!(handler.state.tasks[0].result, Some(TaskResult::Success));
    assert_eq!(handler.state.tasks[1].result, None);
    assert_eq!(handler.state.tasks[1].status, TaskStatus::Running);
    assert_eq!(handler.state.tasks[2].result, Some(TaskResult::Failed(2)));
}

#[test]
fn record_poll_of_unknown_task_changes_nothing() {
    let mut handler = running(1, false, false);
    assert!(!handler.record_poll(5, ChildState::Exited(Some(0))));
    assert_eq!(handler.children, vec![Child { task_id: 0, state: ChildState::Running }]);
    assert!(handler.handle_finished_tasks(3).is_empty());
}

#[test]
fn failure_pauses_only_the_group_of_the_task() {
    let mut state = State::new(1, true, false);
    assert!(state.add_group("test".to_string(), 3));
    let mut handler = TaskHandler::new(state);
    handler.handle_message(add_to(Some("test"), "false", true), 1);
    handler.handle_message(add_to(None, "true", true), 1);
    handler.record_poll(0, ChildState::Exited(Some(1)));
    handler.record_poll(1, ChildState::Exited(Some(0)));
    handler.handle_finished_tasks(2);
    assert!(!handler.state.paused);
    assert!(!handler.state.groups[0].paused);
    assert!(handler.state.groups[1].paused);
    assert_eq!(handler.state.groups[1].name, "test");
}

#[test]
fn failure_pauses_the_daemon_with_pause_all() {
    let mut handler = running(1, true, true);
    handler.record_poll(0, ChildState::Exited(Some(3)));
    handler.handle_finished_tasks(2);
    assert!(handler.state.paused);
    // Pause-all takes precedence: the group itself is not paused.
    assert!(!handler.state.groups[0].paused);
}

#[test]
fn failure_without_policy_pauses_nothing() {
    let mut handler = running(1, false, false);
    handler.record_poll(0, ChildState::Exited(Some(3)));
    handler.handle_finished_tasks(2);
    assert!(!handler.state.paused);
    assert!(!handler.state.groups[0].paused);
}

#[test]
fn handle_task_failure_applies_the_policy() {
    let mut state = State::new(1, true, false);
    state.add_group("test".to_string(), 2);
    state.handle_task_failure(&"test".to_string());
    assert!(!state.paused);
    assert!(!state.groups[0].paused);
    assert!(state.groups[1].paused);
    // An unknown group pauses nothing.
    let mut state = State::new(1, true, false);
    state.handle_task_failure(&"nowhere".to_string());
    assert!(!state.paused);
    assert!(!state.groups[0].paused);
    let mut state = State::new(1, false, true);
    state.handle_task_failure(&"default".to_string());
    assert!(state.paused);
    assert!(!state.groups[0].paused);
}

#[test]
fn logs_are_removed_while_resetting() {
    let mut handler = running(2, false, false);
    let (response, effects) = handler.handle_message(Message::Reset, 3);
    assert!(matches!(response, Response::Success));
    assert_eq!(effects, vec![Effect::Kill(0), Effect::Kill(1), Effect::Save]);
    assert!(handler.full_reset);
    handler.record_poll(0, ChildState::Exited(None));
    let effects = handler.handle_finished_tasks(4);
    assert_eq!(effects, vec![Effect::Callback(0), Effect::CleanLogs(0), Effect::Save]);
    assert_eq!(handler.state.tasks[0].result, Some(TaskResult::Killed));
    // One process is left: the reset is not due yet.
    assert!(handler.handle_reset().is_empty());
    assert_eq!(handler.state.tasks.len(), 2);
    handler.record_poll(1, ChildState::Exited(None));
    handler.handle_finished_tasks(5);
    assert_eq!(handler.handle_reset(), vec![Effect::ResetLogs, Effect::Save]);
    assert!(handler.state.tasks.is_empty());
    assert_eq!(handler.state.next_id, 0);
    assert!(!handler.full_reset);
}

#[test]
fn finish_child_reaps_one_process() {
    let mut handler = running(2, false, false);
    handler.record_poll(1, ChildState::Exited(Some(4)));
    handler.finish_child(1, 8);
    assert_eq!(handler.children, vec![Child { task_id: 0, state: ChildState::Running }]);
    assert_eq!(handler.state.tasks[1].status, TaskStatus::Done);
    assert_eq!(handler.state.tasks[1].result, Some(TaskResult::Failed(4)));
    assert_eq!(handler.state.tasks[1].end, Some(8));
    assert_eq!(handler.state.tasks[0].status, TaskStatus::Running);
}

#[test]
fn failed_spawn_undoes_the_start() {
    let mut handler = TaskHandler::new(State::new(1, true, true));
    handler.handle_message(add_to(None, "first", false), 1);
    handler.handle_message(add_to(None, "second", false), 1);
    assert_eq!(handler.spawn_new(2), vec![Effect::Spawn(0), Effect::Save]);
    assert_eq!(handler.state.tasks[0].status, TaskStatus::Running);
    assert!(handler.spawn_failed(0));
    // The task is back in the queue as if it had never been started.
    assert_eq!(handler.state.tasks[0].status, TaskStatus::Queued);
    assert_eq!(handler.state.tasks[0].start, None);
    assert_eq!(handler.state.tasks[0].end, None);
    assert_eq!(handler.state.tasks[0].result, None);
    assert!(handler.children.is_empty());
    // No failure is recorded, so nothing is paused.
    assert!(!handler.state.paused);
    assert!(!handler.state.groups[0].paused);
    assert!(handler.is_valid());
    // The slot is free again.
    assert_eq!(handler.state.running_in_group(&"default".to_string()), 0);
    assert_eq!(handler.spawn_new(3), vec![Effect::Spawn(0), Effect::Save]);
}

#[test]
fn failed_spawn_of_a_task_without_process_changes_nothing() {
    let mut handler = running(1, false, false);
    handler.handle_message(add_to(None, "queued", false), 1);
    assert!(!handler.spawn_failed(1));
    assert!(!handler.spawn_failed(9));
    assert_eq!(handler.state.tasks[0].status, TaskStatus::Running);
    assert_eq!(handler.state.tasks[1].status, TaskStatus::Queued);
    assert_eq!(handler.children, vec![Child { task_id: 0, state: ChildState::Running }]);
}
