use pueue::daemon::task_handler::{Child, ChildState, TaskHandler};
use pueue::state::{Group, State};
use pueue::task::{Task, TaskResult, TaskStatus};

fn task(id: usize, group: &str, status: TaskStatus) -> Task {
    let mut task = Task::new(id, "cmd".to_string(), Vec::new(), "/".to_string(), group.to_string());
    task.status = status;
    if status == TaskStatus::Done {
        task.result = Some(TaskResult::Success);
    }
    task
}

fn state_with(tasks: Vec<Task>) -> State {
    let mut state = State::new(1, false, false);
    state.add_group("test".to_string(), 2);
    state.next_id = 10;
    state.tasks = tasks;
    state
}

#[test]
fn fresh_state_is_valid() {
    assert!(State::new(0, true, true).is_valid());
    assert!(State::new(0, true, true).is_idle());
    let handler = TaskHandler::new(State::new(3, false, false));
    assert!(handler.is_valid());
}

#[test]
fn ordered_table_is_valid() {
    let state = state_with(vec![
        task(0, "default", TaskStatus::Queued),
        task(3, "test", TaskStatus::Done),
        task(9, "test", TaskStatus::Stashed),
    ]);
    assert!(state.is_valid());
    assert!(state.is_idle());
    let handler = TaskHandler::restore(state).unwrap();
    assert!(handler.is_valid());
    assert!(handler.children.is_empty());
    assert!(!handler.full_reset);
    assert_eq!(handler.state.tasks.len(), 3);
}

#[test]
fn unordered_or_repeated_ids_are_invalid() {
    assert!(!state_with(vec![task(3, "test", TaskStatus::Queued), task(0, "test", TaskStatus::Queued)])
        .is_valid());
    assert!(!state_with(vec![task(2, "test", TaskStatus::Queued), task(2, "test", TaskStatus::Queued)])
        .is_valid());
}

#[test]
fn id_beyond_the_next_id_is_invalid() {
    assert!(state_with(vec![task(9, "test", TaskStatus::Queued)]).is_valid());
    assert!(!state_with(vec![task(10, "test", TaskStatus::Queued)]).is_valid());
}

#[test]
fn result_without_done_is_invalid() {
    let mut queued = task(1, "test", TaskStatus::Queued);
    queued.result = Some(TaskResult::Killed);
    assert!(!state_with(vec![queued]).is_valid());
    let mut done = task(1, "test", TaskStatus::Done);
    done.result = None;
    assert!(!state_with(vec![done]).is_valid());
}

#[test]
fn unknown_group_is_invalid() {
    assert!(!state_with(vec![task(1, "nowhere", TaskStatus::Queued)]).is_valid());
}

#[test]
fn repeated_group_name_is_invalid() {
    let mut state = state_with(Vec::new());
    assert!(state.is_valid());
    state.groups.push(Group { name: "default".to_string(), parallel_limit: 1, paused: false });
    assert!(!state.is_valid());
}

#[test]
fn group_over_its_limit_is_invalid() {
    let two = vec![task(0, "test", TaskStatus::Running), task(1, "test", TaskStatus::Running)];
    assert!(state_with(two).is_valid());
    let three = vec![
        task(0, "test", TaskStatus::Running),
        task(1, "test", TaskStatus::Running),
        task(2, "test", TaskStatus::Running),
    ];
    assert!(!state_with(three).is_valid());
    assert!(!state_with(vec![task(0, "default", TaskStatus::Running), task(1, "default", TaskStatus::Running)])
        .is_valid());
}

#[test]
fn state_with_a_running_task_is_not_restored() {
    let state = state_with(vec![task(0, "test", TaskStatus::Running)]);
    assert!(state.is_valid());
    assert!(!state.is_idle());
    assert!(TaskHandler::restore(state).is_none());
    assert!(TaskHandler::restore(state_with(vec![task(10, "test", TaskStatus::Queued)])).is_none());
}

#[test]
fn process_map_has_to_match_the_running_tasks() {
    let tasks = || vec![task(0, "test", TaskStatus::Running), task(1, "test", TaskStatus::Queued)];
    let child = |task_id| Child { task_id, state: ChildState::Running };
    let handler = |children| TaskHandler { state: state_with(tasks()), children, full_reset: false };
    assert!(handler(vec![child(0)]).is_valid());
    // A running task without a process.
    assert!(!handler(Vec::new()).is_valid());
    // A process without a running task.
    assert!(!handler(vec![child(0), child(1)]).is_valid());
    assert!(!handler(vec![child(0), child(5)]).is_valid());
    // An entry twice.
    assert!(!handler(vec![child(0), child(0)]).is_valid());
}

#[test]
fn process_map_has_to_be_ordered() {
    let tasks = vec![task(0, "test", TaskStatus::Running), task(1, "test", TaskStatus::Running)];
    let child = |task_id| Child { task_id, state: ChildState::Exited(None) };
    let ordered = TaskHandler { state: state_with(tasks), children: vec![child(0), child(1)], full_reset: true };
    assert!(ordered.is_valid());
    let tasks = vec![task(0, "test", TaskStatus::Running), task(1, "test", TaskStatus::Running)];
    let unordered =
        TaskHandler { state: state_with(tasks), children: vec![child(1), child(0)], full_reset: false };
    assert!(!unordered.is_valid());
}
