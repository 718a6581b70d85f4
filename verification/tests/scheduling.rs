use pueue::daemon::task_handler::{Child, ChildState, Effect, TaskHandler};
use pueue::message::{AddMessage, Message, PauseMessage, Rejection, Response, StartMessage, TaskReply};
use pueue::state::State;
use pueue::task::{TaskResult, TaskStatus};

fn queue(group: Option<&str>, command: &str, start_immediately: bool) -> Message {
    Message::Add(AddMessage {
        command: command.to_string(),
        arguments: vec!["1".to_string()],
        path: "/tmp".to_string(),
        group: group.map(|g| g.to_string()),
        start_immediately,
    })
}

fn two_groups(default_limit: usize, test_limit: usize, pause_group: bool, pause_all: bool) -> TaskHandler {
    let mut state = State::new(default_limit, pause_group, pause_all);
    assert!(state.add_group("test".to_string(), test_limit));
    TaskHandler::new(state)
}

fn statuses(handler: &TaskHandler) -> Vec<TaskStatus> {
    handler.state.tasks.iter().map(|t| t.status).collect()
}

fn running_in(handler: &TaskHandler, group: &str) -> usize {
    handler.state.running_in_group(&group.to_string())
}

#[test]
fn new_state_has_the_default_group_alone() {
    let state = State::new(2, true, false);
    assert!(state.tasks.is_empty());
    assert_eq!(state.groups.len(), 1);
    assert_eq!(state.groups[0].name, "default");
    assert_eq!(state.groups[0].parallel_limit, 2);
    assert!(!state.groups[0].paused);
    assert!(!state.paused);
    assert_eq!(state.next_id, 0);
    assert!(state.pause_group_on_failure);
    assert!(!state.pause_all_on_failure);
}

#[test]
fn a_group_is_added_once() {
    let mut state = State::new(1, false, false);
    assert!(state.add_group("test".to_string(), 3));
    assert!(!state.add_group("test".to_string(), 5));
    assert!(!state.add_group("default".to_string(), 5));
    assert_eq!(state.groups.len(), 2);
    assert_eq!(state.groups[1].parallel_limit, 3);
    assert_eq!(state.find_group(&"test".to_string()), Some(1));
    assert_eq!(state.find_group(&"other".to_string()), None);
}

#[test]
fn added_task_is_queued_with_the_next_id() {
    let mut handler = TaskHandler::new(State::new(1, false, false));
    let (response, effects) = handler.handle_message(queue(None, "ls", false), 5);
    assert!(matches!(response, Response::Added(0)));
    assert_eq!(effects, vec![Effect::Save]);
    let (response, _) = handler.handle_message(queue(None, "ls", false), 6);
    assert!(matches!(response, Response::Added(1)));
    let task = &handler.state.tasks[1];
    assert_eq!(task.id, 1);
    assert_eq!(task.command, "ls");
    assert_eq!(task.arguments, vec!["1".to_string()]);
    assert_eq!(task.path, "/tmp");
    assert_eq!(task.group, "default");
    assert_eq!(task.status, TaskStatus::Queued);
    assert_eq!(task.result, None);
    assert_eq!(task.start, None);
    assert_eq!(task.end, None);
    assert_eq!(handler.state.next_id, 2);
    assert!(handler.children.is_empty());
    assert_eq!(handler.state.find_task(1), Some(1));
    assert_eq!(handler.state.find_task(2), None);
}

#[test]
fn task_for_unknown_group_is_refused() {
    let mut handler = TaskHandler::new(State::new(1, false, false));
    let (response, effects) = handler.handle_message(queue(Some("nowhere"), "ls", true), 5);
    assert!(matches!(response, Response::Failure(Rejection::NoSuchGroup)));
    assert!(effects.is_empty());
    assert!(handler.state.tasks.is_empty());
    assert_eq!(handler.state.next_id, 0);
}

#[test]
fn scheduler_fills_each_group_up_to_its_limit() {
    let mut handler = two_groups(1, 2, false, false);
    for _ in 0..3 {
        handler.handle_message(queue(None, "a", false), 1);
    }
    for _ in 0..3 {
        handler.handle_message(queue(Some("test"), "b", false), 1);
    }
    let effects = handler.spawn_new(9);
    assert_eq!(effects, vec![Effect::Spawn(0), Effect::Spawn(3), Effect::Spawn(4), Effect::Save]);
    assert_eq!(
        statuses(&handler),
        vec![
            TaskStatus::Running,
            TaskStatus::Queued,
            TaskStatus::Queued,
            TaskStatus::Running,
            TaskStatus::Running,
            TaskStatus::Queued,
        ]
    );
    assert_eq!(handler.state.tasks[0].start, Some(9));
    assert_eq!(handler.state.tasks[1].start, None);
    assert_eq!(running_in(&handler, "default"), 1);
    assert_eq!(running_in(&handler, "test"), 2);
    assert_eq!(
        handler.children,
        vec![
            Child { task_id: 0, state: ChildState::Running },
            Child { task_id: 3, state: ChildState::Running },
            Child { task_id: 4, state: ChildState::Running },
        ]
    );
    // A second pass finds every group full.
    assert!(handler.spawn_new(10).is_empty());
    // A finished task frees a slot for the next one of its group.
    handler.record_poll(3, ChildState::Exited(Some(0)));
    handler.handle_finished_tasks(11);
    assert_eq!(handler.spawn_new(12), vec![Effect::Spawn(5), Effect::Save]);
    assert_eq!(running_in(&handler, "test"), 2);
}

#[test]
fn immediate_start_respects_the_limit() {
    let mut handler = TaskHandler::new(State::new(1, false, false));
    let (_, effects) = handler.handle_message(queue(None, "a", true), 1);
    assert_eq!(effects, vec![Effect::Spawn(0), Effect::Save]);
    let (response, effects) = handler.handle_message(queue(None, "b", true), 2);
    assert!(matches!(response, Response::Added(1)));
    assert_eq!(effects, vec![Effect::Save]);
    assert_eq!(statuses(&handler), vec![TaskStatus::Running, TaskStatus::Queued]);
    assert_eq!(running_in(&handler, "default"), 1);
}

#[test]
fn a_group_with_limit_zero_runs_nothing() {
    let mut handler = TaskHandler::new(State::new(0, false, false));
    handler.handle_message(queue(None, "a", true), 1);
    assert!(handler.spawn_new(2).is_empty());
    assert_eq!(statuses(&handler), vec![TaskStatus::Queued]);
    let (response, effects) =
        handler.handle_message(Message::Start(StartMessage { task_ids: Some(vec![0]) }), 3);
    assert_eq!(effects, vec![Effect::Save]);
    match response {
        Response::Tasks(replies) => {
            assert_eq!(replies, vec![TaskReply { task_id: 0, rejection: Some(Rejection::GroupFull) }])
        }
        other => panic!("unexpected response {:?}", other),
    }
    assert_eq!(statuses(&handler), vec![TaskStatus::Queued]);
}

#[test]
fn paused_daemon_schedules_nothing() {
    let mut handler = two_groups(1, 1, false, false);
    handler.handle_message(queue(None, "a", false), 1);
    handler.handle_message(queue(Some("test"), "b", false), 1);
    let (response, effects) =
        handler.handle_message(Message::Pause(PauseMessage { wait: true, task_ids: None }), 2);
    assert!(matches!(response, Response::Success));
    assert_eq!(effects, vec![Effect::Save]);
    assert!(handler.state.paused);
    assert!(handler.spawn_new(3).is_empty());
    // Neither does an immediate start get through.
    let (_, effects) = handler.handle_message(queue(None, "c", true), 4);
    assert_eq!(effects, vec![Effect::Save]);
    assert_eq!(statuses(&handler), vec![TaskStatus::Queued; 3]);
    let (response, _) = handler.handle_message(Message::Start(StartMessage { task_ids: None }), 5);
    assert!(matches!(response, Response::Success));
    assert!(!handler.state.paused);
    assert_eq!(handler.spawn_new(6), vec![Effect::Spawn(0), Effect::Spawn(1), Effect::Save]);
}

#[test]
fn pause_without_wait_stops_the_running_processes() {
    let mut handler = two_groups(2, 1, false, false);
    handler.handle_message(queue(None, "a", true), 1);
    handler.handle_message(queue(Some("test"), "b", true), 1);
    handler.handle_message(queue(None, "c", false), 1);
    let (_, effects) =
        handler.handle_message(Message::Pause(PauseMessage { wait: false, task_ids: None }), 2);
    assert_eq!(effects, vec![Effect::Kill(0), Effect::Kill(1), Effect::Save]);
    // The tasks run until their processes have been reaped.
    assert_eq!(statuses(&handler), vec![TaskStatus::Running, TaskStatus::Running, TaskStatus::Queued]);
    handler.record_poll(0, ChildState::Exited(None));
    handler.record_poll(1, ChildState::Exited(None));
    handler.handle_finished_tasks(3);
    assert_eq!(handler.state.tasks[0].result, Some(TaskResult::Killed));
    assert_eq!(handler.state.tasks[1].result, Some(TaskResult::Killed));
    assert!(handler.spawn_new(4).is_empty());
}

#[test]
fn failing_task_pauses_its_group_until_start() {
    let mut handler = two_groups(1, 1, true, false);
    handler.handle_message(queue(Some("test"), "exit 7", true), 1);
    handler.handle_message(queue(Some("test"), "second", false), 1);
    handler.handle_message(queue(None, "other", false), 1);
    handler.record_poll(0, ChildState::Exited(Some(7)));
    handler.handle_finished_tasks(2);
    assert_eq!(handler.state.tasks[0].result, Some(TaskResult::Failed(7)));
    // The other group goes on, the failed one does not.
    assert_eq!(handler.spawn_new(3), vec![Effect::Spawn(2), Effect::Save]);
    assert_eq!(handler.state.tasks[1].status, TaskStatus::Queued);
    assert!(handler.spawn_new(4).is_empty());
    assert_eq!(handler.state.tasks[1].status, TaskStatus::Queued);
    handler.handle_message(Message::Start(StartMessage { task_ids: None }), 5);
    assert!(!handler.state.groups[1].paused);
    assert_eq!(handler.spawn_new(6), vec![Effect::Spawn(1), Effect::Save]);
    assert_eq!(handler.state.tasks[1].status, TaskStatus::Running);
}

#[test]
fn failing_task_pauses_everything_with_pause_all() {
    let mut handler = two_groups(1, 1, false, true);
    handler.handle_message(queue(Some("test"), "false", true), 1);
    handler.handle_message(queue(Some("test"), "second", false), 1);
    handler.handle_message(queue(None, "other", false), 1);
    handler.record_poll(0, ChildState::Exited(Some(1)));
    handler.handle_finished_tasks(2);
    assert!(handler.state.paused);
    assert!(handler.spawn_new(3).is_empty());
    assert_eq!(statuses(&handler), vec![TaskStatus::Done, TaskStatus::Queued, TaskStatus::Queued]);
    handler.handle_message(Message::Start(StartMessage { task_ids: None }), 4);
    assert_eq!(handler.spawn_new(5), vec![Effect::Spawn(1), Effect::Spawn(2), Effect::Save]);
}

#[test]
fn forced_start_overrides_a_pause_but_not_the_limit() {
    let mut handler = two_groups(1, 1, true, false);
    handler.handle_message(queue(None, "a", false), 1);
    handler.handle_message(queue(None, "b", false), 1);
    handler.handle_message(Message::Pause(PauseMessage { wait: true, task_ids: None }), 2);
    let (response, effects) =
        handler.handle_message(Message::Start(StartMessage { task_ids: Some(vec![1, 0, 9]) }), 3);
    assert_eq!(effects, vec![Effect::Spawn(1), Effect::Save]);
    match response {
        Response::Tasks(replies) => assert_eq!(
            replies,
            vec![
                TaskReply { task_id: 1, rejection: None },
                TaskReply { task_id: 0, rejection: Some(Rejection::GroupFull) },
                TaskReply { task_id: 9, rejection: Some(Rejection::NoSuchTask) },
            ]
        ),
        other => panic!("unexpected response {:?}", other),
    }
    assert_eq!(statuses(&handler), vec![TaskStatus::Queued, TaskStatus::Running]);
    assert_eq!(handler.state.tasks[1].start, Some(3));
    // The override is one-off: the daemon stays paused.
    assert!(handler.state.paused);
    assert_eq!(running_in(&handler, "default"), 1);
    // A running task cannot be started again.
    let (response, _) =
        handler.handle_message(Message::Start(StartMessage { task_ids: Some(vec![1]) }), 4);
    match response {
        Response::Tasks(replies) => assert_eq!(
            replies,
            vec![TaskReply { task_id: 1, rejection: Some(Rejection::InState(TaskStatus::Running)) }]
        ),
        other => panic!("unexpected response {:?}", other),
    }
}

#[test]
fn process_map_is_ordered_by_task_id() {
    let mut handler = TaskHandler::new(State::new(3, false, false));
    for _ in 0..3 {
        handler.handle_message(queue(None, "a", false), 1);
    }
    handler.force_start(2, 1);
    handler.force_start(0, 2);
    handler.force_start(1, 3);
    let ids: Vec<usize> = handler.children.iter().map(|c| c.task_id).collect();
    assert_eq!(ids, vec![0, 1, 2]);
    assert_eq!(handler.find_child(1), Some(1));
    assert_eq!(handler.find_child(3), None);
}

#[test]
fn process_map_holds_exactly_the_running_tasks() {
    let mut handler = two_groups(2, 1, true, false);
    for i in 0..6 {
        let group = if i % 2 == 0 { None } else { Some("test") };
        handler.handle_message(queue(group, "a", i < 2), i as i64);
    }
    let check = |handler: &TaskHandler| {
        for task in handler.state.tasks.iter() {
            let has_child = handler.children.iter().any(|c| c.task_id == task.id);
            assert_eq!(has_child, task.status == TaskStatus::Running);
            assert_eq!(task.result.is_some(), task.status == TaskStatus::Done);
        }
        for child in handler.children.iter() {
            assert!(handler.state.tasks.iter().any(|t| t.id == child.task_id));
        }
        for group in handler.state.groups.iter() {
            assert!(handler.state.running_in_group(&group.name) <= group.parallel_limit);
        }
    };
    check(&handler);
    handler.spawn_new(10);
    check(&handler);
    handler.record_poll(0, ChildState::Exited(Some(0)));
    handler.record_poll(1, ChildState::Exited(Some(9)));
    check(&handler);
    handler.handle_finished_tasks(11);
    check(&handler);
    handler.spawn_new(12);
    check(&handler);
    handler.handle_message(Message::Start(StartMessage { task_ids: Some(vec![3, 4, 5]) }), 13);
    check(&handler);
    handler.handle_message(Message::Clean, 14);
    check(&handler);
    handler.handle_message(Message::Reset, 15);
    check(&handler);
}

#[test]
fn is_eligible_and_may_schedule_agree_with_the_pass() {
    let mut handler = two_groups(1, 1, false, false);
    handler.handle_message(queue(None, "a", false), 1);
    handler.handle_message(queue(None, "b", false), 1);
    assert!(handler.is_eligible(0));
    assert!(handler.is_eligible(1));
    assert!(handler.state.may_schedule(&"default".to_string()));
    assert!(!handler.state.may_schedule(&"nowhere".to_string()));
    assert!(handler.state.has_free_slot(&"test".to_string()));
    handler.start_task(0, 2);
    assert!(!handler.is_eligible(0));
    assert!(!handler.is_eligible(1));
    assert!(!handler.state.has_free_slot(&"default".to_string()));
    assert!(!handler.state.may_schedule(&"default".to_string()));
}
