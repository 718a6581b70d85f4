use pueue::client::cli::{get_message_from_opt, Opt, SubCommand};
use pueue::daemon::task_handler::{ChildState, Effect, TaskHandler};
use pueue::message::{Message, Response, StartMessage};
use pueue::state::State;
use pueue::task::{TaskResult, TaskStatus};

fn request(words: &[&str], start_immediately: bool) -> Message {
    let command = words.iter().map(|w| w.to_string()).collect();
    let opt = Opt { verbose: 0, config_path: None, cmd: SubCommand::Add { command, start_immediately } };
    get_message_from_opt(&opt).unwrap()
}

fn status_of(handler: &mut TaskHandler, id: usize) -> (TaskStatus, Option<TaskResult>) {
    match handler.handle_message(Message::Status, 0) {
        (Response::Status(state), _) => {
            let task = state.tasks.iter().find(|t| t.id == id).unwrap();
            (task.status, task.result)
        }
        other => panic!("unexpected response {:?}", other),
    }
}

#[test]
fn sleep_runs_and_then_succeeds() {
    let mut handler = TaskHandler::new(State::new(1, true, false));
    let (response, effects) = handler.handle_message(request(&["sleep", "1"], true), 100);
    assert!(matches!(response, Response::Added(0)));
    assert_eq!(effects, vec![Effect::Spawn(0), Effect::Save]);
    assert_eq!(status_of(&mut handler, 0), (TaskStatus::Running, None));
    // The process has not exited yet.
    handler.record_poll(0, ChildState::Running);
    assert!(handler.handle_finished_tasks(100).is_empty());
    assert_eq!(status_of(&mut handler, 0), (TaskStatus::Running, None));
    // More than a second later it has.
    handler.record_poll(0, ChildState::Exited(Some(0)));
    assert_eq!(handler.handle_finished_tasks(102), vec![Effect::Callback(0), Effect::Save]);
    assert_eq!(status_of(&mut handler, 0), (TaskStatus::Done, Some(TaskResult::Success)));
    assert!(!handler.state.groups[0].paused);
}

#[test]
fn exit_seven_fails_and_holds_the_group_until_start() {
    let mut handler = TaskHandler::new(State::new(1, true, false));
    handler.handle_message(request(&["exit", "7"], true), 1);
    let (response, effects) = handler.handle_message(request(&["echo", "second"], false), 1);
    assert!(matches!(response, Response::Added(1)));
    assert_eq!(effects, vec![Effect::Save]);
    assert!(handler.spawn_new(2).is_empty());
    handler.record_poll(0, ChildState::Exited(Some(7)));
    handler.handle_finished_tasks(3);
    assert_eq!(status_of(&mut handler, 0), (TaskStatus::Done, Some(TaskResult::Failed(7))));
    for now in 4..8 {
        assert!(handler.handle_finished_tasks(now).is_empty());
        assert!(handler.handle_reset().is_empty());
        assert!(handler.spawn_new(now).is_empty());
        assert_eq!(status_of(&mut handler, 1), (TaskStatus::Queued, None));
    }
    handler.handle_message(Message::Start(StartMessage { task_ids: None }), 8);
    assert_eq!(handler.spawn_new(9), vec![Effect::Spawn(1), Effect::Save]);
    assert_eq!(status_of(&mut handler, 1), (TaskStatus::Running, None));
}
