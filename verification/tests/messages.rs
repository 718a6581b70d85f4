use pueue::daemon::task_handler::messages::TaskCommand;
use pueue::daemon::task_handler::{ChildState, Effect, TaskHandler};
use pueue::message::{
    AddMessage, EnqueueMessage, Message, PauseMessage, Rejection, RemoveMessage, Response,
    RestartMessage, StartMessage, StashMessage, TaskReply,
};
use pueue::state::State;
use pueue::task::{TaskResult, TaskStatus};

fn submit(command: &str, start_immediately: bool) -> Message {
    Message::Add(AddMessage {
        command: command.to_string(),
        arguments: vec!["-x".to_string(), "y".to_string()],
        path: "/home".to_string(),
        group: None,
        start_immediately,
    })
}

fn replies_of(response: Response) -> Vec<TaskReply> {
    match response {
        Response::Tasks(replies) => replies,
        other => panic!("unexpected response {:?}", other),
    }
}

fn ok(task_id: i32) -> TaskReply {
    TaskReply { task_id, rejection: None }
}

fn refused(task_id: i32, rejection: Rejection) -> TaskReply {
    TaskReply { task_id, rejection: Some(rejection) }
}

fn ids(handler: &TaskHandler) -> Vec<usize> {
    handler.state.tasks.iter().map(|t| t.id).collect()
}

/// Tasks 0..5 in the states queued, stashed, running, paused, done.
fn one_of_each() -> TaskHandler {
    let mut handler = TaskHandler::new(State::new(2, false, false));
    for _ in 0..5 {
        handler.handle_message(submit("cmd", false), 1);
    }
    assert_eq!(handler.stash_task(1), None);
    assert_eq!(handler.force_start(2, 2).0, None);
    assert_eq!(handler.pause_task(3).0, None);
    assert_eq!(handler.force_start(4, 2).0, None);
    handler.record_poll(4, ChildState::Exited(Some(0)));
    handler.handle_finished_tasks(3);
    let statuses: Vec<TaskStatus> = handler.state.tasks.iter().map(|t| t.status).collect();
    assert_eq!(
        statuses,
        vec![
            TaskStatus::Queued,
            TaskStatus::Stashed,
            TaskStatus::Running,
            TaskStatus::Paused,
            TaskStatus::Done,
        ]
    );
    handler
}

#[test]
fn running_task_cannot_be_removed() {
    let mut handler = one_of_each();
    let (response, effects) =
        handler.handle_message(Message::Remove(RemoveMessage { task_ids: vec![2] }), 9);
    assert_eq!(replies_of(response), vec![refused(2, Rejection::InState(TaskStatus::Running))]);
    assert_eq!(effects, vec![Effect::Save]);
    assert_eq!(ids(&handler), vec![0, 1, 2, 3, 4]);
    assert_eq!(handler.state.tasks[2].status, TaskStatus::Running);
    assert_eq!(handler.state.tasks[2].start, Some(2));
    assert_eq!(handler.children.len(), 1);
}

#[test]
fn waiting_and_finished_tasks_can_be_removed() {
    let mut handler = one_of_each();
    let (response, _) =
        handler.handle_message(Message::Remove(RemoveMessage { task_ids: vec![0, 1, 3, 4, 7, 0] }), 9);
    assert_eq!(
        replies_of(response),
        vec![
            ok(0),
            ok(1),
            ok(3),
            ok(4),
            refused(7, Rejection::NoSuchTask),
            refused(0, Rejection::NoSuchTask),
        ]
    );
    assert_eq!(ids(&handler), vec![2]);
    match handler.handle_message(Message::Status, 10) {
        (Response::Status(state), effects) => {
            assert!(effects.is_empty());
            assert_eq!(state.tasks.len(), 1);
            assert_eq!(state.tasks[0].id, 2);
        }
        other => panic!("unexpected response {:?}", other),
    }
    // Removed ids are not handed out again.
    let (response, _) = handler.handle_message(submit("next", false), 11);
    assert!(matches!(response, Response::Added(5)));
}

#[test]
fn status_is_a_snapshot() {
    let mut handler = one_of_each();
    let (response, effects) = handler.handle_message(Message::Status, 4);
    assert!(effects.is_empty());
    let snapshot = match response {
        Response::Status(state) => state,
        other => panic!("unexpected response {:?}", other),
    };
    assert_eq!(snapshot.tasks.len(), 5);
    assert_eq!(snapshot.tasks[4].result, Some(TaskResult::Success));
    assert_eq!(snapshot.tasks[0].command, "cmd");
    assert_eq!(snapshot.tasks[0].arguments, vec!["-x".to_string(), "y".to_string()]);
    assert_eq!(snapshot.tasks[0].path, "/home");
    assert_eq!(snapshot.groups.len(), 1);
    assert_eq!(snapshot.groups[0].name, "default");
    assert_eq!(snapshot.next_id, 5);
    // Later changes do not reach the snapshot.
    handler.handle_message(Message::Clean, 5);
    assert_eq!(snapshot.tasks.len(), 5);
    assert_eq!(handler.state.tasks.len(), 4);
}

#[test]
fn stash_takes_queued_tasks_only() {
    let mut handler = one_of_each();
    let (response, effects) =
        handler.handle_message(Message::Stash(StashMessage { task_ids: vec![0, 1, 2, 3, 4, 5] }), 9);
    assert_eq!(effects, vec![Effect::Save]);
    assert_eq!(
        replies_of(response),
        vec![
            ok(0),
            refused(1, Rejection::InState(TaskStatus::Stashed)),
            refused(2, Rejection::InState(TaskStatus::Running)),
            refused(3, Rejection::InState(TaskStatus::Paused)),
            refused(4, Rejection::InState(TaskStatus::Done)),
            refused(5, Rejection::NoSuchTask),
        ]
    );
    assert_eq!(handler.state.tasks[0].status, TaskStatus::Stashed);
    // A stashed task is never scheduled.
    assert_eq!(handler.spawn_new(10), vec![]);
    assert_eq!(handler.state.tasks[0].status, TaskStatus::Stashed);
}

#[test]
fn enqueue_takes_stashed_tasks_only() {
    let mut handler = one_of_each();
    let (response, _) =
        handler.handle_message(Message::Enqueue(EnqueueMessage { task_ids: vec![0, 1, 2, 3, 4] }), 9);
    assert_eq!(
        replies_of(response),
        vec![
            refused(0, Rejection::InState(TaskStatus::Queued)),
            ok(1),
            refused(2, Rejection::InState(TaskStatus::Running)),
            refused(3, Rejection::InState(TaskStatus::Paused)),
            refused(4, Rejection::InState(TaskStatus::Done)),
        ]
    );
    assert_eq!(handler.state.tasks[1].status, TaskStatus::Queued);
    assert_eq!(handler.spawn_new(10), vec![Effect::Spawn(0), Effect::Save]);
}

#[test]
fn pause_holds_queued_tasks_and_stops_running_ones() {
    let mut handler = one_of_each();
    let (response, effects) = handler.handle_message(
        Message::Pause(PauseMessage { wait: false, task_ids: Some(vec![0, 1, 2, 3, 4, 8]) }),
        9,
    );
    assert_eq!(effects, vec![Effect::Kill(2), Effect::Save]);
    assert_eq!(
        replies_of(response),
        vec![
            ok(0),
            refused(1, Rejection::InState(TaskStatus::Stashed)),
            ok(2),
            refused(3, Rejection::InState(TaskStatus::Paused)),
            refused(4, Rejection::InState(TaskStatus::Done)),
            refused(8, Rejection::NoSuchTask),
        ]
    );
    assert_eq!(handler.state.tasks[0].status, TaskStatus::Paused);
    assert_eq!(handler.state.tasks[2].status, TaskStatus::Running);
    assert!(!handler.state.paused);
    // A held task is not scheduled.
    assert!(handler.spawn_new(10).is_empty());
    // The stopped process is reaped as killed.
    handler.record_poll(2, ChildState::Exited(None));
    handler.handle_finished_tasks(11);
    assert_eq!(handler.state.tasks[2].result, Some(TaskResult::Killed));
}

#[test]
fn wait_and_task_ids_exclude_each_other() {
    let mut handler = one_of_each();
    let (response, effects) = handler.handle_message(
        Message::Pause(PauseMessage { wait: true, task_ids: Some(vec![0]) }),
        9,
    );
    assert!(matches!(response, Response::Failure(Rejection::WaitWithTasks)));
    assert!(effects.is_empty());
    assert_eq!(handler.state.tasks[0].status, TaskStatus::Queued);
    assert!(!handler.state.paused);
}

#[test]
fn start_resumes_paused_tasks_into_the_queue() {
    let mut handler = one_of_each();
    handler.state.groups[0].paused = true;
    handler.state.paused = true;
    let (response, effects) = handler.handle_message(Message::Start(StartMessage { task_ids: None }), 9);
    assert!(matches!(response, Response::Success));
    assert_eq!(effects, vec![Effect::Save]);
    assert!(!handler.state.paused);
    assert!(!handler.state.groups[0].paused);
    let statuses: Vec<TaskStatus> = handler.state.tasks.iter().map(|t| t.status).collect();
    assert_eq!(
        statuses,
        vec![
            TaskStatus::Queued,
            TaskStatus::Stashed,
            TaskStatus::Running,
            TaskStatus::Queued,
            TaskStatus::Done,
        ]
    );
    assert_eq!(handler.spawn_new(10), vec![Effect::Spawn(0), Effect::Save]);
}

#[test]
fn paused_task_can_be_started_by_id() {
    let mut handler = one_of_each();
    let (response, effects) =
        handler.handle_message(Message::Start(StartMessage { task_ids: Some(vec![3, 1, 4]) }), 9);
    assert_eq!(effects, vec![Effect::Spawn(3), Effect::Save]);
    assert_eq!(
        replies_of(response),
        vec![
            ok(3),
            refused(1, Rejection::InState(TaskStatus::Stashed)),
            refused(4, Rejection::InState(TaskStatus::Done)),
        ]
    );
    assert_eq!(handler.state.tasks[3].status, TaskStatus::Running);
    assert_eq!(handler.state.tasks[3].start, Some(9));
}

#[test]
fn restart_queues_a_copy_of_a_finished_task() {
    let mut handler = one_of_each();
    let (response, effects) = handler.handle_message(
        Message::Restart(RestartMessage { task_ids: vec![4, 0, 6], start_immediately: false }),
        9,
    );
    assert_eq!(effects, vec![Effect::Save]);
    assert_eq!(
        replies_of(response),
        vec![ok(4), refused(0, Rejection::InState(TaskStatus::Queued)), refused(6, Rejection::NoSuchTask)]
    );
    assert_eq!(ids(&handler), vec![0, 1, 2, 3, 4, 5]);
    let copy = &handler.state.tasks[5];
    assert_eq!(copy.command, "cmd");
    assert_eq!(copy.arguments, vec!["-x".to_string(), "y".to_string()]);
    assert_eq!(copy.path, "/home");
    assert_eq!(copy.group, "default");
    assert_eq!(copy.status, TaskStatus::Queued);
    assert_eq!(copy.result, None);
    assert_eq!(copy.start, None);
    assert_eq!(copy.end, None);
    // The finished task stays as it was.
    assert_eq!(handler.state.tasks[4].status, TaskStatus::Done);
    assert_eq!(handler.state.tasks[4].result, Some(TaskResult::Success));
}

#[test]
fn restart_can_start_the_copy_at_once() {
    let mut handler = one_of_each();
    let (response, effects) = handler.handle_message(
        Message::Restart(RestartMessage { task_ids: vec![4, 4], start_immediately: true }),
        9,
    );
    // The group of limit two has one free slot.
    assert_eq!(effects, vec![Effect::Spawn(5), Effect::Save]);
    assert_eq!(replies_of(response), vec![ok(4), ok(4)]);
    assert_eq!(handler.state.tasks[5].status, TaskStatus::Running);
    assert_eq!(handler.state.tasks[5].start, Some(9));
    assert_eq!(handler.state.tasks[6].status, TaskStatus::Queued);
}

#[test]
fn clean_removes_finished_tasks_and_their_logs() {
    let mut handler = one_of_each();
    handler.record_poll(2, ChildState::Exited(Some(1)));
    handler.handle_finished_tasks(5);
    let (response, effects) = handler.handle_message(Message::Clean, 9);
    assert!(matches!(response, Response::Success));
    assert_eq!(effects, vec![Effect::CleanLogs(2), Effect::CleanLogs(4), Effect::Save]);
    assert_eq!(ids(&handler), vec![0, 1, 3]);
    let statuses: Vec<TaskStatus> = handler.state.tasks.iter().map(|t| t.status).collect();
    assert_eq!(statuses, vec![TaskStatus::Queued, TaskStatus::Stashed, TaskStatus::Paused]);
    assert_eq!(handler.state.next_id, 5);
    // Nothing is left to clean.
    let (_, effects) = handler.handle_message(Message::Clean, 10);
    assert_eq!(effects, vec![Effect::Save]);
}

#[test]
fn reset_without_processes_clears_at_once() {
    let mut handler = TaskHandler::new(State::new(1, false, false));
    handler.handle_message(submit("a", false), 1);
    handler.handle_message(submit("b", false), 1);
    let (response, effects) = handler.handle_message(Message::Reset, 2);
    assert!(matches!(response, Response::Success));
    assert_eq!(effects, vec![Effect::ResetLogs, Effect::Save]);
    assert!(handler.state.tasks.is_empty());
    assert!(!handler.full_reset);
    let (response, _) = handler.handle_message(submit("c", false), 3);
    assert!(matches!(response, Response::Added(0)));
    assert_eq!(handler.state.tasks[0].id, 0);
    assert_eq!(handler.state.tasks[0].command, "c");
}

#[test]
fn reset_twice_is_reset_once() {
    let mut handler = one_of_each();
    let (_, first) = handler.handle_message(Message::Reset, 2);
    assert_eq!(first, vec![Effect::Kill(2), Effect::Save]);
    assert!(handler.full_reset);
    let (_, second) = handler.handle_message(Message::Reset, 3);
    assert_eq!(second, vec![Effect::Kill(2), Effect::Save]);
    assert!(handler.full_reset);
    assert_eq!(handler.state.tasks.len(), 5);
    assert_eq!(handler.children.len(), 1);
}

#[test]
fn nothing_starts_while_resetting() {
    let mut handler = one_of_each();
    handler.handle_message(Message::Reset, 2);
    let (response, effects) = handler.handle_message(submit("late", true), 3);
    assert!(matches!(response, Response::Failure(Rejection::Resetting)));
    assert!(effects.is_empty());
    let (response, _) =
        handler.handle_message(Message::Start(StartMessage { task_ids: Some(vec![0]) }), 3);
    assert_eq!(replies_of(response), vec![refused(0, Rejection::Resetting)]);
    let (response, _) = handler.handle_message(
        Message::Restart(RestartMessage { task_ids: vec![4], start_immediately: false }),
        3,
    );
    assert_eq!(replies_of(response), vec![refused(4, Rejection::Resetting)]);
    assert!(handler.spawn_new(4).is_empty());
    assert_eq!(handler.state.tasks.len(), 5);
    assert_eq!(handler.state.tasks[0].status, TaskStatus::Queued);
}

#[test]
fn apply_each_reports_in_the_order_of_the_ids() {
    let mut handler = one_of_each();
    let (replies, effects) = handler.apply_each(TaskCommand::Pause, &vec![2, 0, 2], 9);
    assert_eq!(replies, vec![ok(2), ok(0), ok(2)]);
    assert_eq!(effects, vec![Effect::Kill(2), Effect::Kill(2)]);
    let (rejection, effect) = handler.apply(TaskCommand::Remove, 2, 9);
    assert_eq!(rejection, Some(Rejection::InState(TaskStatus::Running)));
    assert_eq!(effect, None);
    let (rejection, effect) = handler.apply(TaskCommand::Restart(true), 4, 9);
    assert_eq!(rejection, None);
    assert_eq!(effect, Some(Effect::Spawn(5)));
    let (replies, effects) = handler.apply_each(TaskCommand::Stash, &Vec::new(), 9);
    assert!(replies.is_empty());
    assert!(effects.is_empty());
}

#[test]
fn ids_run_out_at_the_largest_number() {
    let mut handler = TaskHandler::new(State::new(1, false, false));
    handler.state.next_id = usize::MAX - 1;
    let (response, _) = handler.handle_message(submit("last", false), 1);
    assert!(matches!(response, Response::Added(id) if id == usize::MAX - 1));
    let (response, effects) = handler.handle_message(submit("none", false), 2);
    assert!(matches!(response, Response::Failure(Rejection::OutOfIds)));
    assert!(effects.is_empty());
    assert_eq!(handler.state.tasks.len(), 1);
    assert_eq!(handler.state.next_id, usize::MAX);
}

#[test]
fn negative_id_names_no_task() {
    let mut handler = one_of_each();
    let (response, effects) =
        handler.handle_message(Message::Remove(RemoveMessage { task_ids: vec![0, -1, i32::MIN] }), 9);
    assert_eq!(effects, vec![Effect::Save]);
    assert_eq!(
        replies_of(response),
        vec![ok(0), refused(-1, Rejection::NoSuchTask), refused(i32::MIN, Rejection::NoSuchTask)]
    );
    // The queued task is removed although the other ids name nothing.
    assert_eq!(ids(&handler), vec![1, 2, 3, 4]);
    for command in [
        TaskCommand::Remove,
        TaskCommand::Stash,
        TaskCommand::Enqueue,
        TaskCommand::Start,
        TaskCommand::Pause,
        TaskCommand::Restart(true),
    ] {
        let (rejection, effect) = handler.apply_named(command, -3, 9);
        assert_eq!(rejection, Some(Rejection::NoSuchTask));
        assert_eq!(effect, None);
    }
    let (rejection, effect) = handler.apply_named(TaskCommand::Pause, 2, 9);
    assert_eq!(rejection, None);
    assert_eq!(effect, Some(Effect::Kill(2)));
    assert_eq!(ids(&handler), vec![1, 2, 3, 4]);
    assert!(handler.is_valid());
}
