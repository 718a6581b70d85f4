use std::path::PathBuf;
use vstd::prelude::*;
use crate::message::{
    AddMessage, EnqueueMessage, Message, MessageView, PauseMessage, RemoveMessage, RestartMessage,
    StartMessage, StashMessage, ids_view,
};

verus! {

/// `std::path::PathBuf`, an owned file system path. Nothing is stated of
/// its contents: the library only carries such a value along.
#[verifier::external_type_specification]
#[verifier::external_body]
pub struct ExPathBuf(PathBuf);

/// What the user asks the daemon to do.
#[derive(Debug)]
#[allow(inconsistent_fields)]
pub enum SubCommand {
    /// Queue a task for execution.
    Add {
        /// The command that should be added: the executable and its arguments.
        command: Vec<String>,
        /// Start the task immediately.
        start_immediately: bool,
    },
    /// Remove tasks from the list. Running tasks cannot be removed.
    Remove {
        /// The task ids to be removed.
        task_ids: Vec<i32>,
    },
    /// Wake the daemon from its paused state, or start the named tasks at
    /// once without affecting the daemon or any other task.
    Start {
        task_ids: Option<Vec<i32>>,
    },
    /// Queue finished tasks again.
    Restart {
        task_ids: Vec<i32>,
        /// Start the new tasks immediately.
        start_immediately: bool,
    },
    /// Pause the daemon, or the named tasks. A paused daemon starts no new tasks.
    Pause {
        /// Pause the daemon, but let any running tasks finish by themselves.
        /// Cannot be combined with task ids.
        wait: bool,
        task_ids: Option<Vec<i32>>,
    },
    /// Stash some tasks. These tasks won't be automatically started.
    Stash {
        task_ids: Vec<i32>,
    },
    /// Enqueue stashed tasks. They'll be handled normally afterwards.
    Enqueue {
        task_ids: Vec<i32>,
    },
    /// Display the current status of all tasks.
    Status,
    /// Kill all running tasks, remove all tasks and reset the ids.
    Reset,
    /// Remove all finished tasks from the list, together with their logs.
    Clean,
}

/// The parsed command line of the client.
#[derive(Debug)]
pub struct Opt {
    /// How often the verbose flag was given.
    pub verbose: u8,
    /// Optional custom config path.
    pub config_path: Option<PathBuf>,
    pub cmd: SubCommand,
}

/// Why a command line cannot be turned into a request.
#[derive(Clone, Copy, Debug, PartialEq, Eq, Structural)]
pub enum CliError {
    /// A task was to be added, but no command was given.
    EmptyCommand,
    /// `wait` was given together with task ids.
    WaitWithTasks,
}

impl CliError {
    /// The reason in words.
    pub open spec fn text(self) -> Seq<char> {
        match self {
            CliError::EmptyCommand => "no command was given for the task to add"@,
            CliError::WaitWithTasks => "`wait` cannot be combined with task ids"@,
        }
    }

    /// Describes the reason in words.
    pub fn describe(&self) -> (s: String)
        ensures
            s@ == self.text(),
    {
        match self {
            CliError::EmptyCommand => String::from_str("no command was given for the task to add"),
            CliError::WaitWithTasks => String::from_str("`wait` cannot be combined with task ids"),
        }
    }
}

/// The request that a subcommand stands for. The first word of an added
/// command is the executable, the others are its arguments; the task runs
/// in the root directory and joins the default group. Task ids are handed
/// on as they are: it is the daemon that answers for each of them. Only
/// an added task without a command, and `wait` together with task ids,
/// stand for no request.
pub open spec fn interpret(cmd: SubCommand) -> Result<MessageView, CliError> {
    match cmd {
        SubCommand::Add { command, start_immediately } => if command.len() == 0 {
            Err(CliError::EmptyCommand)
        } else {
            Ok(
                MessageView::Add {
                    command: command.deep_view()[0],
                    arguments: command.deep_view().drop_first(),
                    path: "/"@,
                    group: None,
                    start_immediately,
                },
            )
        },
        SubCommand::Remove { task_ids } => Ok(MessageView::Remove { task_ids: task_ids@ }),
        SubCommand::Start { task_ids } => Ok(MessageView::Start { task_ids: ids_view(task_ids) }),
        SubCommand::Restart { task_ids, start_immediately } => Ok(
            MessageView::Restart { task_ids: task_ids@, start_immediately },
        ),
        SubCommand::Pause { wait, task_ids } => if wait && task_ids is Some {
            Err(CliError::WaitWithTasks)
        } else {
            Ok(MessageView::Pause { wait, task_ids: ids_view(task_ids) })
        },
        SubCommand::Stash { task_ids } => Ok(MessageView::Stash { task_ids: task_ids@ }),
        SubCommand::Enqueue { task_ids } => Ok(MessageView::Enqueue { task_ids: task_ids@ }),
        SubCommand::Status => Ok(MessageView::Status),
        SubCommand::Reset => Ok(MessageView::Reset),
        SubCommand::Clean => Ok(MessageView::Clean),
    }
}

/// A copy of a list of task ids.
fn copy_ids(ids: &Vec<i32>) -> (copy: Vec<i32>)
    ensures
        copy@ == ids@,
{
    let mut copy: Vec<i32> = Vec::new();
    let mut k: usize = 0;
    while k < ids.len()
        invariant
            k <= ids.len(),
            copy@ == ids@.take(k as int),
        decreases ids.len() - k,
    {
        copy.push(ids[k]);
        k += 1;
        proof {
            assert(copy@ =~= ids@.take(k as int));
        }
    }
    proof {
        assert(ids@.take(k as int) =~= ids@);
    }
    copy
}

/// A copy of an optional list of task ids.
fn copy_optional_ids(ids: &Option<Vec<i32>>) -> (copy: Option<Vec<i32>>)
    ensures
        ids_view(copy) == ids_view(*ids),
{
    match ids {
        Some(given) => Some(copy_ids(given)),
        None => None,
    }
}

/// Turns the parsed command line into the request for the daemon.
pub fn get_message_from_opt(opt: &Opt) -> (r: Result<Message, CliError>)
    ensures
        match r {
            Ok(message) => interpret(opt.cmd) == Ok::<MessageView, CliError>(message@),
            Err(error) => interpret(opt.cmd) == Err::<MessageView, CliError>(error),
        },
{
    match &opt.cmd {
        SubCommand::Add { command, start_immediately } => {
            if command.len() == 0 {
                return Err(CliError::EmptyCommand);
            }
            let mut arguments = command.clone();
            proof {
                assert(arguments.deep_view() =~= command.deep_view());
            }
            let executable = arguments.remove(0);
            proof {
                assert(arguments.deep_view() =~= command.deep_view().drop_first());
            }
            Ok(
                Message::Add(
                    AddMessage {
                        command: executable,
                        arguments,
                        path: String::from_str("/"),
                        group: None,
                        start_immediately: *start_immediately,
                    },
                ),
            )
        },
        SubCommand::Remove { task_ids } => Ok(Message::Remove(RemoveMessage { task_ids: copy_ids(task_ids) })),
        SubCommand::Start { task_ids } => Ok(
            Message::Start(StartMessage { task_ids: copy_optional_ids(task_ids) }),
        ),
        SubCommand::Restart { task_ids, start_immediately } => Ok(
            Message::Restart(
                RestartMessage { task_ids: copy_ids(task_ids), start_immediately: *start_immediately },
            ),
        ),
        SubCommand::Pause { wait, task_ids } => {
            if *wait && task_ids.is_some() {
                return Err(CliError::WaitWithTasks);
            }
            Ok(Message::Pause(PauseMessage { wait: *wait, task_ids: copy_optional_ids(task_ids) }))
        },
        SubCommand::Stash { task_ids } => Ok(Message::Stash(StashMessage { task_ids: copy_ids(task_ids) })),
        SubCommand::Enqueue { task_ids } => Ok(
            Message::Enqueue(EnqueueMessage { task_ids: copy_ids(task_ids) }),
        ),
        SubCommand::Status => Ok(Message::Status),
        SubCommand::Reset => Ok(Message::Reset),
        SubCommand::Clean => Ok(Message::Clean),
    }
}

} // verus!
