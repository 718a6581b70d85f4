use vstd::prelude::*;
use crate::client::cli::{CliError, SubCommand, interpret};
use crate::message::{MessageView, ids_view};

verus! {

/// The client hands task ids on as they are, negative ones too: every
/// subcommand that names tasks stands for the request of the same kind
/// with the same ids in the same order. Turning ids down is left to the
/// daemon, which answers for each id on its own.
pub proof fn law_task_ids_are_handed_on(ids: Vec<i32>, start_immediately: bool)
    ensures
        interpret(SubCommand::Remove { task_ids: ids }) == Ok::<MessageView, CliError>(
            MessageView::Remove { task_ids: ids@ },
        ),
        interpret(SubCommand::Stash { task_ids: ids }) == Ok::<MessageView, CliError>(
            MessageView::Stash { task_ids: ids@ },
        ),
        interpret(SubCommand::Enqueue { task_ids: ids }) == Ok::<MessageView, CliError>(
            MessageView::Enqueue { task_ids: ids@ },
        ),
        interpret(SubCommand::Restart { task_ids: ids, start_immediately }) == Ok::<MessageView, CliError>(
            MessageView::Restart { task_ids: ids@, start_immediately },
        ),
        interpret(SubCommand::Start { task_ids: Some(ids) }) == Ok::<MessageView, CliError>(
            MessageView::Start { task_ids: Some(ids@) },
        ),
        interpret(SubCommand::Pause { wait: false, task_ids: Some(ids) }) == Ok::<MessageView, CliError>(
            MessageView::Pause { wait: false, task_ids: Some(ids@) },
        ),
{
}

/// A pause or a start without task ids stands for the daemon-wide request,
/// and a pause carries `wait` as it was given.
pub proof fn law_scope_is_handed_on(wait: bool)
    ensures
        interpret(SubCommand::Start { task_ids: None }) == Ok::<MessageView, CliError>(
            MessageView::Start { task_ids: None },
        ),
        interpret(SubCommand::Pause { wait, task_ids: None }) == Ok::<MessageView, CliError>(
            MessageView::Pause { wait, task_ids: None },
        ),
{
    assert(ids_view(None::<Vec<i32>>) == None::<Seq<i32>>);
}

/// Exactly two command lines stand for no request: a task to add without
/// a command, and `wait` together with task ids.
pub proof fn law_refused_command_lines(cmd: SubCommand)
    ensures
        interpret(cmd) is Err <==> (cmd matches SubCommand::Add { command, .. } && command.len() == 0) || (
        cmd matches SubCommand::Pause { wait, task_ids } && wait && task_ids is Some),
        interpret(cmd) matches Err(error) ==> (error == CliError::EmptyCommand <==> cmd is Add),
{
}

} // verus!
