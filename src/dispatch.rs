use crate::error::AppError;
use crate::file::FileCommand;
use crate::pool::{planned_pool, TaskPool};
use vstd::prelude::*;

verus! {

/// The text given with a command that cannot be found.
pub open spec fn not_found_reason() -> Seq<char> {
    "Command not found in PATH"@
}

/// `e` reports that `command` cannot be found.
pub open spec fn is_command_not_found(e: AppError, command: Seq<char>) -> bool {
    match e {
        AppError::CommandNotFound { command: c, reason } => c@ == command && reason@
            == not_found_reason(),
        _ => false,
    }
}

/// Index of the first command that cannot run, or the length.
pub open spec fn first_unresolved(found: Seq<bool>, j: int) -> int
    decreases found.len() - j,
{
    if j < 0 || j >= found.len() {
        found.len() as int
    } else if !found[j] {
        j
    } else {
        first_unresolved(found, j + 1)
    }
}

proof fn lemma_first_unresolved(found: Seq<bool>, j: int)
    requires
        0 <= j <= found.len(),
    ensures
        j <= first_unresolved(found, j) <= found.len(),
        first_unresolved(found, j) < found.len() ==> !found[first_unresolved(found, j)],
        forall|k: int| j <= k < first_unresolved(found, j) ==> found[k],
    decreases found.len() - j,
{
    if j < found.len() && found[j] {
        lemma_first_unresolved(found, j + 1);
    }
}

/// Starts a run from file commands, given for each whether its program was
/// found. If any was not, the whole run is refused before any task exists,
/// naming the first such command; otherwise the pool is planned.
pub fn dispatch(file_commands: Vec<FileCommand>, found: &Vec<bool>) -> (r: Result<TaskPool, AppError>)
    requires
        found@.len() == file_commands@.len(),
    ensures
        match r {
            Ok(p) => {
                &&& first_unresolved(found@, 0) == found@.len()
                &&& p.wf()
                &&& p@ == planned_pool(file_commands@)
            },
            Err(e) => {
                &&& first_unresolved(found@, 0) < found@.len()
                &&& is_command_not_found(e, file_commands@[first_unresolved(found@, 0)].command@)
            },
        },
{
    proof {
        lemma_first_unresolved(found@, 0);
    }
    let mut i: usize = 0;
    while i < found.len()
        invariant
            i <= found@.len(),
            found@.len() == file_commands@.len(),
            first_unresolved(found@, i as int) == first_unresolved(found@, 0),
        decreases found.len() - i,
    {
        if !found[i] {
            let command = file_commands[i].command.clone();
            return Err(
                AppError::CommandNotFound {
                    command,
                    reason: String::from_str("Command not found in PATH"),
                },
            );
        }
        i = i + 1;
    }
    Ok(TaskPool::plan(file_commands))
}

/// Looks up every command's program on the search path and starts the run
/// if all were found. Which are found depends on the environment; the
/// outcome for each answer is that of `dispatch`.
pub fn execute_commands(file_commands: Vec<FileCommand>) -> (r: Result<TaskPool, AppError>)
    ensures
        match r {
            Ok(p) => p.wf() && p@ == planned_pool(file_commands@),
            Err(e) => exists|k: int|
                0 <= k < file_commands@.len() && is_command_not_found(
                    e,
                    #[trigger] file_commands@[k].command@,
                ),
        },
{
    let mut found: Vec<bool> = Vec::new();
    let mut i: usize = 0;
    while i < file_commands.len()
        invariant
            i <= file_commands@.len(),
            found@.len() == i,
        decreases file_commands.len() - i,
    {
        found.push(file_commands[i].command_exists());
        i = i + 1;
    }
    let r = dispatch(file_commands, &found);
    proof {
        lemma_first_unresolved(found@, 0);
    }
    r
}

} // verus!
