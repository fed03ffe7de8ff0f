//! The sandbox execution boundary: building the exact command line that
//! opens an isolated environment for a branch, and interpreting what the
//! executor reports.
//!
//! Running processes is outside the library; a `CommandExecutor`
//! implementation (or a test fake) performs the calls. What the library owns
//! and proves is the command-line format and the mapping from the executor's
//! outcome to the caller's result.

use vstd::prelude::*;

use crate::error::SupervisionError;
use crate::text::views_of;

verus! {

/// What a one-shot command produced.
#[derive(Debug)]
pub struct CommandOutput {
    pub status: bool,
    pub stdout: String,
    pub stderr: String,
}

/// Executes commands on behalf of the container manager. `execute` is the
/// synchronous one-shot form; `spawn_command` runs a long-lived command with
/// inherited standard streams and reports whether it exited successfully.
/// Implementations do real process work outside the library; nothing can be
/// promised of their outcomes.
pub trait CommandExecutor {
    fn execute(&self, program: String, args: Vec<String>) -> Result<
        CommandOutput,
        SupervisionError,
    >;

    fn spawn_command(&self, program: String, args: Vec<String>) -> Result<bool, SupervisionError>;
}

/// The arguments of `cu environment open` for one branch and shell command.
pub open spec fn spec_container_args(branch: Seq<char>, shell_command: Seq<char>) -> Seq<
    Seq<char>,
> {
    seq![
        "environment"@,
        "open"@,
        "--branch"@,
        branch,
        "--"@,
        "sh"@,
        "-c"@,
        shell_command,
    ]
}

/// Builds the argument vector for opening a sandboxed environment on
/// `branch_name` and running `shell_command` inside it.
pub fn container_args(branch_name: &str, shell_command: &str) -> (r: Vec<String>)
    ensures
        views_of(r@) == spec_container_args(branch_name@, shell_command@),
{
    let mut r: Vec<String> = Vec::new();
    r.push(String::from_str("environment"));
    r.push(String::from_str("open"));
    r.push(String::from_str("--branch"));
    r.push(String::from_str(branch_name));
    r.push(String::from_str("--"));
    r.push(String::from_str("sh"));
    r.push(String::from_str("-c"));
    r.push(String::from_str(shell_command));
    proof {
        assert(views_of(r@) =~= spec_container_args(branch_name@, shell_command@));
    }
    r
}

/// How a long-lived sandbox launch is reported to the caller: success iff
/// the executor launched the command and it exited successfully; a command
/// that ran and failed becomes a `SandboxFailure`.
pub fn interpret_spawn_outcome(outcome: Result<bool, SupervisionError>) -> (r: Result<
    (),
    SupervisionError,
>)
    ensures
        r is Ok <==> outcome == Result::<bool, SupervisionError>::Ok(true),
        outcome == Result::<bool, SupervisionError>::Ok(false) ==> (r matches Err(e) && e
            is SandboxFailure),
        outcome matches Err(e) ==> r == Result::<(), SupervisionError>::Err(e),
{
    match outcome {
        Ok(true) => Ok(()),
        Ok(false) => Err(
            SupervisionError::SandboxFailure(
                String::from_str("Container command exited with a non-zero status"),
            ),
        ),
        Err(e) => Err(e),
    }
}

/// How the availability probe is reported: success iff the probe ran and
/// exited successfully; a probe that ran and failed means the sandbox tool
/// is not correctly installed.
pub fn interpret_probe_outcome(outcome: Result<CommandOutput, SupervisionError>) -> (r: Result<
    (),
    SupervisionError,
>)
    ensures
        r is Ok <==> (outcome matches Ok(o) && o.status),
        (outcome matches Ok(o) && !o.status) ==> (r matches Err(e) && e is SandboxFailure),
        outcome matches Err(e) ==> r == Result::<(), SupervisionError>::Err(e),
{
    match outcome {
        Ok(o) => {
            if o.status {
                Ok(())
            } else {
                Err(
                    SupervisionError::SandboxFailure(
                        String::from_str(
                            "'cu --version' command failed. Ensure container-use is correctly installed.",
                        ),
                    ),
                )
            }
        },
        Err(e) => Err(e),
    }
}

/// Runs commands inside sandboxed environments through an executor.
pub struct ContainerManager<E: CommandExecutor> {
    executor: E,
}

impl<E: CommandExecutor> ContainerManager<E> {
    /// A manager around the given executor.
    pub fn new(executor: E) -> (r: ContainerManager<E>) {
        ContainerManager { executor }
    }

    /// Checks that the `cu` sandbox tool answers `--version` successfully.
    /// What comes back is up to the executor; the result is `Ok` exactly
    /// when the probe reported success.
    pub fn check_cu_exists(&self) -> Result<(), SupervisionError> {
        let mut args: Vec<String> = Vec::new();
        args.push(String::from_str("--version"));
        let outcome = self.executor.execute(String::from_str("cu"), args);
        interpret_probe_outcome(outcome)
    }

    /// Executes `shell_command` inside a sandboxed environment on the given
    /// branch, streaming its output to the caller's process. The argument
    /// vector is exactly `spec_container_args`; the result is `Ok` exactly
    /// when the executor reported a successful exit.
    pub fn run_in_container(&self, branch_name: &str, shell_command: &str) -> Result<
        (),
        SupervisionError,
    > {
        let args = container_args(branch_name, shell_command);
        let outcome = self.executor.spawn_command(String::from_str("cu"), args);
        interpret_spawn_outcome(outcome)
    }
}

} // verus!
