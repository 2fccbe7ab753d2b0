//! The description of a process to launch.

use vstd::prelude::*;

use crate::bytes::contents;
use crate::env::{optional_contents, EnvChanges};

verus! {

/// What a standard stream of a process is connected to.
#[derive(Clone, Copy, Debug, PartialEq, Eq, Structural)]
pub enum Stdio {
    /// The same stream of this process.
    Inherit,
    /// Nothing.
    Null,
    /// A pipe to this process.
    Piped,
    /// The standard error of this process.
    ParentStderr,
    /// An open handle, by the number that whoever launches the process knows
    /// it by.
    Handle(u64),
}

/// A process to launch.
pub struct Command {
    pub program: Vec<u8>,
    pub args: Vec<Vec<u8>>,
    pub env: EnvChanges,
    pub current_dir: Option<Vec<u8>>,
    pub stdin: Option<Stdio>,
    pub stdout: Option<Stdio>,
    pub stderr: Option<Stdio>,
}

/// What a `Command` holds.
#[verifier::ext_equal]
pub struct CommandView {
    /// The program, without its arguments.
    pub program: Seq<u8>,
    /// The arguments, without the program.
    pub args: Seq<Seq<u8>>,
    /// The variables to set, and, with `None`, those to remove.
    pub env: Map<Seq<u8>, Option<Seq<u8>>>,
    /// Whether no variable is inherited.
    pub env_cleared: bool,
    /// The directory to run in, if it is not that of this process.
    pub current_dir: Option<Seq<u8>>,
    /// The streams that have been configured.
    pub stdin: Option<Stdio>,
    pub stdout: Option<Stdio>,
    pub stderr: Option<Stdio>,
}

impl View for Command {
    type V = CommandView;

    open spec fn view(&self) -> CommandView {
        CommandView {
            program: self.program@,
            args: contents(self.args@),
            env: self.env.vars(),
            env_cleared: self.env.cleared(),
            current_dir: optional_contents(self.current_dir),
            stdin: self.stdin,
            stdout: self.stdout,
            stderr: self.stderr,
        }
    }
}

/// What a command is taken to hold is what its fields hold, each of them whole.
pub proof fn law_command_fields(command: Command)
    ensures
        command@.program == command.program@,
        command@.args.len() == command.args@.len(),
        forall|i: int|
            0 <= i < command.args@.len() ==> #[trigger] command@.args[i] == command.args@[i]@,
        command@.env == command.env.vars(),
        command@.env_cleared == command.env.cleared(),
        command@.current_dir is Some <==> command.current_dir is Some,
        command.current_dir matches Some(dir) ==> command@.current_dir == Some(dir@),
        command@.stdin == command.stdin,
        command@.stdout == command.stdout,
        command@.stderr == command.stderr,
{
}

} // verus!
