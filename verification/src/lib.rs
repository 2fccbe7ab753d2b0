//! Describing, launching and reporting on child processes.
//!
//! A [`Cmd`] describes a process and says how its status is taken. Whoever runs
//! it does what the system alone can do, and hands the outcome back: what was
//! launched, how it ended, what it wrote. What a command is shown as, what
//! counts as an error and how that is put, and how a process is waited for, is
//! decided here.
//!
//! Programs, arguments, variables and paths are byte strings, as Unix has them.

pub mod bytes;
pub mod child;
pub mod cmd;
pub mod command;
pub mod display;
pub mod env;
pub mod noise;
pub mod path;
pub mod split;
pub mod status;
pub mod style;
pub mod text;

pub use child::CmdChild;
pub use cmd::{Cmd, ColorChoice};
pub use command::{Command, Stdio};
pub use status::{Error, ExitStatus, Output, StatusError};
