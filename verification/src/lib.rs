//! The logic of `vssh`, an SSH wrapper that lets a `code` command in a remote
//! shell open the local VS Code through Remote-SSH.
//!
//! A session runs SSH with a reverse tunnel to a bridge on the local machine.
//! The remote `code` command sends its arguments through the tunnel, and the
//! bridge translates them and starts the local VS Code command.
//!
//! - `cli` reads the command line.
//! - `session` says how SSH is run, and when it is tried again.
//! - `shell` builds and quotes the command for the remote shell.
//! - `token` draws the session's token and its remote port.
//! - `bridge` decides which requests are accepted and how they are answered.
//! - `translate` and `path` translate the arguments of a request.
//! - `authority` builds the target that VS Code connects to.
//! - `program` finds the local VS Code program.
//! - `error` names what can go wrong, and `text`, `number`, `headers` and
//!   `shim` hold what the others share.

pub mod authority;
pub mod bridge;
pub mod cli;
pub mod error;
pub mod headers;
pub mod number;
pub mod path;
pub mod program;
pub mod session;
pub mod shell;
pub mod shim;
pub mod text;
pub mod token;
pub mod translate;
