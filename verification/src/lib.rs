//! A minimal command-line dispatch library.
//!
//! A `Commands` registry maps subcommand names to descriptions and
//! handlers.  The dispatcher resolves the first invocation argument to a
//! registered subcommand, forwards the remaining arguments to its handler,
//! and otherwise produces usage output or a "did you mean" suggestion
//! based on Levenshtein edit distance.  All output is returned as lines of
//! text; callers decide where to print them.

pub mod command;
pub mod distance;
pub mod lex;

pub use command::Command;
pub use command::CommandResult;
pub use command::CommandRunner;
pub use command::Commands;
pub use command::ExitCode;
pub use distance::levenshtein_distance;
