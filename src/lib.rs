//! Built-in command core of a POSIX-style shell: the session environment,
//! descriptor bindings, and the `exec`, `exit`, `export`, `read` and `unset`
//! built-ins, with their contracts.
pub mod table;
pub mod bytes;
pub mod env;
pub mod read;
pub mod options;
pub mod error;
mod sys;
pub mod builtin;
pub mod export;
pub mod read_builtin;
pub mod exec;
