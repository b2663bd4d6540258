//! A project-local task runner: manifest discovery, the task registry, and the
//! decisions that drive a task's commands and a sequence of requested tasks.
//! The shell, the file system and the TOML parser stay with the caller.

pub mod error;
pub mod locate;
pub mod manifest;
pub mod project;
pub mod script;
pub mod session;
pub mod startup;
