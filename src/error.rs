use vstd::prelude::*;

verus! {

/// Every way a run of the task runner can fail.
#[derive(Debug, Clone)]
pub enum PlzError {
    /// No `plz.toml` in the starting directory or any of its ancestors.
    ManifestNotFound,
    /// Changing into the project root failed; holds the system's message.
    ChdirFailed(String),
    /// Reading the manifest failed; holds the system's message.
    ManifestReadFailed(String),
    /// The manifest is not well-formed structured text; holds the decoder's diagnostic.
    ManifestSyntax(String),
    /// The manifest has an unknown field or a value of the wrong type.
    ManifestSchema(String),
    /// A requested task is not defined by the manifest.
    UnknownTask(String),
    /// The shell reported an error while running the command at this index.
    ExecutorError(usize, String),
    /// The command at this index exited with this non-zero code.
    CommandFailed(usize, i32),
}

} // verus!
