//! Selections of the operation dictionary's views.

use vstd::prelude::*;

verus! {

/// Output format of the dictionary views.
#[derive(Debug, Clone, Copy, PartialEq, Eq, Structural)]
pub enum OutputFormat {
    Table,
    Json,
}

/// Dictionary view selection.
#[derive(Debug, Clone, Copy, PartialEq, Eq, Structural)]
pub enum View {
    /// Aliases table (current ops).
    Exposed,
    /// Legacy tokens table.
    Legacy,
    /// IR migration queue.
    TodoIR,
    /// IR ops missing metadata.
    Unmapped,
    /// Resolution check.
    CheckResolve,
    /// Planned operations (roadmap).
    Planned,
    /// All views.
    All,
    /// Cross-layer operation matrix.
    Matrix,
}

/// Resolution status of a name.
#[derive(Debug, Clone)]
pub enum ResolveStatus {
    /// Resolves to an IR operation.
    IrOp(String),
    /// Resolves to a builtin.
    Builtin,
    /// Not found.
    Unknown,
}

} // verus!
