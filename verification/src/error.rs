//! Error type shared by every MagGraph operation.
use vstd::prelude::*;

use crate::text::{push_str, string_of};

verus! {

/// Failure of a MagGraph operation. Paths are carried as display strings and
/// underlying I/O or parser failures as their messages.
#[derive(Debug, Clone, PartialEq, Eq)]
pub enum MagGraphError {
    ConfigRead { path: String, source: String },
    ConfigParse { path: String, source: String },
    ConfigValidation(String),
    GraphRootInit { path: String, source: String },
    NodeRead { path: String, source: String },
    NodeWrite { path: String, source: String },
    NodeDelete { path: String, source: String },
    NodeParse { path: String, message: String },
    NodeNotFound { id: String },
    NodeAlreadyExists { id: String, path: String },
    DuplicateNodeId { id: String, first: String, second: String },
    Index(String),
    Lakehouse(String),
    ContentResolve { uri: String, message: String },
    DisallowedScheme { scheme: String },
    MissingSource { id: String },
    SyncNotConfigured,
    Git { message: String },
    WriteLockRequired,
    WriteLockHeld { holder: String, acquired_at: String },
    WriteLock { path: String, message: String },
    ReadOnlyRole { role: String },
}

pub type Result<T> = core::result::Result<T, MagGraphError>;

/// The human-readable message of an error.
pub open spec fn error_message(e: MagGraphError) -> Seq<char> {
    match e {
        MagGraphError::ConfigRead { path, source } => "failed to read config at "@ + path@ + ": "@ + source@,
        MagGraphError::ConfigParse { path, source } => "failed to parse config at "@ + path@ + ": "@ + source@,
        MagGraphError::ConfigValidation(m) => "config validation failed: "@ + m@,
        MagGraphError::GraphRootInit { path, source } => "failed to initialize graph root at "@ + path@ + ": "@ + source@,
        MagGraphError::NodeRead { path, source } => "failed to read node at "@ + path@ + ": "@ + source@,
        MagGraphError::NodeWrite { path, source } => "failed to write node at "@ + path@ + ": "@ + source@,
        MagGraphError::NodeDelete { path, source } => "failed to delete node at "@ + path@ + ": "@ + source@,
        MagGraphError::NodeParse { path, message } => "node parse error at "@ + path@ + ": "@ + message@,
        MagGraphError::NodeNotFound { id } => "node "@ + id@ + " not found"@,
        MagGraphError::NodeAlreadyExists { id, path } => "node "@ + id@ + " already exists at "@ + path@,
        MagGraphError::DuplicateNodeId { id, first, second } => "duplicate node id "@ + id@ + ": "@ + first@ + " and "@ + second@,
        MagGraphError::Index(m) => "graph index error: "@ + m@,
        MagGraphError::Lakehouse(m) => "lakehouse error: "@ + m@,
        MagGraphError::ContentResolve { uri, message } => "content resolve failed for "@ + uri@ + ": "@ + message@,
        MagGraphError::DisallowedScheme { scheme } => "content scheme "@ + scheme@ + " is not allowed"@,
        MagGraphError::MissingSource { id } => "node "@ + id@ + " has no external source to resolve"@,
        MagGraphError::SyncNotConfigured => "[sync] is not configured"@,
        MagGraphError::Git { message } => "git error: "@ + message@,
        MagGraphError::WriteLockRequired => "write lock required for leader mutations; acquire lock before writing"@,
        MagGraphError::WriteLockHeld { holder, acquired_at } => "write lock held by "@ + holder@ + " since "@ + acquired_at@,
        MagGraphError::WriteLock { path, message } => "write lock error at "@ + path@ + ": "@ + message@,
        MagGraphError::ReadOnlyRole { role } => "read-only role `"@ + role@ + "` cannot perform write operations"@,
    }
}

impl MagGraphError {
    /// The human-readable message of this error (see [`error_message`]).
    pub fn message(&self) -> (r: String)
        ensures
            r@ == error_message(*self),
    {
        let mut out: Vec<char> = Vec::new();
        match self {
            MagGraphError::ConfigRead { path, source } => {
                push_str(&mut out, "failed to read config at ");
                push_str(&mut out, path.as_str());
                push_str(&mut out, ": ");
                push_str(&mut out, source.as_str());
            },
            MagGraphError::ConfigParse { path, source } => {
                push_str(&mut out, "failed to parse config at ");
                push_str(&mut out, path.as_str());
                push_str(&mut out, ": ");
                push_str(&mut out, source.as_str());
            },
            MagGraphError::ConfigValidation(m) => {
                push_str(&mut out, "config validation failed: ");
                push_str(&mut out, m.as_str());
            },
            MagGraphError::GraphRootInit { path, source } => {
                push_str(&mut out, "failed to initialize graph root at ");
                push_str(&mut out, path.as_str());
                push_str(&mut out, ": ");
                push_str(&mut out, source.as_str());
            },
            MagGraphError::NodeRead { path, source } => {
                push_str(&mut out, "failed to read node at ");
                push_str(&mut out, path.as_str());
                push_str(&mut out, ": ");
                push_str(&mut out, source.as_str());
            },
            MagGraphError::NodeWrite { path, source } => {
                push_str(&mut out, "failed to write node at ");
                push_str(&mut out, path.as_str());
                push_str(&mut out, ": ");
                push_str(&mut out, source.as_str());
            },
            MagGraphError::NodeDelete { path, source } => {
                push_str(&mut out, "failed to delete node at ");
                push_str(&mut out, path.as_str());
                push_str(&mut out, ": ");
                push_str(&mut out, source.as_str());
            },
            MagGraphError::NodeParse { path, message } => {
                push_str(&mut out, "node parse error at ");
                push_str(&mut out, path.as_str());
                push_str(&mut out, ": ");
                push_str(&mut out, message.as_str());
            },
            MagGraphError::NodeNotFound { id } => {
                push_str(&mut out, "node ");
                push_str(&mut out, id.as_str());
                push_str(&mut out, " not found");
            },
            MagGraphError::NodeAlreadyExists { id, path } => {
                push_str(&mut out, "node ");
                push_str(&mut out, id.as_str());
                push_str(&mut out, " already exists at ");
                push_str(&mut out, path.as_str());
            },
            MagGraphError::DuplicateNodeId { id, first, second } => {
                push_str(&mut out, "duplicate node id ");
                push_str(&mut out, id.as_str());
                push_str(&mut out, ": ");
                push_str(&mut out, first.as_str());
                push_str(&mut out, " and ");
                push_str(&mut out, second.as_str());
            },
            MagGraphError::Index(m) => {
                push_str(&mut out, "graph index error: ");
                push_str(&mut out, m.as_str());
            },
            MagGraphError::Lakehouse(m) => {
                push_str(&mut out, "lakehouse error: ");
                push_str(&mut out, m.as_str());
            },
            MagGraphError::ContentResolve { uri, message } => {
                push_str(&mut out, "content resolve failed for ");
                push_str(&mut out, uri.as_str());
                push_str(&mut out, ": ");
                push_str(&mut out, message.as_str());
            },
            MagGraphError::DisallowedScheme { scheme } => {
                push_str(&mut out, "content scheme ");
                push_str(&mut out, scheme.as_str());
                push_str(&mut out, " is not allowed");
            },
            MagGraphError::MissingSource { id } => {
                push_str(&mut out, "node ");
                push_str(&mut out, id.as_str());
                push_str(&mut out, " has no external source to resolve");
            },
            MagGraphError::SyncNotConfigured => {
                push_str(&mut out, "[sync] is not configured");
            },
            MagGraphError::Git { message } => {
                push_str(&mut out, "git error: ");
                push_str(&mut out, message.as_str());
            },
            MagGraphError::WriteLockRequired => {
                push_str(&mut out, "write lock required for leader mutations; acquire lock before writing");
            },
            MagGraphError::WriteLockHeld { holder, acquired_at } => {
                push_str(&mut out, "write lock held by ");
                push_str(&mut out, holder.as_str());
                push_str(&mut out, " since ");
                push_str(&mut out, acquired_at.as_str());
            },
            MagGraphError::WriteLock { path, message } => {
                push_str(&mut out, "write lock error at ");
                push_str(&mut out, path.as_str());
                push_str(&mut out, ": ");
                push_str(&mut out, message.as_str());
            },
            MagGraphError::ReadOnlyRole { role } => {
                push_str(&mut out, "read-only role `");
                push_str(&mut out, role.as_str());
                push_str(&mut out, "` cannot perform write operations");
            },
        }
        assert(out@ =~= error_message(*self));
        string_of(out.as_slice())
    }
}

} // verus!
