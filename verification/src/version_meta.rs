//! The description of one published version: its label, its release notes,
//! the file operations a client replays and the content-checked deletions.
//!
//! Clients replay the operations in a strict order: delete old files, create
//! directories, move files, write files, delete directories.
use vstd::prelude::*;

verus! {

/// An optional external download location; a client uses it only after
/// checking the downloaded content.
#[derive(Clone, Debug)]
pub struct ExternalSource {
    pub provider: String,
    pub url: String,
    pub fallback_to_mcpatch: bool,
}

impl ExternalSource {
    /// A copy of the source.
    pub fn duplicate(&self) -> (r: ExternalSource)
        ensures
            r == *self,
    {
        ExternalSource {
            provider: crate::text::copy_string(&self.provider),
            url: crate::text::copy_string(&self.url),
            fallback_to_mcpatch: self.fallback_to_mcpatch,
        }
    }
}

/// Deletes an obsolete client file only when its path and content both match.
#[derive(Clone, Debug)]
pub struct ClientHashDeletion {
    pub path: String,
    pub sha256: String,
    pub len: u64,
}

/// One file operation.
#[derive(Clone, Debug)]
pub enum FileChange {
    /// Creates a directory.
    CreateFolder { path: String },
    /// Adds a file or replaces an existing one; `modified` is in seconds since
    /// the Unix epoch and `offset` locates the content in the version archive.
    UpdateFile {
        path: String,
        hash: String,
        len: u64,
        modified: u64,
        offset: u64,
        external_source: Option<ExternalSource>,
    },
    /// Deletes a directory.
    DeleteFolder { path: String },
    /// Deletes a file.
    DeleteFile { path: String },
    /// Moves a file.
    MoveFile { from: String, to: String },
}

/// The metadata of one version.
#[derive(Clone, Debug)]
pub struct VersionMeta {
    pub label: String,
    pub logs: String,
    pub changes: Vec<FileChange>,
    pub client_hash_deletions: Vec<ClientHashDeletion>,
}

impl VersionMeta {
    pub fn new(
        label: String,
        logs: String,
        changes: Vec<FileChange>,
        client_hash_deletions: Vec<ClientHashDeletion>,
    ) -> (r: Self)
        ensures
            r.label == label,
            r.logs == logs,
            r.changes == changes,
            r.client_hash_deletions == client_hash_deletions,
    {
        VersionMeta { label, logs, changes, client_hash_deletions }
    }
}

} // verus!
