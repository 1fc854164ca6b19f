//! The library's errors.
use vstd::prelude::*;
use crate::fs_path::FsPath;

verus! {

/// What can go wrong in discovery, provisioning or dispatch.
#[derive(Debug)]
pub enum Error {
    Generic(String),
    /// A concurrent task could not be joined; the text describes why.
    TokioJoinError(String),
    /// An input/output operation failed; the text describes why.
    TokioIoError(String),
    /// The directory walk failed; the text describes why.
    DirectoryTraversalError(String),
    PandocConversionError(String),
    InvalidExtension(String),
    PandocNotInstalled,
    PandocNotFound(String),
    /// The converter does not report itself installed; the text names it.
    ConversionProgramNotInstalled(String),
    MediaFolderCreationFailed(String),
    /// An entry could not be renamed.
    FailedRenameFile(FsPath),
    /// A rename would land on an entry that already exists.
    RenameCollision(FsPath),
}

} // verus!
