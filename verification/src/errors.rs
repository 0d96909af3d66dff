//! What can go wrong, in one type for all three roles.

use vstd::prelude::*;

verus! {

/// The local filesystem call that failed.
#[derive(Clone, Copy, Debug, PartialEq, Eq, Structural)]
pub enum FileAction {
    Open,
    Read,
    Write,
    Create,
}

/// Everything that can go wrong in the coordinator, a chunk server or the client.
#[derive(Debug, PartialEq, Eq)]
pub enum Error {
    /// A server, file, namespace node or chunk file is missing.
    NotFound,
    /// A required query parameter is absent.
    MissingParam,
    /// A lock that guards one of the registries is poisoned.
    LockFailure,
    /// An outbound request did not complete.
    FailedRequest { url: String },
    /// A response body did not have the expected shape.
    ParseJson,
    /// A local filesystem call failed.
    FileIO { path: String, action: FileAction },
    /// The metadata of a local path could not be read.
    ReadMetadata { path: String },
    /// At least one chunk of a file was accepted by no server.
    UploadChunks,
    /// No server accepted this chunk.
    UploadSingleChunk { part: usize, chunk_id: u128 },
    /// No replica served this chunk.
    ChunkNotAvailable { chunk_name: String },
    /// The local path that was to be uploaded does not exist.
    FileNotExist { path: String },
}

/// What an [`Error`] is, with texts as character sequences.
pub enum ErrorView {
    NotFound,
    MissingParam,
    LockFailure,
    FailedRequest { url: Seq<char> },
    ParseJson,
    FileIO { path: Seq<char>, action: FileAction },
    ReadMetadata { path: Seq<char> },
    UploadChunks,
    UploadSingleChunk { part: usize, chunk_id: u128 },
    ChunkNotAvailable { chunk_name: Seq<char> },
    FileNotExist { path: Seq<char> },
}

impl View for Error {
    type V = ErrorView;

    open spec fn view(&self) -> ErrorView {
        match *self {
            Error::NotFound => ErrorView::NotFound,
            Error::MissingParam => ErrorView::MissingParam,
            Error::LockFailure => ErrorView::LockFailure,
            Error::FailedRequest { url } => ErrorView::FailedRequest { url: url@ },
            Error::ParseJson => ErrorView::ParseJson,
            Error::FileIO { path, action } => ErrorView::FileIO { path: path@, action },
            Error::ReadMetadata { path } => ErrorView::ReadMetadata { path: path@ },
            Error::UploadChunks => ErrorView::UploadChunks,
            Error::UploadSingleChunk { part, chunk_id } => ErrorView::UploadSingleChunk {
                part,
                chunk_id,
            },
            Error::ChunkNotAvailable { chunk_name } => ErrorView::ChunkNotAvailable {
                chunk_name: chunk_name@,
            },
            Error::FileNotExist { path } => ErrorView::FileNotExist { path: path@ },
        }
    }
}

impl Clone for Error {
    fn clone(&self) -> (res: Self)
        ensures
            res@ == self@,
    {
        match self {
            Error::NotFound => Error::NotFound,
            Error::MissingParam => Error::MissingParam,
            Error::LockFailure => Error::LockFailure,
            Error::FailedRequest { url } => Error::FailedRequest { url: url.clone() },
            Error::ParseJson => Error::ParseJson,
            Error::FileIO { path, action } => Error::FileIO { path: path.clone(), action: *action },
            Error::ReadMetadata { path } => Error::ReadMetadata { path: path.clone() },
            Error::UploadChunks => Error::UploadChunks,
            Error::UploadSingleChunk { part, chunk_id } => Error::UploadSingleChunk {
                part: *part,
                chunk_id: *chunk_id,
            },
            Error::ChunkNotAvailable { chunk_name } => Error::ChunkNotAvailable {
                chunk_name: chunk_name.clone(),
            },
            Error::FileNotExist { path } => Error::FileNotExist { path: path.clone() },
        }
    }
}

} // verus!
