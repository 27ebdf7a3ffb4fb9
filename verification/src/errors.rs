//! The kinds of failure the library knows, and what a web caller is told
//! about a failed operation: a status and a short message with the
//! identifier of the evaluation, never the text of an internal error.

use vstd::prelude::*;
use vstd::string::*;

use crate::lifecycle::{Artifact, LifecycleError};
use crate::text::occurs_at;

verus! {

/// The status of an answer to a request that was carried out.
pub const STATUS_ACCEPTED: u16 = 202;

/// The status of an answer about an artifact that does not exist.
pub const STATUS_NOT_FOUND: u16 = 404;

/// The status of an answer about a failure on the server's side.
pub const STATUS_INTERNAL_ERROR: u16 = 500;

/// Every kind of failure.
#[derive(Clone, Copy, Debug, PartialEq, Eq, Structural)]
pub enum ErrorKind {
    /// The content is of a kind that is not accepted; no evaluation is made.
    UnsupportedFormat,
    /// The content is of the accepted kind, but no text could be read from it.
    ExtractionFailed,
    /// A call to the inference service failed.
    InferenceFailed,
    /// The artifact asked for does not exist.
    NotFound,
    /// A deletion removed the uploaded document and not the result.
    PartiallyDeleted,
    /// The object store failed.
    StorageFailed,
}

/// The kind of failure that `error` is.
pub open spec fn kind_of(error: LifecycleError) -> ErrorKind {
    match error {
        LifecycleError::NotFound(_) => ErrorKind::NotFound,
        LifecycleError::PartiallyDeleted => ErrorKind::PartiallyDeleted,
        LifecycleError::StorageFailed => ErrorKind::StorageFailed,
    }
}

/// The kind of failure that `error` is.
pub fn error_kind(error: LifecycleError) -> (kind: ErrorKind)
    ensures
        kind == kind_of(error),
{
    match error {
        LifecycleError::NotFound(_) => ErrorKind::NotFound,
        LifecycleError::PartiallyDeleted => ErrorKind::PartiallyDeleted,
        LifecycleError::StorageFailed => ErrorKind::StorageFailed,
    }
}

/// What a web caller is told about a failure.
#[derive(Debug)]
pub struct AppError {
    pub message: String,
    pub status: u16,
}

/// The status that tells of `error`.
pub open spec fn status_of(error: LifecycleError) -> u16 {
    match error {
        LifecycleError::NotFound(_) => STATUS_NOT_FOUND,
        _ => STATUS_INTERNAL_ERROR,
    }
}

/// The message that tells of `error` about the evaluation `id`: which
/// artifact is missing, that the record is partially deleted, or, for a
/// failure of the store, no more than that the server failed. Every
/// message names the evaluation.
pub open spec fn message_of(error: LifecycleError, id: Seq<char>) -> Seq<char> {
    match error {
        LifecycleError::NotFound(Artifact::Pending) => "resume "@ + id + " not found"@,
        LifecycleError::NotFound(Artifact::Completed) => "evaluation "@ + id + " not found"@,
        LifecycleError::PartiallyDeleted => "evaluation "@ + id + " partially deleted"@,
        LifecycleError::StorageFailed => "evaluation "@ + id + ": internal server error"@,
    }
}

/// Whatever the failure, the message about it holds the identifier of the
/// evaluation, right behind the first word.
pub proof fn law_messages_name_the_evaluation(error: LifecycleError, id: Seq<char>)
    ensures
        exists|at: int| occurs_at(message_of(error, id), id, at),
{
    reveal_strlit("resume ");
    reveal_strlit("evaluation ");
    let message = message_of(error, id);
    let at: int = match error {
        LifecycleError::NotFound(Artifact::Pending) => 7,
        _ => 11,
    };
    assert(message.subrange(at, at + id.len()) =~= id);
    assert(occurs_at(message, id, at));
}

impl AppError {
    /// What is told about a failure that belongs to no evaluation.
    pub fn internal() -> (told: AppError)
        ensures
            told.status == STATUS_INTERNAL_ERROR,
            told.message@ == "Internal server error"@,
    {
        AppError {
            message: String::from_str("Internal server error"),
            status: STATUS_INTERNAL_ERROR,
        }
    }

    /// What is told about `error` in an operation on the evaluation `id`.
    pub fn about(error: LifecycleError, id: &str) -> (told: AppError)
        ensures
            told.status == status_of(error),
            told.message@ == message_of(error, id@),
    {
        match error {
            LifecycleError::NotFound(Artifact::Pending) => {
                let mut message = String::from_str("resume ");
                message.append(id);
                message.append(" not found");
                AppError { message, status: STATUS_NOT_FOUND }
            },
            LifecycleError::NotFound(Artifact::Completed) => {
                let mut message = String::from_str("evaluation ");
                message.append(id);
                message.append(" not found");
                AppError { message, status: STATUS_NOT_FOUND }
            },
            LifecycleError::PartiallyDeleted => {
                let mut message = String::from_str("evaluation ");
                message.append(id);
                message.append(" partially deleted");
                AppError { message, status: STATUS_INTERNAL_ERROR }
            },
            LifecycleError::StorageFailed => {
                let mut message = String::from_str("evaluation ");
                message.append(id);
                message.append(": internal server error");
                AppError { message, status: STATUS_INTERNAL_ERROR }
            },
        }
    }
}

} // verus!
