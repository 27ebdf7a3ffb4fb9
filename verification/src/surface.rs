//! What the web surface answers once an operation of the lifecycle manager
//! has ended.

use vstd::prelude::*;
use vstd::string::*;

use crate::errors::{message_of, status_of, AppError, STATUS_ACCEPTED};
use crate::lifecycle::{LifecycleError, Outcome, OutcomeView};

verus! {

/// The answer to a request.
#[derive(Debug)]
pub enum Answer {
    /// A record was submitted: where to upload, and under which identifier.
    Upload { upload_url: String, evaluation_id: String },
    /// The stored result.
    Evaluation(Vec<u8>),
    /// Where to download the uploaded document.
    Download { download_url: String },
    /// The request was carried out and there is nothing to hand out.
    Done,
    /// The request failed.
    Failure(AppError),
}

pub enum AnswerView {
    Upload { upload_url: Seq<char>, evaluation_id: Seq<char> },
    Evaluation(Seq<u8>),
    Download { download_url: Seq<char> },
    Done,
    Failure { status: u16, message: Seq<char> },
}

impl View for Answer {
    type V = AnswerView;

    open spec fn view(&self) -> AnswerView {
        match self {
            Answer::Upload { upload_url, evaluation_id } => AnswerView::Upload {
                upload_url: upload_url@,
                evaluation_id: evaluation_id@,
            },
            Answer::Evaluation(body) => AnswerView::Evaluation(body@),
            Answer::Download { download_url } => AnswerView::Download {
                download_url: download_url@,
            },
            Answer::Done => AnswerView::Done,
            Answer::Failure(told) => AnswerView::Failure {
                status: told.status,
                message: told.message@,
            },
        }
    }
}

/// The answer to a request about the evaluation `id` whose operation ended
/// in `ending`: what the operation handed back, or what is told about its
/// failure.
pub open spec fn answer_to(ending: Result<OutcomeView, LifecycleError>, id: Seq<char>) -> AnswerView {
    match ending {
        Ok(OutcomeView::Submitted { upload_handle }) => AnswerView::Upload {
            upload_url: upload_handle,
            evaluation_id: id,
        },
        Ok(OutcomeView::Fetched(body)) => AnswerView::Evaluation(body),
        Ok(OutcomeView::DownloadTarget { download_handle }) => AnswerView::Download {
            download_url: download_handle,
        },
        Ok(OutcomeView::Completed) => AnswerView::Done,
        Ok(OutcomeView::Deleted) => AnswerView::Done,
        Err(error) => AnswerView::Failure {
            status: status_of(error),
            message: message_of(error, id),
        },
    }
}

/// The status that goes with `answer`: that of the failure, or "accepted".
pub open spec fn status_with(answer: AnswerView) -> u16 {
    match answer {
        AnswerView::Failure { status, .. } => status,
        _ => STATUS_ACCEPTED,
    }
}

/// What how the operation ended looks like to contracts.
pub open spec fn ending_view(ending: Result<Outcome, LifecycleError>) -> Result<
    OutcomeView,
    LifecycleError,
> {
    match ending {
        Ok(outcome) => Ok(outcome@),
        Err(error) => Err(error),
    }
}

impl Answer {
    /// The answer to a request about the evaluation `id` whose operation
    /// ended in `ending`.
    pub fn to(ending: Result<Outcome, LifecycleError>, id: &str) -> (answer: Answer)
        ensures
            answer@ == answer_to(ending_view(ending), id@),
    {
        match ending {
            Ok(Outcome::Submitted { upload_handle }) => Answer::Upload {
                upload_url: upload_handle,
                evaluation_id: String::from_str(id),
            },
            Ok(Outcome::Fetched(body)) => Answer::Evaluation(body),
            Ok(Outcome::DownloadTarget { download_handle }) => Answer::Download {
                download_url: download_handle,
            },
            Ok(Outcome::Completed) => Answer::Done,
            Ok(Outcome::Deleted) => Answer::Done,
            Err(error) => Answer::Failure(AppError::about(error, id)),
        }
    }

    /// The status that goes with the answer.
    pub fn status(&self) -> (status: u16)
        ensures
            status == status_with(self@),
    {
        match self {
            Answer::Failure(told) => told.status,
            _ => STATUS_ACCEPTED,
        }
    }
}

} // verus!
