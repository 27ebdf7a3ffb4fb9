//! What happens to one uploaded document after the store announced it:
//! fetch it, look what kind it is, have its text extracted, run the chain
//! over its pages, store the result. And what a batch of such
//! announcements comes to.
//!
//! The library decides; the caller asks the store, extracts the text and
//! calls the inference service, and reports back.

use vstd::prelude::*;
use vstd::string::*;
use vstd::utf8::encode_utf8;

use crate::chain::{
    Chain, ChainEvent, ChainEventView, ChainStep, ChainStepView, ChainView, InferenceRequest,
    InferenceRequestView, PromptTemplateView, Rubric, request_views,
};
use crate::errors::ErrorKind;
use crate::extract::{kind_of, sniff_kind, ContentKind};
use crate::lifecycle::{
    completed_key_of, completed_twin, completed_twin_of, law_twin_of_pending_key, pending_key_of,
    CommandView,
};
use crate::splitter::{page_holding, pages_of, split};
use crate::store::{ReplyView, RequestView, StoreReply, StoreRequest};
use crate::text::{count_words, word_count};

verus! {

/// How the work on one document ended.
#[derive(Clone, Copy, Debug, PartialEq, Eq, Structural)]
pub enum RecordOutcome {
    /// The result is stored.
    Completed,
    /// The document is of a kind that is not accepted; nothing was stored,
    /// and nothing went wrong.
    Unsupported,
    /// No text could be read from the document.
    ExtractionFailed,
    /// A call to the inference service failed.
    InferenceFailed,
    /// The announcement names no pending artifact.
    NotFound,
    /// The store failed.
    StorageFailed,
}

/// The kind of failure that `outcome` is; none for a stored result.
pub open spec fn kind_of_outcome(outcome: RecordOutcome) -> Option<ErrorKind> {
    match outcome {
        RecordOutcome::Completed => None,
        RecordOutcome::Unsupported => Some(ErrorKind::UnsupportedFormat),
        RecordOutcome::ExtractionFailed => Some(ErrorKind::ExtractionFailed),
        RecordOutcome::InferenceFailed => Some(ErrorKind::InferenceFailed),
        RecordOutcome::NotFound => Some(ErrorKind::NotFound),
        RecordOutcome::StorageFailed => Some(ErrorKind::StorageFailed),
    }
}

/// The kind of failure that `outcome` is; none for a stored result.
pub fn outcome_kind(outcome: RecordOutcome) -> (kind: Option<ErrorKind>)
    ensures
        kind == kind_of_outcome(outcome),
{
    match outcome {
        RecordOutcome::Completed => None,
        RecordOutcome::Unsupported => Some(ErrorKind::UnsupportedFormat),
        RecordOutcome::ExtractionFailed => Some(ErrorKind::ExtractionFailed),
        RecordOutcome::InferenceFailed => Some(ErrorKind::InferenceFailed),
        RecordOutcome::NotFound => Some(ErrorKind::NotFound),
        RecordOutcome::StorageFailed => Some(ErrorKind::StorageFailed),
    }
}

/// The work on one document, by what it waits for.
#[derive(Debug)]
pub enum Record {
    /// The document is being fetched.
    Fetching { target: String, rubric: Rubric, max_words: usize },
    /// The text of the document is being extracted.
    Extracting { target: String, rubric: Rubric, max_words: usize },
    /// The chain runs over the pages.
    Inferring { target: String, chain: Chain },
    /// The result is being stored.
    Storing,
    /// The work is over.
    Closed,
}

pub enum RecordView {
    Fetching { target: Seq<char>, rubric: (PromptTemplateView, PromptTemplateView), max_words: nat },
    Extracting {
        target: Seq<char>,
        rubric: (PromptTemplateView, PromptTemplateView),
        max_words: nat,
    },
    Inferring { target: Seq<char>, chain: ChainView },
    Storing,
    Closed,
}

impl View for Record {
    type V = RecordView;

    open spec fn view(&self) -> RecordView {
        match self {
            Record::Fetching { target, rubric, max_words } => RecordView::Fetching {
                target: target@,
                rubric: (rubric.map@, rubric.reduce@),
                max_words: *max_words as nat,
            },
            Record::Extracting { target, rubric, max_words } => RecordView::Extracting {
                target: target@,
                rubric: (rubric.map@, rubric.reduce@),
                max_words: *max_words as nat,
            },
            Record::Inferring { target, chain } => RecordView::Inferring {
                target: target@,
                chain: chain@,
            },
            Record::Storing => RecordView::Storing,
            Record::Closed => RecordView::Closed,
        }
    }
}

/// What the caller reports.
#[derive(Debug)]
pub enum RecordEvent {
    /// The store answered.
    Store(StoreReply),
    /// The extraction ended: with the text of the document, or without one.
    Extracted(Option<String>),
    /// An inference call ended.
    Inference(ChainEvent),
}

pub enum RecordEventView {
    Store(ReplyView),
    Extracted(Option<Seq<char>>),
    Inference(ChainEventView),
}

impl View for RecordEvent {
    type V = RecordEventView;

    open spec fn view(&self) -> RecordEventView {
        match self {
            RecordEvent::Store(reply) => RecordEventView::Store(reply@),
            RecordEvent::Extracted(text) => RecordEventView::Extracted(
                crate::extract::text_of(*text),
            ),
            RecordEvent::Inference(event) => RecordEventView::Inference(event@),
        }
    }
}

/// What the caller does next.
#[derive(Debug)]
pub enum RecordStep {
    /// Ask the store.
    Ask(StoreRequest),
    /// Extract the text of this document.
    Extract(Vec<u8>),
    /// Make these inference calls, the call numbered `i` for the page
    /// numbered `i`.
    MapCalls(Vec<InferenceRequest>),
    /// Make this one inference call, the reduce call.
    ReduceCall(InferenceRequest),
    /// Nothing new is due.
    Wait,
    /// The work is over.
    Finished(RecordOutcome),
    /// The work was over before the event came.
    Over,
}

pub enum RecordStepView {
    Ask(RequestView),
    Extract(Seq<u8>),
    MapCalls(Seq<InferenceRequestView>),
    ReduceCall(InferenceRequestView),
    Wait,
    Finished(RecordOutcome),
    Over,
}

impl View for RecordStep {
    type V = RecordStepView;

    open spec fn view(&self) -> RecordStepView {
        match self {
            RecordStep::Ask(request) => RecordStepView::Ask(request@),
            RecordStep::Extract(content) => RecordStepView::Extract(content@),
            RecordStep::MapCalls(requests) => RecordStepView::MapCalls(request_views(requests@)),
            RecordStep::ReduceCall(request) => RecordStepView::ReduceCall(request@),
            RecordStep::Wait => RecordStepView::Wait,
            RecordStep::Finished(outcome) => RecordStepView::Finished(*outcome),
            RecordStep::Over => RecordStepView::Over,
        }
    }
}

/// The work ends with `outcome`.
pub open spec fn ends_with(outcome: RecordOutcome) -> (RecordView, RecordStepView) {
    (RecordView::Closed, RecordStepView::Finished(outcome))
}

/// The work on the document announced under `key`, and its first step:
/// the document is fetched. An announcement without a key, or with a key
/// that is no pending key, names no pending artifact.
pub open spec fn opening(
    key: Option<Seq<char>>,
    rubric: (PromptTemplateView, PromptTemplateView),
    max_words: nat,
) -> (RecordView, RecordStepView) {
    match key {
        Some(key) => match completed_twin_of(key) {
            Some(target) => (
                RecordView::Fetching { target, rubric, max_words },
                RecordStepView::Ask(RequestView::Get { key }),
            ),
            None => ends_with(RecordOutcome::NotFound),
        },
        None => ends_with(RecordOutcome::NotFound),
    }
}

/// The texts of the pages of `text` under a budget of `max_words`.
pub open spec fn page_texts_of(text: Seq<char>, max_words: nat) -> Seq<Seq<char>> {
    Seq::new(
        pages_of(text, max_words).len(),
        |j: int| page_holding(pages_of(text, max_words)[j]).text,
    )
}

/// What the chain's step asks of the caller of the record, and where the
/// record stands after it: a finished chain has its result stored under
/// `target`, a failed one ends the work.
pub open spec fn after_chain_step(target: Seq<char>, chain: ChainView, step: ChainStepView) -> (
    RecordView,
    RecordStepView,
) {
    match step {
        ChainStepView::MapCalls(requests) => (
            RecordView::Inferring { target, chain },
            RecordStepView::MapCalls(requests),
        ),
        ChainStepView::ReduceCall(request) => (
            RecordView::Inferring { target, chain },
            RecordStepView::ReduceCall(request),
        ),
        ChainStepView::Wait => (RecordView::Inferring { target, chain }, RecordStepView::Wait),
        ChainStepView::Finished(result) => (
            RecordView::Storing,
            RecordStepView::Ask(RequestView::Put { key: target, body: encode_utf8(result) }),
        ),
        ChainStepView::Failed => ends_with(RecordOutcome::InferenceFailed),
        ChainStepView::Over => ends_with(RecordOutcome::InferenceFailed),
    }
}

/// The work after `event`, and what the caller does next.
///
/// A fetched document of another kind than the accepted one ends the work
/// as unsupported, with nothing extracted, inferred or stored. A document
/// from which no text or no word could be read ends it as a failed
/// extraction. The text is split into pages and the chain is run over
/// them; its result is stored under the completed key. A failure of the
/// store or of an inference call ends the work. An event that nothing
/// waits for changes nothing.
pub open spec fn transition(state: RecordView, event: RecordEventView) -> (
    RecordView,
    RecordStepView,
) {
    match state {
        RecordView::Fetching { target, rubric, max_words } => match event {
            RecordEventView::Store(ReplyView::Body(content)) => if kind_of(content)
                == ContentKind::Pdf {
                (
                    RecordView::Extracting { target, rubric, max_words },
                    RecordStepView::Extract(content),
                )
            } else {
                ends_with(RecordOutcome::Unsupported)
            },
            RecordEventView::Store(_) => ends_with(RecordOutcome::StorageFailed),
            _ => (state, RecordStepView::Wait),
        },
        RecordView::Extracting { target, rubric, max_words } => match event {
            RecordEventView::Extracted(Some(text)) => if word_count(text) == 0 {
                ends_with(RecordOutcome::ExtractionFailed)
            } else {
                let (chain, step) = crate::chain::opening(rubric, page_texts_of(text, max_words));
                after_chain_step(target, chain, step)
            },
            RecordEventView::Extracted(None) => ends_with(RecordOutcome::ExtractionFailed),
            _ => (state, RecordStepView::Wait),
        },
        RecordView::Inferring { target, chain } => match event {
            RecordEventView::Inference(inference) => {
                let (next, step) = crate::chain::transition(chain, inference);
                after_chain_step(target, next, step)
            },
            _ => (state, RecordStepView::Wait),
        },
        RecordView::Storing => match event {
            RecordEventView::Store(ReplyView::Done) => ends_with(RecordOutcome::Completed),
            RecordEventView::Store(_) => ends_with(RecordOutcome::StorageFailed),
            _ => (state, RecordStepView::Wait),
        },
        RecordView::Closed => (state, RecordStepView::Over),
    }
}

/// The work on the upload of the evaluation `id` stores its result by the
/// very request with which the lifecycle manager completes that record.
pub proof fn law_result_completes_the_record(
    id: Seq<char>,
    rubric: (PromptTemplateView, PromptTemplateView),
    max_words: nat,
    chain: ChainView,
    result: Seq<char>,
)
    ensures
        opening(Some(pending_key_of(id)), rubric, max_words).0 == (RecordView::Fetching {
            target: completed_key_of(id),
            rubric,
            max_words,
        }),
        after_chain_step(completed_key_of(id), chain, ChainStepView::Finished(result)).1
            == RecordStepView::Ask(
            crate::lifecycle::opening(CommandView::Complete { id, result: encode_utf8(result) }).1,
        ),
{
    law_twin_of_pending_key(id);
}

/// Turns the chain's step into the record's.
fn follow_chain(target: String, chain: Chain, step: ChainStep) -> (next: (Record, RecordStep))
    ensures
        (next.0@, next.1@) == after_chain_step(target@, chain@, step@),
{
    match step {
        ChainStep::MapCalls(requests) => (
            Record::Inferring { target, chain },
            RecordStep::MapCalls(requests),
        ),
        ChainStep::ReduceCall(request) => (
            Record::Inferring { target, chain },
            RecordStep::ReduceCall(request),
        ),
        ChainStep::Wait => (Record::Inferring { target, chain }, RecordStep::Wait),
        ChainStep::Finished(result) => {
            let body = result.as_str().as_bytes_vec();
            (Record::Storing, RecordStep::Ask(StoreRequest::Put { key: target, body }))
        },
        ChainStep::Failed => (Record::Closed, RecordStep::Finished(RecordOutcome::InferenceFailed)),
        ChainStep::Over => (Record::Closed, RecordStep::Finished(RecordOutcome::InferenceFailed)),
    }
}

impl Record {
    /// Starts the work on the document announced under `key`, to be
    /// evaluated with `rubric` on pages of at most `max_words` words.
    pub fn begin(key: Option<String>, rubric: Rubric, max_words: usize) -> (started: (
        Record,
        RecordStep,
    ))
        ensures
            (started.0@, started.1@) == opening(
                crate::extract::text_of(key),
                (rubric.map@, rubric.reduce@),
                max_words as nat,
            ),
    {
        match key {
            Some(key) => match completed_twin(key.as_str()) {
                Some(target) => (
                    Record::Fetching { target, rubric, max_words },
                    RecordStep::Ask(StoreRequest::Get { key }),
                ),
                None => (Record::Closed, RecordStep::Finished(RecordOutcome::NotFound)),
            },
            None => (Record::Closed, RecordStep::Finished(RecordOutcome::NotFound)),
        }
    }

    /// Takes what the caller reports and says what to do next.
    pub fn advance(self, event: RecordEvent) -> (next: (Record, RecordStep))
        ensures
            (next.0@, next.1@) == transition(self@, event@),
    {
        match self {
            Record::Fetching { target, rubric, max_words } => match event {
                RecordEvent::Store(StoreReply::Body(content)) => {
                    match sniff_kind(&content) {
                        ContentKind::Pdf => (
                            Record::Extracting { target, rubric, max_words },
                            RecordStep::Extract(content),
                        ),
                        _ => (Record::Closed, RecordStep::Finished(RecordOutcome::Unsupported)),
                    }
                },
                RecordEvent::Store(_) => (
                    Record::Closed,
                    RecordStep::Finished(RecordOutcome::StorageFailed),
                ),
                _ => (Record::Fetching { target, rubric, max_words }, RecordStep::Wait),
            },
            Record::Extracting { target, rubric, max_words } => match event {
                RecordEvent::Extracted(Some(text)) => {
                    if count_words(text.as_str()) == 0 {
                        (Record::Closed, RecordStep::Finished(RecordOutcome::ExtractionFailed))
                    } else {
                        let pages = split(text.as_str(), max_words);
                        proof {
                            assert(crate::chain::page_texts(pages@) =~= page_texts_of(
                                text@,
                                max_words as nat,
                            ));
                        }
                        let (chain, step) = Chain::start(rubric, &pages);
                        follow_chain(target, chain, step)
                    }
                },
                RecordEvent::Extracted(None) => (
                    Record::Closed,
                    RecordStep::Finished(RecordOutcome::ExtractionFailed),
                ),
                _ => (Record::Extracting { target, rubric, max_words }, RecordStep::Wait),
            },
            Record::Inferring { target, chain } => match event {
                RecordEvent::Inference(inference) => {
                    let mut chain = chain;
                    let step = chain.advance(inference);
                    follow_chain(target, chain, step)
                },
                _ => (Record::Inferring { target, chain }, RecordStep::Wait),
            },
            Record::Storing => match event {
                RecordEvent::Store(StoreReply::Done) => (
                    Record::Closed,
                    RecordStep::Finished(RecordOutcome::Completed),
                ),
                RecordEvent::Store(_) => (
                    Record::Closed,
                    RecordStep::Finished(RecordOutcome::StorageFailed),
                ),
                _ => (Record::Storing, RecordStep::Wait),
            },
            Record::Closed => (Record::Closed, RecordStep::Over),
        }
    }
}

/// What a batch of announcements came to.
#[derive(Clone, Copy, Debug, PartialEq, Eq, Structural)]
pub struct BatchReport {
    /// The number of documents that were worked on to an end.
    pub attempted: usize,
    /// Of these, the number whose result is stored.
    pub completed: usize,
    /// Of these, the number that were of a kind that is not accepted.
    pub unsupported: usize,
    /// Of these, the number whose work failed.
    pub failed: usize,
}

/// The number of `outcomes` that are `wanted`.
pub open spec fn count_of(outcomes: Seq<RecordOutcome>, wanted: RecordOutcome) -> nat
    decreases outcomes.len(),
{
    if outcomes.len() == 0 {
        0
    } else {
        count_of(outcomes.drop_last(), wanted) + if outcomes.last() == wanted {
            1nat
        } else {
            0nat
        }
    }
}

/// Sums up a batch. The batch never fails as a whole: every outcome, good
/// or bad, is counted once, as completed, as unsupported or as failed.
pub fn summarize(outcomes: &Vec<RecordOutcome>) -> (report: BatchReport)
    ensures
        report.attempted == outcomes.len(),
        report.completed == count_of(outcomes@, RecordOutcome::Completed),
        report.unsupported == count_of(outcomes@, RecordOutcome::Unsupported),
        report.completed + report.unsupported + report.failed == report.attempted,
{
    let mut report = BatchReport { attempted: 0, completed: 0, unsupported: 0, failed: 0 };
    let mut i: usize = 0;
    while i < outcomes.len()
        invariant
            i <= outcomes.len(),
            report.attempted == i,
            report.completed == count_of(outcomes@.take(i as int), RecordOutcome::Completed),
            report.unsupported == count_of(outcomes@.take(i as int), RecordOutcome::Unsupported),
            report.completed + report.unsupported + report.failed == i,
        decreases outcomes.len() - i,
    {
        proof {
            assert(outcomes@.take(i + 1).drop_last() =~= outcomes@.take(i as int));
        }
        match outcomes[i] {
            RecordOutcome::Completed => {
                report.completed = report.completed + 1;
            },
            RecordOutcome::Unsupported => {
                report.unsupported = report.unsupported + 1;
            },
            _ => {
                report.failed = report.failed + 1;
            },
        }
        report.attempted = report.attempted + 1;
        i = i + 1;
    }
    proof {
        assert(outcomes@.take(i as int) =~= outcomes@);
    }
    report
}

} // verus!
