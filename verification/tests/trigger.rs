use resumai::chain::{ChainEvent, PromptTemplate, Rubric};
use resumai::store::{StoreReply, StoreRequest};
use resumai::errors::ErrorKind;
use resumai::trigger::{
    outcome_kind, summarize, BatchReport, Record, RecordEvent, RecordOutcome, RecordStep,
};

fn prompts() -> Rubric {
    Rubric {
        map: PromptTemplate::parse("You grade.", "Resume Text:\n`{{text}}`").unwrap(),
        reduce: PromptTemplate::parse("You combine.", "{{text}}## Scores:").unwrap(),
    }
}

fn pdf() -> Vec<u8> {
    b"%PDF-1.5\n1 0 obj\n<< /Type /Catalog >>\nendobj\n".to_vec()
}

fn fetched(content: Vec<u8>) -> (Record, RecordStep) {
    let (record, step) = Record::begin(Some("resumes/abc".to_string()), prompts(), 2000);
    match step {
        RecordStep::Ask(StoreRequest::Get { key }) => assert_eq!(key, "resumes/abc"),
        _ => panic!("the document is not fetched"),
    }
    record.advance(RecordEvent::Store(StoreReply::Body(content)))
}

fn extracted(text: &str) -> (Record, RecordStep) {
    let (record, step) = fetched(pdf());
    match step {
        RecordStep::Extract(content) => assert_eq!(content, pdf()),
        _ => panic!("no extraction asked for"),
    }
    record.advance(RecordEvent::Extracted(Some(text.to_string())))
}

fn page_returned(page: usize, output: &str) -> RecordEvent {
    RecordEvent::Inference(ChainEvent::Mapped { page, output: output.to_string() })
}

fn reduced(output: &str) -> RecordEvent {
    RecordEvent::Inference(ChainEvent::Reduced { output: output.to_string() })
}

#[test]
fn a_pdf_with_simple_text_is_evaluated_and_stored() {
    let text = "Jane Doe\nSenior engineer, ten years\nShipped things\n";
    let (record, step) = extracted(text);
    let requests = match step {
        RecordStep::MapCalls(requests) => requests,
        _ => panic!("no map calls"),
    };
    assert_eq!(requests.len(), 1);
    assert_eq!(requests[0].system, "You grade.");
    assert_eq!(requests[0].user, format!("Resume Text:\n`{text}`"));

    let (record, step) = record.advance(page_returned(0, "career: 7"));
    match step {
        RecordStep::ReduceCall(request) => {
            assert_eq!(request.system, "You combine.");
            assert_eq!(request.user, "career: 7## Scores:");
        }
        _ => panic!("no reduce call"),
    }

    let (record, step) = record.advance(reduced("Final score: 7 \u{2014} good"));
    match step {
        RecordStep::Ask(StoreRequest::Put { key, body }) => {
            assert_eq!(key, "results/abc");
            assert_eq!(body, "Final score: 7 \u{2014} good".as_bytes().to_vec());
        }
        _ => panic!("the result is not stored"),
    }
    assert!(matches!(record, Record::Storing));

    let (record, step) = record.advance(RecordEvent::Store(StoreReply::Done));
    assert!(matches!(step, RecordStep::Finished(RecordOutcome::Completed)));
    assert!(matches!(record, Record::Closed));
    let (_, step) = record.advance(RecordEvent::Store(StoreReply::Done));
    assert!(matches!(step, RecordStep::Over));
}

#[test]
fn an_image_ends_the_work_with_nothing_stored_and_no_failure() {
    let (record, step) = fetched(b"\x89PNG\x0d\x0a\x1a\x0a\x00\x00\x00\x0dIHDR".to_vec());
    assert!(matches!(step, RecordStep::Finished(RecordOutcome::Unsupported)));
    assert!(matches!(record, Record::Closed));
    let report = summarize(&vec![RecordOutcome::Unsupported]);
    assert_eq!(report.failed, 0);
    assert_eq!(report.unsupported, 1);
}

#[test]
fn content_without_a_signature_is_unsupported() {
    let (_, step) = fetched(b"just some words".to_vec());
    assert!(matches!(step, RecordStep::Finished(RecordOutcome::Unsupported)));
    let (_, step) = fetched(Vec::new());
    assert!(matches!(step, RecordStep::Finished(RecordOutcome::Unsupported)));
}

#[test]
fn a_document_that_cannot_be_fetched_is_a_storage_failure() {
    let (record, _) = Record::begin(Some("resumes/abc".to_string()), prompts(), 2000);
    let (record, step) = record.advance(RecordEvent::Store(StoreReply::Failed));
    assert!(matches!(step, RecordStep::Finished(RecordOutcome::StorageFailed)));
    assert!(matches!(record, Record::Closed));
}

#[test]
fn an_announcement_that_names_no_pending_key_is_not_found() {
    let (record, step) = Record::begin(None, prompts(), 2000);
    assert!(matches!(step, RecordStep::Finished(RecordOutcome::NotFound)));
    assert!(matches!(record, Record::Closed));
    let (_, step) = Record::begin(Some("results/abc".to_string()), prompts(), 2000);
    assert!(matches!(step, RecordStep::Finished(RecordOutcome::NotFound)));
    let (_, step) = Record::begin(Some("elsewhere/resumes/abc".to_string()), prompts(), 2000);
    assert!(matches!(step, RecordStep::Finished(RecordOutcome::NotFound)));
}

#[test]
fn a_failed_extraction_ends_the_work() {
    let (record, _) = fetched(pdf());
    let (record, step) = record.advance(RecordEvent::Extracted(None));
    assert!(matches!(step, RecordStep::Finished(RecordOutcome::ExtractionFailed)));
    assert!(matches!(record, Record::Closed));
}

#[test]
fn a_document_without_a_word_is_a_failed_extraction() {
    let (_, step) = extracted("");
    assert!(matches!(step, RecordStep::Finished(RecordOutcome::ExtractionFailed)));
    let (_, step) = extracted(" \n\n\t \n");
    assert!(matches!(step, RecordStep::Finished(RecordOutcome::ExtractionFailed)));
}

#[test]
fn a_long_text_is_mapped_page_by_page() {
    let (record, _) = Record::begin(Some("resumes/abc".to_string()), prompts(), 3);
    let (record, _) = record.advance(RecordEvent::Store(StoreReply::Body(pdf())));
    let (record, step) = record.advance(RecordEvent::Extracted(Some("a b\nc d\ne f g h\n".to_string())));
    let requests = match step {
        RecordStep::MapCalls(requests) => requests,
        _ => panic!("no map calls"),
    };
    assert_eq!(requests.len(), 3);
    assert_eq!(requests[0].user, "Resume Text:\n`a b\n`");
    assert_eq!(requests[1].user, "Resume Text:\n`c d\n`");
    assert_eq!(requests[2].user, "Resume Text:\n`e f g h\n`");
    let (record, step) = record.advance(page_returned(1, "B"));
    assert!(matches!(step, RecordStep::Wait));
    let (record, step) = record.advance(page_returned(2, "C"));
    assert!(matches!(step, RecordStep::Wait));
    let (_, step) = record.advance(page_returned(0, "A"));
    match step {
        RecordStep::ReduceCall(request) => assert_eq!(request.user, "ABC## Scores:"),
        _ => panic!("no reduce call"),
    }
}

#[test]
fn a_failed_inference_call_ends_the_work_with_nothing_stored() {
    let (record, _) = extracted("some text");
    let (record, step) =
        record.advance(RecordEvent::Inference(ChainEvent::MapFailed { page: 0 }));
    assert!(matches!(step, RecordStep::Finished(RecordOutcome::InferenceFailed)));
    assert!(matches!(record, Record::Closed));

    let (record, _) = extracted("some text");
    let (record, _) = record.advance(page_returned(0, "grade"));
    let (record, step) = record.advance(RecordEvent::Inference(ChainEvent::ReduceFailed));
    assert!(matches!(step, RecordStep::Finished(RecordOutcome::InferenceFailed)));
    assert!(matches!(record, Record::Closed));
}

#[test]
fn a_result_that_cannot_be_stored_is_a_storage_failure() {
    let (record, _) = extracted("some text");
    let (record, _) = record.advance(page_returned(0, "grade"));
    let (record, _) = record.advance(reduced("final"));
    let (record, step) = record.advance(RecordEvent::Store(StoreReply::Failed));
    assert!(matches!(step, RecordStep::Finished(RecordOutcome::StorageFailed)));
    assert!(matches!(record, Record::Closed));
}

#[test]
fn reports_that_nothing_waits_for_change_nothing() {
    let (record, _) = Record::begin(Some("resumes/abc".to_string()), prompts(), 2000);
    let (record, step) = record.advance(RecordEvent::Extracted(Some("early".to_string())));
    assert!(matches!(step, RecordStep::Wait));
    assert!(matches!(record, Record::Fetching { .. }));
    let (record, _) = record.advance(RecordEvent::Store(StoreReply::Body(pdf())));
    let (record, step) = record.advance(page_returned(0, "early"));
    assert!(matches!(step, RecordStep::Wait));
    assert!(matches!(record, Record::Extracting { .. }));
    let (record, _) = record.advance(RecordEvent::Extracted(Some("text".to_string())));
    let (record, step) = record.advance(RecordEvent::Store(StoreReply::Done));
    assert!(matches!(step, RecordStep::Wait));
    assert!(matches!(record, Record::Inferring { .. }));
}

#[test]
fn a_batch_counts_every_outcome_once() {
    let outcomes = vec![
        RecordOutcome::Completed,
        RecordOutcome::Unsupported,
        RecordOutcome::ExtractionFailed,
        RecordOutcome::Completed,
        RecordOutcome::InferenceFailed,
        RecordOutcome::NotFound,
        RecordOutcome::StorageFailed,
        RecordOutcome::Unsupported,
        RecordOutcome::Completed,
    ];
    assert_eq!(
        summarize(&outcomes),
        BatchReport { attempted: 9, completed: 3, unsupported: 2, failed: 4 }
    );
}

#[test]
fn an_empty_batch_has_an_empty_report() {
    assert_eq!(
        summarize(&Vec::new()),
        BatchReport { attempted: 0, completed: 0, unsupported: 0, failed: 0 }
    );
}

#[test]
fn a_batch_of_failures_is_still_summed_up() {
    let report = summarize(&vec![RecordOutcome::StorageFailed, RecordOutcome::InferenceFailed]);
    assert_eq!(report.attempted, 2);
    assert_eq!(report.completed, 0);
    assert_eq!(report.failed, 2);
}

#[test]
fn every_outcome_but_a_stored_result_has_its_kind_of_failure() {
    assert_eq!(outcome_kind(RecordOutcome::Completed), None);
    assert_eq!(outcome_kind(RecordOutcome::Unsupported), Some(ErrorKind::UnsupportedFormat));
    assert_eq!(outcome_kind(RecordOutcome::ExtractionFailed), Some(ErrorKind::ExtractionFailed));
    assert_eq!(outcome_kind(RecordOutcome::InferenceFailed), Some(ErrorKind::InferenceFailed));
    assert_eq!(outcome_kind(RecordOutcome::NotFound), Some(ErrorKind::NotFound));
    assert_eq!(outcome_kind(RecordOutcome::StorageFailed), Some(ErrorKind::StorageFailed));
}
