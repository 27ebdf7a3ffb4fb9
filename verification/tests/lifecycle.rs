use std::collections::BTreeMap;

use resumai::errors::{
    error_kind, AppError, ErrorKind, STATUS_ACCEPTED, STATUS_INTERNAL_ERROR, STATUS_NOT_FOUND,
};
use resumai::lifecycle::{
    artifact_key, completed_twin, download_name, Artifact, Command, LifecycleError, Operation,
    Outcome, Stage, Step,
};
use resumai::store::{StoreReply, StoreRequest, HANDLE_LIFETIME_SECS};

struct MemoryStore {
    objects: BTreeMap<String, Vec<u8>>,
    requests: Vec<String>,
    fail_at: Option<usize>,
}

impl MemoryStore {
    fn new() -> MemoryStore {
        MemoryStore { objects: BTreeMap::new(), requests: Vec::new(), fail_at: None }
    }

    fn holding(objects: &[(&str, &[u8])]) -> MemoryStore {
        let mut store = MemoryStore::new();
        for (key, body) in objects {
            store.objects.insert(key.to_string(), body.to_vec());
        }
        store
    }

    fn serve(&mut self, request: StoreRequest) -> StoreReply {
        let number = self.requests.len();
        let failing = self.fail_at == Some(number);
        match request {
            StoreRequest::Exists { key } => {
                self.requests.push(format!("exists {key}"));
                if failing {
                    return StoreReply::Failed;
                }
                StoreReply::Exists(self.objects.contains_key(&key))
            }
            StoreRequest::Get { key } => {
                self.requests.push(format!("get {key}"));
                if failing {
                    return StoreReply::Failed;
                }
                match self.objects.get(&key) {
                    Some(body) => StoreReply::Body(body.clone()),
                    None => StoreReply::Failed,
                }
            }
            StoreRequest::Put { key, body } => {
                self.requests.push(format!("put {key}"));
                if failing {
                    return StoreReply::Failed;
                }
                self.objects.insert(key, body);
                StoreReply::Done
            }
            StoreRequest::Delete { key } => {
                self.requests.push(format!("delete {key}"));
                if failing {
                    return StoreReply::Failed;
                }
                self.objects.remove(&key);
                StoreReply::Done
            }
            StoreRequest::UploadHandle { key, lifetime_secs } => {
                self.requests.push(format!("upload {key} {lifetime_secs}"));
                if failing {
                    return StoreReply::Failed;
                }
                StoreReply::Handle(format!("https://store.test/{key}?put"))
            }
            StoreRequest::DownloadHandle { key, filename, lifetime_secs } => {
                self.requests.push(format!("download {key} {filename} {lifetime_secs}"));
                if failing {
                    return StoreReply::Failed;
                }
                StoreReply::Handle(format!("https://store.test/{key}?get"))
            }
        }
    }
}

fn carry_out(command: Command, store: &mut MemoryStore) -> Result<Outcome, LifecycleError> {
    let (mut operation, mut request) = Operation::begin(command);
    loop {
        let reply = store.serve(request);
        match operation.advance(reply) {
            Step::Ask(next) => request = next,
            Step::Finished(ending) => {
                assert_eq!(operation.stage(), Stage::Closed);
                return ending;
            }
        }
    }
}

fn id() -> String {
    "3f2b8c1e-7a44-4d0a-9c53-5e2f6a1b0c9d".to_string()
}

fn full_record() -> MemoryStore {
    MemoryStore::holding(&[
        ("resumes/3f2b8c1e-7a44-4d0a-9c53-5e2f6a1b0c9d", b"%PDF-1.5"),
        ("results/3f2b8c1e-7a44-4d0a-9c53-5e2f6a1b0c9d", b"score report"),
        ("resumes/another", b"%PDF-1.4"),
        ("results/another", b"other report"),
    ])
}

#[test]
fn keys_put_the_identifier_behind_the_prefix() {
    assert_eq!(artifact_key(Artifact::Pending, "abc"), "resumes/abc");
    assert_eq!(artifact_key(Artifact::Completed, "abc"), "results/abc");
    assert_eq!(artifact_key(Artifact::Pending, ""), "resumes/");
    assert_eq!(download_name("abc"), "resume-abc.pdf");
}

#[test]
fn twin_of_a_pending_key_is_the_completed_key() {
    assert_eq!(completed_twin("resumes/abc"), Some("results/abc".to_string()));
    assert_eq!(completed_twin("resumes/"), Some("results/".to_string()));
    assert_eq!(
        completed_twin("resumes/a/resumes/b"),
        Some("results/a/resumes/b".to_string())
    );
    assert_eq!(completed_twin("results/abc"), None);
    assert_eq!(completed_twin("uploads/resumes/abc"), None);
    assert_eq!(completed_twin("resumes"), None);
    assert_eq!(completed_twin(""), None);
}

#[test]
fn submit_asks_for_an_upload_handle_to_the_pending_key() {
    let mut store = MemoryStore::new();
    let outcome = carry_out(Command::Submit { id: id() }, &mut store);
    match outcome {
        Ok(Outcome::Submitted { upload_handle }) => assert_eq!(
            upload_handle,
            "https://store.test/resumes/3f2b8c1e-7a44-4d0a-9c53-5e2f6a1b0c9d?put"
        ),
        _ => panic!("not submitted"),
    }
    assert_eq!(
        store.requests,
        vec![format!("upload resumes/{} {}", id(), HANDLE_LIFETIME_SECS)]
    );
    assert_eq!(HANDLE_LIFETIME_SECS, 30 * 60);
    assert!(store.objects.is_empty());
}

#[test]
fn submit_mints_identifiers_in_hyphenated_lower_hex() {
    let (first, request) = Operation::submit();
    let (second, _) = Operation::submit();
    assert_ne!(first.id(), second.id());
    assert_eq!(first.stage(), Stage::IssuingUpload);
    let minted = first.id().to_string();
    assert_eq!(minted.len(), 36);
    for (i, c) in minted.chars().enumerate() {
        if i == 8 || i == 13 || i == 18 || i == 23 {
            assert_eq!(c, '-');
        } else {
            assert!(c.is_ascii_digit() || ('a'..='f').contains(&c));
        }
    }
    match request {
        StoreRequest::UploadHandle { key, lifetime_secs } => {
            assert_eq!(key, format!("resumes/{minted}"));
            assert_eq!(lifetime_secs, 1800);
        }
        _ => panic!("no upload handle asked for"),
    }
}

#[test]
fn submit_fails_when_the_store_issues_no_handle() {
    let mut store = MemoryStore::new();
    store.fail_at = Some(0);
    assert!(matches!(
        carry_out(Command::Submit { id: id() }, &mut store),
        Err(LifecycleError::StorageFailed)
    ));
}

#[test]
fn complete_writes_the_result_under_the_completed_key() {
    let mut store = MemoryStore::holding(&[("resumes/abc", b"%PDF-1.5")]);
    let outcome = carry_out(
        Command::Complete { id: "abc".to_string(), result: b"report".to_vec() },
        &mut store,
    );
    assert!(matches!(outcome, Ok(Outcome::Completed)));
    assert_eq!(store.requests, vec!["put results/abc".to_string()]);
    assert_eq!(store.objects.get("results/abc"), Some(&b"report".to_vec()));
    assert_eq!(store.objects.get("resumes/abc"), Some(&b"%PDF-1.5".to_vec()));
    assert_eq!(store.objects.len(), 2);
}

#[test]
fn complete_twice_leaves_the_store_as_complete_once() {
    let mut once = MemoryStore::holding(&[("resumes/abc", b"%PDF-1.5")]);
    let mut twice = MemoryStore::holding(&[("resumes/abc", b"%PDF-1.5")]);
    let command = || Command::Complete { id: "abc".to_string(), result: b"report".to_vec() };
    assert!(matches!(carry_out(command(), &mut once), Ok(Outcome::Completed)));
    assert!(matches!(carry_out(command(), &mut twice), Ok(Outcome::Completed)));
    assert!(matches!(carry_out(command(), &mut twice), Ok(Outcome::Completed)));
    assert_eq!(once.objects, twice.objects);
}

#[test]
fn complete_overwrites_an_earlier_result() {
    let mut store = MemoryStore::holding(&[("results/abc", b"old")]);
    let outcome =
        carry_out(Command::Complete { id: "abc".to_string(), result: b"new".to_vec() }, &mut store);
    assert!(matches!(outcome, Ok(Outcome::Completed)));
    assert_eq!(store.objects.get("results/abc"), Some(&b"new".to_vec()));
}

#[test]
fn complete_fails_when_the_store_fails() {
    let mut store = MemoryStore::new();
    store.fail_at = Some(0);
    let outcome =
        carry_out(Command::Complete { id: "abc".to_string(), result: b"new".to_vec() }, &mut store);
    assert!(matches!(outcome, Err(LifecycleError::StorageFailed)));
    assert!(store.objects.is_empty());
}

#[test]
fn fetch_reads_the_result_after_checking_that_it_exists() {
    let mut store = full_record();
    match carry_out(Command::Fetch { id: id() }, &mut store) {
        Ok(Outcome::Fetched(body)) => assert_eq!(body, b"score report".to_vec()),
        _ => panic!("not fetched"),
    }
    assert_eq!(
        store.requests,
        vec![format!("exists results/{}", id()), format!("get results/{}", id())]
    );
}

#[test]
fn fetch_before_completion_is_not_found_and_reads_nothing() {
    let mut store = MemoryStore::holding(&[("resumes/abc", b"%PDF-1.5")]);
    let outcome = carry_out(Command::Fetch { id: "abc".to_string() }, &mut store);
    assert!(matches!(outcome, Err(LifecycleError::NotFound(Artifact::Completed))));
    assert_eq!(store.requests, vec!["exists results/abc".to_string()]);
    assert_eq!(store.objects.len(), 1);
}

#[test]
fn fetch_reports_a_failing_store_as_such() {
    for fault in 0..2 {
        let mut store = full_record();
        store.fail_at = Some(fault);
        assert!(matches!(
            carry_out(Command::Fetch { id: id() }, &mut store),
            Err(LifecycleError::StorageFailed)
        ));
    }
}

#[test]
fn fetch_after_complete_hands_out_what_was_stored() {
    let mut store = MemoryStore::new();
    let stored =
        carry_out(Command::Complete { id: "abc".to_string(), result: b"report".to_vec() }, &mut store);
    assert!(matches!(stored, Ok(Outcome::Completed)));
    match carry_out(Command::Fetch { id: "abc".to_string() }, &mut store) {
        Ok(Outcome::Fetched(body)) => assert_eq!(body, b"report".to_vec()),
        _ => panic!("not fetched"),
    }
}

#[test]
fn delete_removes_both_artifacts_and_nothing_else() {
    let mut store = full_record();
    let outcome = carry_out(Command::Delete { id: id() }, &mut store);
    assert!(matches!(outcome, Ok(Outcome::Deleted)));
    assert_eq!(
        store.requests,
        vec![
            format!("exists resumes/{}", id()),
            format!("exists results/{}", id()),
            format!("delete resumes/{}", id()),
            format!("delete results/{}", id()),
        ]
    );
    assert_eq!(store.objects.len(), 2);
    assert!(store.objects.contains_key("resumes/another"));
    assert!(store.objects.contains_key("results/another"));
}

#[test]
fn delete_without_the_upload_is_not_found_and_changes_nothing() {
    let mut store = MemoryStore::holding(&[("results/abc", b"report")]);
    let outcome = carry_out(Command::Delete { id: "abc".to_string() }, &mut store);
    assert!(matches!(outcome, Err(LifecycleError::NotFound(Artifact::Pending))));
    assert_eq!(store.requests, vec!["exists resumes/abc".to_string()]);
    assert_eq!(store.objects.get("results/abc"), Some(&b"report".to_vec()));
    assert_eq!(store.objects.len(), 1);
}

#[test]
fn delete_without_the_result_is_not_found_and_changes_nothing() {
    let mut store = MemoryStore::holding(&[("resumes/abc", b"%PDF-1.5")]);
    let outcome = carry_out(Command::Delete { id: "abc".to_string() }, &mut store);
    assert!(matches!(outcome, Err(LifecycleError::NotFound(Artifact::Completed))));
    assert_eq!(
        store.requests,
        vec!["exists resumes/abc".to_string(), "exists results/abc".to_string()]
    );
    assert_eq!(store.objects.get("resumes/abc"), Some(&b"%PDF-1.5".to_vec()));
    assert_eq!(store.objects.len(), 1);
}

#[test]
fn delete_of_an_unknown_record_is_not_found() {
    let mut store = full_record();
    let outcome = carry_out(Command::Delete { id: "missing".to_string() }, &mut store);
    assert!(matches!(outcome, Err(LifecycleError::NotFound(Artifact::Pending))));
    assert_eq!(store.objects.len(), 4);
}

#[test]
fn delete_that_fails_before_removing_changes_nothing() {
    for fault in 0..3 {
        let mut store = full_record();
        store.fail_at = Some(fault);
        let outcome = carry_out(Command::Delete { id: id() }, &mut store);
        assert!(matches!(outcome, Err(LifecycleError::StorageFailed)));
        assert_eq!(store.objects.len(), 4);
    }
}

#[test]
fn partial_deletion_is_reported_and_resumed() {
    let mut store = full_record();
    store.fail_at = Some(3);
    let outcome = carry_out(Command::Delete { id: id() }, &mut store);
    assert!(matches!(outcome, Err(LifecycleError::PartiallyDeleted)));
    assert!(!store.objects.contains_key(&format!("resumes/{}", id())));
    assert!(store.objects.contains_key(&format!("results/{}", id())));

    store.fail_at = None;
    store.requests.clear();
    let retried = carry_out(Command::ResumeDelete { id: id() }, &mut store);
    assert!(matches!(retried, Ok(Outcome::Deleted)));
    assert_eq!(
        store.requests,
        vec![
            format!("exists resumes/{}", id()),
            format!("exists results/{}", id()),
            format!("delete results/{}", id()),
        ]
    );
    assert!(!store.objects.contains_key(&format!("resumes/{}", id())));
    assert!(!store.objects.contains_key(&format!("results/{}", id())));
    assert_eq!(store.objects.len(), 2);
}

#[test]
fn plain_delete_after_partial_deletion_is_not_found() {
    let mut store = full_record();
    store.fail_at = Some(3);
    let outcome = carry_out(Command::Delete { id: id() }, &mut store);
    assert!(matches!(outcome, Err(LifecycleError::PartiallyDeleted)));
    store.fail_at = None;
    let again = carry_out(Command::Delete { id: id() }, &mut store);
    assert!(matches!(again, Err(LifecycleError::NotFound(Artifact::Pending))));
    assert!(store.objects.contains_key(&format!("results/{}", id())));
}

#[test]
fn resumed_delete_that_fails_again_stays_partially_deleted() {
    let mut store = MemoryStore::holding(&[("results/abc", b"report")]);
    store.fail_at = Some(2);
    let outcome = carry_out(Command::ResumeDelete { id: "abc".to_string() }, &mut store);
    assert!(matches!(outcome, Err(LifecycleError::PartiallyDeleted)));
    assert!(store.objects.contains_key("results/abc"));
}

#[test]
fn download_target_is_issued_for_an_existing_upload() {
    let mut store = MemoryStore::holding(&[("resumes/abc", b"%PDF-1.5")]);
    match carry_out(Command::DownloadTarget { id: "abc".to_string() }, &mut store) {
        Ok(Outcome::DownloadTarget { download_handle }) => {
            assert_eq!(download_handle, "https://store.test/resumes/abc?get")
        }
        _ => panic!("no download target"),
    }
    assert_eq!(
        store.requests,
        vec![
            "exists resumes/abc".to_string(),
            "download resumes/abc resume-abc.pdf 1800".to_string(),
        ]
    );
}

#[test]
fn download_target_of_a_missing_upload_is_not_found() {
    let mut store = MemoryStore::holding(&[("results/abc", b"report")]);
    let outcome = carry_out(Command::DownloadTarget { id: "abc".to_string() }, &mut store);
    assert!(matches!(outcome, Err(LifecycleError::NotFound(Artifact::Pending))));
    assert_eq!(store.requests, vec!["exists resumes/abc".to_string()]);
}

#[test]
fn download_target_fails_when_the_store_fails() {
    for fault in 0..2 {
        let mut store = MemoryStore::holding(&[("resumes/abc", b"%PDF-1.5")]);
        store.fail_at = Some(fault);
        let outcome = carry_out(Command::DownloadTarget { id: "abc".to_string() }, &mut store);
        assert!(matches!(outcome, Err(LifecycleError::StorageFailed)));
    }
}

#[test]
fn a_reply_that_answers_another_request_fails_the_operation() {
    let (mut operation, _) = Operation::begin(Command::Fetch { id: "abc".to_string() });
    assert_eq!(operation.id(), "abc");
    assert_eq!(operation.stage(), Stage::FetchChecking);
    assert!(matches!(
        operation.advance(StoreReply::Done),
        Step::Finished(Err(LifecycleError::StorageFailed))
    ));
    assert_eq!(operation.stage(), Stage::Closed);
    assert!(matches!(
        operation.advance(StoreReply::Exists(true)),
        Step::Finished(Err(LifecycleError::StorageFailed))
    ));
}

#[test]
fn operations_start_in_their_first_stage() {
    let id = || "abc".to_string();
    assert_eq!(Operation::begin(Command::Submit { id: id() }).0.stage(), Stage::IssuingUpload);
    assert_eq!(
        Operation::begin(Command::Complete { id: id(), result: Vec::new() }).0.stage(),
        Stage::Storing
    );
    assert_eq!(Operation::begin(Command::Delete { id: id() }).0.stage(), Stage::DeleteCheckingPending);
    assert_eq!(
        Operation::begin(Command::ResumeDelete { id: id() }).0.stage(),
        Stage::ResumeCheckingPending
    );
    assert_eq!(
        Operation::begin(Command::DownloadTarget { id: id() }).0.stage(),
        Stage::DownloadChecking
    );
}

#[test]
fn missing_artifacts_are_told_with_status_404_and_their_name() {
    let upload = AppError::about(LifecycleError::NotFound(Artifact::Pending), "abc");
    assert_eq!(upload.status, 404);
    assert_eq!(upload.message, "resume abc not found");
    let result = AppError::about(LifecycleError::NotFound(Artifact::Completed), "abc");
    assert_eq!(result.status, STATUS_NOT_FOUND);
    assert_eq!(result.message, "evaluation abc not found");
}

#[test]
fn failures_of_the_server_are_told_with_status_500() {
    let partial = AppError::about(LifecycleError::PartiallyDeleted, "abc");
    assert_eq!(partial.status, 500);
    assert_eq!(partial.message, "evaluation abc partially deleted");
    let storage = AppError::about(LifecycleError::StorageFailed, "abc");
    assert_eq!(storage.status, STATUS_INTERNAL_ERROR);
    assert_eq!(storage.message, "evaluation abc: internal server error");
    let internal = AppError::internal();
    assert_eq!(internal.status, 500);
    assert_eq!(internal.message, "Internal server error");
    assert_eq!(STATUS_ACCEPTED, 202);
}

#[test]
fn lifecycle_errors_have_their_kind() {
    assert_eq!(error_kind(LifecycleError::NotFound(Artifact::Pending)), ErrorKind::NotFound);
    assert_eq!(error_kind(LifecycleError::NotFound(Artifact::Completed)), ErrorKind::NotFound);
    assert_eq!(error_kind(LifecycleError::PartiallyDeleted), ErrorKind::PartiallyDeleted);
    assert_eq!(error_kind(LifecycleError::StorageFailed), ErrorKind::StorageFailed);
}

#[test]
fn resumed_delete_of_an_intact_record_removes_both_artifacts() {
    let mut store = full_record();
    let outcome = carry_out(Command::ResumeDelete { id: id() }, &mut store);
    assert!(matches!(outcome, Ok(Outcome::Deleted)));
    assert_eq!(
        store.requests,
        vec![
            format!("exists resumes/{}", id()),
            format!("exists results/{}", id()),
            format!("delete resumes/{}", id()),
            format!("delete results/{}", id()),
        ]
    );
    assert!(!store.objects.contains_key(&format!("resumes/{}", id())));
    assert!(!store.objects.contains_key(&format!("results/{}", id())));
    assert_eq!(store.objects.len(), 2);
}

#[test]
fn resumed_delete_never_removes_the_result_and_leaves_the_upload() {
    for fault in 0..5 {
        let mut store = full_record();
        store.fail_at = Some(fault);
        let _ = carry_out(Command::ResumeDelete { id: id() }, &mut store);
        let upload = store.objects.contains_key(&format!("resumes/{}", id()));
        let result = store.objects.contains_key(&format!("results/{}", id()));
        assert!(result || !upload);
        assert_eq!(upload, fault != 3 && fault != 4);
    }
}

#[test]
fn resumed_delete_without_a_result_is_not_found_and_changes_nothing() {
    let mut store = MemoryStore::holding(&[("resumes/abc", b"%PDF-1.5")]);
    let outcome = carry_out(Command::ResumeDelete { id: "abc".to_string() }, &mut store);
    assert!(matches!(outcome, Err(LifecycleError::NotFound(Artifact::Completed))));
    assert_eq!(store.objects.len(), 1);

    let mut empty = MemoryStore::new();
    let outcome = carry_out(Command::ResumeDelete { id: "abc".to_string() }, &mut empty);
    assert!(matches!(outcome, Err(LifecycleError::NotFound(Artifact::Completed))));
    assert_eq!(
        empty.requests,
        vec!["exists resumes/abc".to_string(), "exists results/abc".to_string()]
    );
}

#[test]
fn resumed_delete_that_cannot_look_removes_nothing() {
    for fault in 0..2 {
        let mut store = MemoryStore::holding(&[("results/abc", b"report")]);
        store.fail_at = Some(fault);
        let outcome = carry_out(Command::ResumeDelete { id: "abc".to_string() }, &mut store);
        assert!(matches!(outcome, Err(LifecycleError::StorageFailed)));
        assert!(store.objects.contains_key("results/abc"));
    }
}

#[test]
fn every_failure_is_told_with_the_identifier() {
    let errors = [
        LifecycleError::NotFound(Artifact::Pending),
        LifecycleError::NotFound(Artifact::Completed),
        LifecycleError::PartiallyDeleted,
        LifecycleError::StorageFailed,
    ];
    let id = "3f2b8c1e-7a44-4d0a-9c53-5e2f6a1b0c9d";
    for error in errors {
        let told = AppError::about(error, id);
        assert!(told.message.contains(id));
        assert!(told.message.len() < id.len() + 40);
    }
}
