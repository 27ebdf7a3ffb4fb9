//! The life of an evaluation record in the object store: submitted (the
//! upload under its pending key), completed (the result under its completed
//! key), deleted (both gone).
//!
//! Every operation is a short conversation with the store. The library
//! decides what to ask next and how the operation ends; the caller asks the
//! store and hands each reply to [`Operation::advance`].

use vstd::prelude::*;
use vstd::string::*;

use crate::store::{
    answer, contents_after, Contents, ReplyView, RequestView, StoreReply, StoreRequest,
    HANDLE_LIFETIME_SECS,
};
use crate::text::{begins_with, stands_at, to_chars};

verus! {

/// Which of the two objects of a record is meant.
#[derive(Clone, Copy, Debug, PartialEq, Eq, Structural)]
pub enum Artifact {
    /// The uploaded document.
    Pending,
    /// The stored result.
    Completed,
}

/// The text every pending key begins with.
pub open spec fn pending_prefix() -> Seq<char> {
    "resumes/"@
}

/// The text every completed key begins with.
pub open spec fn completed_prefix() -> Seq<char> {
    "results/"@
}

/// The key of the uploaded document of evaluation `id`.
pub open spec fn pending_key_of(id: Seq<char>) -> Seq<char> {
    pending_prefix() + id
}

/// The key of the stored result of evaluation `id`.
pub open spec fn completed_key_of(id: Seq<char>) -> Seq<char> {
    completed_prefix() + id
}

/// The key of `artifact` of evaluation `id`.
pub open spec fn key_of(artifact: Artifact, id: Seq<char>) -> Seq<char> {
    match artifact {
        Artifact::Pending => pending_key_of(id),
        Artifact::Completed => completed_key_of(id),
    }
}

/// The name under which the uploaded document of `id` is offered for download.
pub open spec fn download_name_of(id: Seq<char>) -> Seq<char> {
    "resume-"@ + id + ".pdf"@
}

/// The two prefixes are eight characters long and differ.
pub proof fn lemma_prefixes()
    ensures
        pending_prefix().len() == 8,
        completed_prefix().len() == 8,
        pending_prefix()[4] == 'm',
        completed_prefix()[4] == 'l',
{
    reveal_strlit("resumes/");
    reveal_strlit("results/");
}

/// A key names one artifact of one evaluation: two keys are equal only if
/// they were made for the same artifact of the same identifier.
pub proof fn law_keys_are_distinct(a: Artifact, id_a: Seq<char>, b: Artifact, id_b: Seq<char>)
    ensures
        key_of(a, id_a) == key_of(b, id_b) <==> a == b && id_a == id_b,
{
    lemma_prefixes();
    let ka = key_of(a, id_a);
    let kb = key_of(b, id_b);
    if ka == kb {
        assert(ka[4] == kb[4]);
        assert(a == b);
        assert(ka.subrange(8, ka.len() as int) =~= id_a);
        assert(kb.subrange(8, kb.len() as int) =~= id_b);
    }
}

/// The key of `artifact` of evaluation `id`.
pub fn artifact_key(artifact: Artifact, id: &str) -> (key: String)
    ensures
        key@ == key_of(artifact, id@),
{
    let mut key = match artifact {
        Artifact::Pending => String::from_str("resumes/"),
        Artifact::Completed => String::from_str("results/"),
    };
    key.append(id);
    key
}

/// The name under which the uploaded document of `id` is offered for download.
pub fn download_name(id: &str) -> (name: String)
    ensures
        name@ == download_name_of(id@),
{
    let mut name = String::from_str("resume-");
    name.append(id);
    name.append(".pdf");
    name
}

/// The completed key that belongs to `key`, if `key` is a pending key: the
/// same identifier behind the other prefix.
pub open spec fn completed_twin_of(key: Seq<char>) -> Option<Seq<char>> {
    if begins_with(key, pending_prefix()) {
        Some(completed_key_of(key.skip(pending_prefix().len() as int)))
    } else {
        None
    }
}

/// The twin of the pending key of `id` is the completed key of `id`.
pub proof fn law_twin_of_pending_key(id: Seq<char>)
    ensures
        completed_twin_of(pending_key_of(id)) == Some(completed_key_of(id)),
{
    let key = pending_key_of(id);
    let len = pending_prefix().len() as int;
    assert(key.subrange(0, len) =~= pending_prefix());
    assert(key.skip(len) =~= id);
}

/// The completed key that belongs to `key`, if `key` is a pending key.
pub fn completed_twin(key: &str) -> (twin: Option<String>)
    ensures
        crate::extract::text_of(twin) == completed_twin_of(key@),
{
    let chars = to_chars(key);
    let prefix = to_chars("resumes/");
    let len = chars.len();
    proof {
        lemma_prefixes();
    }
    if stands_at(&chars, &prefix, 0) {
        let mut twin = String::from_str("results/");
        twin.append(key.substring_char(8, len));
        Some(twin)
    } else {
        None
    }
}

/// Whether `c` is a digit or one of the letters `a` to `f`.
pub open spec fn is_lower_hex(c: char) -> bool {
    ('0' <= c && c <= '9') || ('a' <= c && c <= 'f')
}

/// Whether `c` may stand at position `i` of an identifier: a hyphen at the
/// positions 8, 13, 18 and 23, a digit or a letter from `a` to `f`
/// everywhere else.
pub open spec fn fits_identifier(i: int, c: char) -> bool {
    if i == 8 || i == 13 || i == 18 || i == 23 {
        c == '-'
    } else {
        is_lower_hex(c)
    }
}

/// Whether `text` is written like an identifier that this library mints:
/// 36 characters, each fitting its position.
pub open spec fn is_minted(text: Seq<char>) -> bool {
    &&& text.len() == 36
    &&& forall|i: int| 0 <= i < 36 ==> fits_identifier(i, #[trigger] text[i])
}

/// Calls `Uuid::new_v4` of `uuid` and writes the value out with its
/// `Display`, which is the hyphenated form in lower case. The value is
/// random, so the contract states only how every such text is written. The
/// call ends the process if the operating system cannot supply random bytes.
#[verifier::external_body]
fn mint_token() -> (token: String)
    ensures
        is_minted(token@),
{
    uuid::Uuid::new_v4().to_string()
}

/// Why an operation did not do what was asked.
#[derive(Clone, Copy, Debug, PartialEq, Eq, Structural)]
pub enum LifecycleError {
    /// The named artifact of the record does not exist.
    NotFound(Artifact),
    /// The uploaded document was removed, the stored result was not: the
    /// record is inconsistent until the deletion is resumed.
    PartiallyDeleted,
    /// The store could not serve a request; nothing was removed.
    StorageFailed,
}

/// What a caller asks of the lifecycle manager.
#[derive(Debug)]
pub enum Command {
    /// Obtain an upload handle for the pending artifact of the new record `id`.
    Submit { id: String },
    /// Store `result` as the completed artifact of `id`.
    Complete { id: String, result: Vec<u8> },
    /// Read the completed artifact of `id`.
    Fetch { id: String },
    /// Remove both artifacts of `id`.
    Delete { id: String },
    /// Remove what is left of `id`: the result alone where the uploaded
    /// document is already gone, as after a deletion that ended in
    /// `PartiallyDeleted`; both artifacts where both exist.
    ResumeDelete { id: String },
    /// Obtain a download handle for the pending artifact of `id`.
    DownloadTarget { id: String },
}

pub enum CommandView {
    Submit { id: Seq<char> },
    Complete { id: Seq<char>, result: Seq<u8> },
    Fetch { id: Seq<char> },
    Delete { id: Seq<char> },
    ResumeDelete { id: Seq<char> },
    DownloadTarget { id: Seq<char> },
}

impl View for Command {
    type V = CommandView;

    open spec fn view(&self) -> CommandView {
        match self {
            Command::Submit { id } => CommandView::Submit { id: id@ },
            Command::Complete { id, result } => CommandView::Complete { id: id@, result: result@ },
            Command::Fetch { id } => CommandView::Fetch { id: id@ },
            Command::Delete { id } => CommandView::Delete { id: id@ },
            Command::ResumeDelete { id } => CommandView::ResumeDelete { id: id@ },
            Command::DownloadTarget { id } => CommandView::DownloadTarget { id: id@ },
        }
    }
}

impl CommandView {
    /// The evaluation the command is about.
    pub open spec fn id(self) -> Seq<char> {
        match self {
            CommandView::Submit { id } => id,
            CommandView::Complete { id, .. } => id,
            CommandView::Fetch { id } => id,
            CommandView::Delete { id } => id,
            CommandView::ResumeDelete { id } => id,
            CommandView::DownloadTarget { id } => id,
        }
    }
}

/// What a successful operation hands back.
#[derive(Debug)]
pub enum Outcome {
    /// The upload handle of a newly submitted record.
    Submitted { upload_handle: String },
    /// The result is stored.
    Completed,
    /// The stored result.
    Fetched(Vec<u8>),
    /// Both artifacts are removed.
    Deleted,
    /// The download handle of the uploaded document.
    DownloadTarget { download_handle: String },
}

pub enum OutcomeView {
    Submitted { upload_handle: Seq<char> },
    Completed,
    Fetched(Seq<u8>),
    Deleted,
    DownloadTarget { download_handle: Seq<char> },
}

impl View for Outcome {
    type V = OutcomeView;

    open spec fn view(&self) -> OutcomeView {
        match self {
            Outcome::Submitted { upload_handle } => OutcomeView::Submitted {
                upload_handle: upload_handle@,
            },
            Outcome::Completed => OutcomeView::Completed,
            Outcome::Fetched(body) => OutcomeView::Fetched(body@),
            Outcome::Deleted => OutcomeView::Deleted,
            Outcome::DownloadTarget { download_handle } => OutcomeView::DownloadTarget {
                download_handle: download_handle@,
            },
        }
    }
}

/// How an operation ended.
pub type Ending = Result<OutcomeView, LifecycleError>;

/// What the caller does next.
#[derive(Debug)]
pub enum Step {
    /// Ask the store, and hand its reply to [`Operation::advance`].
    Ask(StoreRequest),
    /// The operation is over.
    Finished(Result<Outcome, LifecycleError>),
}

pub enum StepView {
    Ask(RequestView),
    Finished(Ending),
}

impl View for Step {
    type V = StepView;

    open spec fn view(&self) -> StepView {
        match self {
            Step::Ask(request) => StepView::Ask(request@),
            Step::Finished(Ok(outcome)) => StepView::Finished(Ok(outcome@)),
            Step::Finished(Err(error)) => StepView::Finished(Err(*error)),
        }
    }
}

/// Which reply an operation is waiting for.
#[derive(Clone, Copy, Debug, PartialEq, Eq, Structural)]
pub enum Stage {
    /// Submit: the upload handle was asked for.
    IssuingUpload,
    /// Complete: the result is being written.
    Storing,
    /// Fetch: the existence of the result is being checked.
    FetchChecking,
    /// Fetch: the result is being read.
    FetchReading,
    /// Delete: the existence of the uploaded document is being checked.
    DeleteCheckingPending,
    /// Delete: the existence of the result is being checked.
    DeleteCheckingCompleted,
    /// Delete: the uploaded document is being removed.
    DeleteRemovingPending,
    /// Delete: the result is being removed.
    DeleteRemovingCompleted,
    /// Resumed delete: the existence of the uploaded document is being
    /// checked.
    ResumeCheckingPending,
    /// Resumed delete: the uploaded document is gone; the existence of the
    /// result is being checked.
    ResumeCheckingCompleted,
    /// Download: the existence of the uploaded document is being checked.
    DownloadChecking,
    /// Download: the download handle was asked for.
    DownloadIssuing,
    /// The operation is over; no reply is awaited.
    Closed,
}

/// The stage in which `command` starts, and the first request it makes.
pub open spec fn opening(command: CommandView) -> (Stage, RequestView) {
    match command {
        CommandView::Submit { id } => (
            Stage::IssuingUpload,
            RequestView::UploadHandle {
                key: pending_key_of(id),
                lifetime_secs: HANDLE_LIFETIME_SECS,
            },
        ),
        CommandView::Complete { id, result } => (
            Stage::Storing,
            RequestView::Put { key: completed_key_of(id), body: result },
        ),
        CommandView::Fetch { id } => (
            Stage::FetchChecking,
            RequestView::Exists { key: completed_key_of(id) },
        ),
        CommandView::Delete { id } => (
            Stage::DeleteCheckingPending,
            RequestView::Exists { key: pending_key_of(id) },
        ),
        CommandView::ResumeDelete { id } => (
            Stage::ResumeCheckingPending,
            RequestView::Exists { key: pending_key_of(id) },
        ),
        CommandView::DownloadTarget { id } => (
            Stage::DownloadChecking,
            RequestView::Exists { key: pending_key_of(id) },
        ),
    }
}

/// The operation ends with `error`.
pub open spec fn fails_with(error: LifecycleError) -> (Stage, StepView) {
    (Stage::Closed, StepView::Finished(Err(error)))
}

/// The operation ends with `outcome`.
pub open spec fn succeeds_with(outcome: OutcomeView) -> (Stage, StepView) {
    (Stage::Closed, StepView::Finished(Ok(outcome)))
}

/// The stage that an operation on `id` waiting in `stage` moves to when the
/// store answers `reply`, and what its caller does next.
///
/// An existence check that says "absent" ends the operation in `NotFound`
/// before anything is read or removed; only a resumed deletion goes on
/// without the uploaded document, and then removes the result alone. A
/// reply that does not answer the request ends the operation in
/// `StorageFailed`; once the uploaded document has been removed, in
/// `PartiallyDeleted`.
pub open spec fn transition(stage: Stage, id: Seq<char>, reply: ReplyView) -> (Stage, StepView) {
    match stage {
        Stage::IssuingUpload => match reply {
            ReplyView::Handle(handle) => succeeds_with(
                OutcomeView::Submitted { upload_handle: handle },
            ),
            _ => fails_with(LifecycleError::StorageFailed),
        },
        Stage::Storing => match reply {
            ReplyView::Done => succeeds_with(OutcomeView::Completed),
            _ => fails_with(LifecycleError::StorageFailed),
        },
        Stage::FetchChecking => match reply {
            ReplyView::Exists(true) => (
                Stage::FetchReading,
                StepView::Ask(RequestView::Get { key: completed_key_of(id) }),
            ),
            ReplyView::Exists(false) => fails_with(LifecycleError::NotFound(Artifact::Completed)),
            _ => fails_with(LifecycleError::StorageFailed),
        },
        Stage::FetchReading => match reply {
            ReplyView::Body(body) => succeeds_with(OutcomeView::Fetched(body)),
            _ => fails_with(LifecycleError::StorageFailed),
        },
        Stage::DeleteCheckingPending => match reply {
            ReplyView::Exists(true) => (
                Stage::DeleteCheckingCompleted,
                StepView::Ask(RequestView::Exists { key: completed_key_of(id) }),
            ),
            ReplyView::Exists(false) => fails_with(LifecycleError::NotFound(Artifact::Pending)),
            _ => fails_with(LifecycleError::StorageFailed),
        },
        Stage::DeleteCheckingCompleted => match reply {
            ReplyView::Exists(true) => (
                Stage::DeleteRemovingPending,
                StepView::Ask(RequestView::Delete { key: pending_key_of(id) }),
            ),
            ReplyView::Exists(false) => fails_with(LifecycleError::NotFound(Artifact::Completed)),
            _ => fails_with(LifecycleError::StorageFailed),
        },
        Stage::DeleteRemovingPending => match reply {
            ReplyView::Done => (
                Stage::DeleteRemovingCompleted,
                StepView::Ask(RequestView::Delete { key: completed_key_of(id) }),
            ),
            _ => fails_with(LifecycleError::StorageFailed),
        },
        Stage::DeleteRemovingCompleted => match reply {
            ReplyView::Done => succeeds_with(OutcomeView::Deleted),
            _ => fails_with(LifecycleError::PartiallyDeleted),
        },
        Stage::ResumeCheckingPending => match reply {
            ReplyView::Exists(true) => (
                Stage::DeleteCheckingCompleted,
                StepView::Ask(RequestView::Exists { key: completed_key_of(id) }),
            ),
            ReplyView::Exists(false) => (
                Stage::ResumeCheckingCompleted,
                StepView::Ask(RequestView::Exists { key: completed_key_of(id) }),
            ),
            _ => fails_with(LifecycleError::StorageFailed),
        },
        Stage::ResumeCheckingCompleted => match reply {
            ReplyView::Exists(true) => (
                Stage::DeleteRemovingCompleted,
                StepView::Ask(RequestView::Delete { key: completed_key_of(id) }),
            ),
            ReplyView::Exists(false) => fails_with(LifecycleError::NotFound(Artifact::Completed)),
            _ => fails_with(LifecycleError::StorageFailed),
        },
        Stage::DownloadChecking => match reply {
            ReplyView::Exists(true) => (
                Stage::DownloadIssuing,
                StepView::Ask(
                    RequestView::DownloadHandle {
                        key: pending_key_of(id),
                        filename: download_name_of(id),
                        lifetime_secs: HANDLE_LIFETIME_SECS,
                    },
                ),
            ),
            ReplyView::Exists(false) => fails_with(LifecycleError::NotFound(Artifact::Pending)),
            _ => fails_with(LifecycleError::StorageFailed),
        },
        Stage::DownloadIssuing => match reply {
            ReplyView::Handle(handle) => succeeds_with(
                OutcomeView::DownloadTarget { download_handle: handle },
            ),
            _ => fails_with(LifecycleError::StorageFailed),
        },
        Stage::Closed => fails_with(LifecycleError::StorageFailed),
    }
}

/// One operation in progress.
#[derive(Debug)]
pub struct Operation {
    id: String,
    stage: Stage,
}

pub struct OperationView {
    pub id: Seq<char>,
    pub stage: Stage,
}

impl View for Operation {
    type V = OperationView;

    closed spec fn view(&self) -> OperationView {
        OperationView { id: self.id@, stage: self.stage }
    }
}

impl Operation {
    /// Starts `command`: the operation, and the first request to put to the
    /// store.
    pub fn begin(command: Command) -> (started: (Operation, StoreRequest))
        ensures
            started.0@.id == command@.id(),
            (started.0@.stage, started.1@) == opening(command@),
    {
        match command {
            Command::Submit { id } => {
                let key = artifact_key(Artifact::Pending, id.as_str());
                (
                    Operation { id, stage: Stage::IssuingUpload },
                    StoreRequest::UploadHandle { key, lifetime_secs: HANDLE_LIFETIME_SECS },
                )
            },
            Command::Complete { id, result } => {
                let key = artifact_key(Artifact::Completed, id.as_str());
                (Operation { id, stage: Stage::Storing }, StoreRequest::Put { key, body: result })
            },
            Command::Fetch { id } => {
                let key = artifact_key(Artifact::Completed, id.as_str());
                (Operation { id, stage: Stage::FetchChecking }, StoreRequest::Exists { key })
            },
            Command::Delete { id } => {
                let key = artifact_key(Artifact::Pending, id.as_str());
                (Operation { id, stage: Stage::DeleteCheckingPending }, StoreRequest::Exists { key })
            },
            Command::ResumeDelete { id } => {
                let key = artifact_key(Artifact::Pending, id.as_str());
                (Operation { id, stage: Stage::ResumeCheckingPending }, StoreRequest::Exists { key })
            },
            Command::DownloadTarget { id } => {
                let key = artifact_key(Artifact::Pending, id.as_str());
                (Operation { id, stage: Stage::DownloadChecking }, StoreRequest::Exists { key })
            },
        }
    }

    /// Mints the identifier of a new record and starts its submission.
    /// Nothing is asked about the identifier: a freshly minted one is taken
    /// to be in use nowhere.
    pub fn submit() -> (started: (Operation, StoreRequest))
        ensures
            is_minted(started.0@.id),
            (started.0@.stage, started.1@) == opening(CommandView::Submit { id: started.0@.id }),
    {
        Operation::begin(Command::Submit { id: mint_token() })
    }

    /// The stage the operation is in.
    pub fn stage(&self) -> (stage: Stage)
        ensures
            stage == self@.stage,
    {
        self.stage
    }

    /// The evaluation the operation is about.
    pub fn id(&self) -> (id: &str)
        ensures
            id@ == self@.id,
    {
        self.id.as_str()
    }

    /// Takes the store's reply to the request last handed out and says what
    /// to do next.
    pub fn advance(&mut self, reply: StoreReply) -> (step: Step)
        ensures
            final(self)@.id == old(self)@.id,
            (final(self)@.stage, step@) == transition(old(self)@.stage, old(self)@.id, reply@),
    {
        let stage = self.stage;
        self.stage = Stage::Closed;
        match stage {
            Stage::IssuingUpload => match reply {
                StoreReply::Handle(upload_handle) => Step::Finished(
                    Ok(Outcome::Submitted { upload_handle }),
                ),
                _ => Step::Finished(Err(LifecycleError::StorageFailed)),
            },
            Stage::Storing => match reply {
                StoreReply::Done => Step::Finished(Ok(Outcome::Completed)),
                _ => Step::Finished(Err(LifecycleError::StorageFailed)),
            },
            Stage::FetchChecking => match reply {
                StoreReply::Exists(true) => {
                    self.stage = Stage::FetchReading;
                    Step::Ask(
                        StoreRequest::Get {
                            key: artifact_key(Artifact::Completed, self.id.as_str()),
                        },
                    )
                },
                StoreReply::Exists(false) => Step::Finished(
                    Err(LifecycleError::NotFound(Artifact::Completed)),
                ),
                _ => Step::Finished(Err(LifecycleError::StorageFailed)),
            },
            Stage::FetchReading => match reply {
                StoreReply::Body(body) => Step::Finished(Ok(Outcome::Fetched(body))),
                _ => Step::Finished(Err(LifecycleError::StorageFailed)),
            },
            Stage::DeleteCheckingPending => match reply {
                StoreReply::Exists(true) => {
                    self.stage = Stage::DeleteCheckingCompleted;
                    Step::Ask(
                        StoreRequest::Exists {
                            key: artifact_key(Artifact::Completed, self.id.as_str()),
                        },
                    )
                },
                StoreReply::Exists(false) => Step::Finished(
                    Err(LifecycleError::NotFound(Artifact::Pending)),
                ),
                _ => Step::Finished(Err(LifecycleError::StorageFailed)),
            },
            Stage::DeleteCheckingCompleted => match reply {
                StoreReply::Exists(true) => {
                    self.stage = Stage::DeleteRemovingPending;
                    Step::Ask(
                        StoreRequest::Delete {
                            key: artifact_key(Artifact::Pending, self.id.as_str()),
                        },
                    )
                },
                StoreReply::Exists(false) => Step::Finished(
                    Err(LifecycleError::NotFound(Artifact::Completed)),
                ),
                _ => Step::Finished(Err(LifecycleError::StorageFailed)),
            },
            Stage::DeleteRemovingPending => match reply {
                StoreReply::Done => {
                    self.stage = Stage::DeleteRemovingCompleted;
                    Step::Ask(
                        StoreRequest::Delete {
                            key: artifact_key(Artifact::Completed, self.id.as_str()),
                        },
                    )
                },
                _ => Step::Finished(Err(LifecycleError::StorageFailed)),
            },
            Stage::DeleteRemovingCompleted => match reply {
                StoreReply::Done => Step::Finished(Ok(Outcome::Deleted)),
                _ => Step::Finished(Err(LifecycleError::PartiallyDeleted)),
            },
            Stage::ResumeCheckingPending => match reply {
                StoreReply::Exists(true) => {
                    self.stage = Stage::DeleteCheckingCompleted;
                    Step::Ask(
                        StoreRequest::Exists {
                            key: artifact_key(Artifact::Completed, self.id.as_str()),
                        },
                    )
                },
                StoreReply::Exists(false) => {
                    self.stage = Stage::ResumeCheckingCompleted;
                    Step::Ask(
                        StoreRequest::Exists {
                            key: artifact_key(Artifact::Completed, self.id.as_str()),
                        },
                    )
                },
                _ => Step::Finished(Err(LifecycleError::StorageFailed)),
            },
            Stage::ResumeCheckingCompleted => match reply {
                StoreReply::Exists(true) => {
                    self.stage = Stage::DeleteRemovingCompleted;
                    Step::Ask(
                        StoreRequest::Delete {
                            key: artifact_key(Artifact::Completed, self.id.as_str()),
                        },
                    )
                },
                StoreReply::Exists(false) => Step::Finished(
                    Err(LifecycleError::NotFound(Artifact::Completed)),
                ),
                _ => Step::Finished(Err(LifecycleError::StorageFailed)),
            },
            Stage::DownloadChecking => match reply {
                StoreReply::Exists(true) => {
                    self.stage = Stage::DownloadIssuing;
                    Step::Ask(
                        StoreRequest::DownloadHandle {
                            key: artifact_key(Artifact::Pending, self.id.as_str()),
                            filename: download_name(self.id.as_str()),
                            lifetime_secs: HANDLE_LIFETIME_SECS,
                        },
                    )
                },
                StoreReply::Exists(false) => Step::Finished(
                    Err(LifecycleError::NotFound(Artifact::Pending)),
                ),
                _ => Step::Finished(Err(LifecycleError::StorageFailed)),
            },
            Stage::DownloadIssuing => match reply {
                StoreReply::Handle(download_handle) => Step::Finished(
                    Ok(Outcome::DownloadTarget { download_handle }),
                ),
                _ => Step::Finished(Err(LifecycleError::StorageFailed)),
            },
            Stage::Closed => Step::Finished(Err(LifecycleError::StorageFailed)),
        }
    }
}

/// The number of replies an operation in `stage` may still wait for.
pub open spec fn replies_awaited(stage: Stage) -> nat {
    match stage {
        Stage::Closed => 0,
        Stage::IssuingUpload => 1,
        Stage::Storing => 1,
        Stage::FetchReading => 1,
        Stage::FetchChecking => 2,
        Stage::DeleteRemovingCompleted => 1,
        Stage::DeleteRemovingPending => 2,
        Stage::DeleteCheckingCompleted => 3,
        Stage::DeleteCheckingPending => 4,
        Stage::ResumeCheckingCompleted => 2,
        Stage::ResumeCheckingPending => 4,
        Stage::DownloadIssuing => 1,
        Stage::DownloadChecking => 2,
    }
}

/// An operation on `id` that waits in `stage` for the answer to `request`,
/// carried to its end against a store holding `contents`: what the store
/// holds afterwards, and how the operation ended.
///
/// The store serves every request as [`answer`] and [`contents_after`]
/// say, but for the request
/// numbered `fault` (counting from 0; none if negative): that one it fails,
/// and its contents stay as they were. Every step that asks for more
/// leaves fewer replies to wait for, so the run ends.
pub open spec fn run(
    stage: Stage,
    id: Seq<char>,
    contents: Contents,
    request: RequestView,
    fault: int,
) -> (Contents, Ending)
    decreases replies_awaited(stage),
{
    let reply = if fault == 0 {
        ReplyView::Failed
    } else {
        answer(contents, request)
    };
    let held = if fault == 0 {
        contents
    } else {
        contents_after(contents, request)
    };
    let (next, step) = transition(stage, id, reply);
    match step {
        StepView::Ask(asked) => if replies_awaited(next) < replies_awaited(stage) {
            run(next, id, held, asked, fault - 1)
        } else {
            (held, Err(LifecycleError::StorageFailed))
        },
        StepView::Finished(ending) => (held, ending),
    }
}

/// `command` carried out against a store holding `contents` that fails the
/// request numbered `fault` (none if negative).
pub open spec fn outcome_with_fault(command: CommandView, contents: Contents, fault: int) -> (
    Contents,
    Ending,
) {
    run(opening(command).0, command.id(), contents, opening(command).1, fault)
}

/// `command` carried out against a store holding `contents` that serves
/// every request.
pub open spec fn outcome(command: CommandView, contents: Contents) -> (Contents, Ending) {
    outcome_with_fault(command, contents, -1)
}

/// Every step that asks the store for more brings the operation nearer to
/// its end, so [`run`] follows [`transition`] all the way.
pub proof fn law_operations_end(stage: Stage, id: Seq<char>, reply: ReplyView)
    ensures
        transition(stage, id, reply).1 is Ask ==> replies_awaited(transition(stage, id, reply).0)
            < replies_awaited(stage),
        transition(stage, id, reply).1 is Finished ==> transition(stage, id, reply).0
            == Stage::Closed,
{
}

/// Completing a record stores the result under its completed key and
/// touches nothing else; completing it again with the same result changes
/// nothing and ends the same way.
pub proof fn law_complete_is_idempotent(id: Seq<char>, result: Seq<u8>, contents: Contents)
    ensures
        ({
            let command = CommandView::Complete { id, result };
            let once = outcome(command, contents);
            let twice = outcome(command, once.0);
            &&& once.0 == contents.insert(completed_key_of(id), result)
            &&& once.1 == Ok::<OutcomeView, LifecycleError>(OutcomeView::Completed)
            &&& twice == once
        }),
{
    let key = completed_key_of(id);
    assert(contents.insert(key, result).insert(key, result) =~= contents.insert(key, result));
}

/// Fetch hands out the stored result if there is one and reports
/// `NotFound` otherwise, whether or not the upload exists; it never changes
/// the store.
pub proof fn law_fetch_reads_the_result(id: Seq<char>, contents: Contents)
    ensures
        outcome(CommandView::Fetch { id }, contents).0 == contents,
        outcome(CommandView::Fetch { id }, contents).1 == if contents.dom().contains(
            completed_key_of(id),
        ) {
            Ok::<OutcomeView, LifecycleError>(OutcomeView::Fetched(contents[completed_key_of(id)]))
        } else {
            Err::<OutcomeView, LifecycleError>(LifecycleError::NotFound(Artifact::Completed))
        },
{
    reveal_with_fuel(run, 3);
}

/// A result that was stored is the result that is fetched.
pub proof fn law_fetch_after_complete(id: Seq<char>, result: Seq<u8>, contents: Contents)
    ensures
        outcome(
            CommandView::Fetch { id },
            outcome(CommandView::Complete { id, result }, contents).0,
        ).1 == Ok::<OutcomeView, LifecycleError>(OutcomeView::Fetched(result)),
{
    law_complete_is_idempotent(id, result, contents);
    law_fetch_reads_the_result(id, contents.insert(completed_key_of(id), result));
}

/// Delete removes both artifacts when both exist, and then nothing else.
/// When either is missing it reports which one, the uploaded document
/// first, and leaves the store as it was.
pub proof fn law_delete_needs_both(id: Seq<char>, contents: Contents)
    ensures
        ({
            let pending = pending_key_of(id);
            let completed = completed_key_of(id);
            let (held, ending) = outcome(CommandView::Delete { id }, contents);
            if !contents.dom().contains(pending) {
                &&& held == contents
                &&& ending == Err::<OutcomeView, LifecycleError>(
                    LifecycleError::NotFound(Artifact::Pending),
                )
            } else if !contents.dom().contains(completed) {
                &&& held == contents
                &&& ending == Err::<OutcomeView, LifecycleError>(
                    LifecycleError::NotFound(Artifact::Completed),
                )
            } else {
                &&& held == contents.remove(pending).remove(completed)
                &&& ending == Ok::<OutcomeView, LifecycleError>(OutcomeView::Deleted)
            }
        }),
{
    reveal_with_fuel(run, 5);
}

/// A deletion during which the store fails: a failure before anything was
/// removed leaves the store as it was and is reported as `StorageFailed`; a
/// failure to remove the result after the uploaded document is gone is
/// reported as `PartiallyDeleted`.
pub proof fn law_delete_under_fault(id: Seq<char>, contents: Contents, fault: int)
    requires
        contents.dom().contains(pending_key_of(id)),
        contents.dom().contains(completed_key_of(id)),
        0 <= fault < 4,
    ensures
        ({
            let (held, ending) = outcome_with_fault(CommandView::Delete { id }, contents, fault);
            if fault < 3 {
                &&& held == contents
                &&& ending == Err::<OutcomeView, LifecycleError>(LifecycleError::StorageFailed)
            } else {
                &&& held == contents.remove(pending_key_of(id))
                &&& ending == Err::<OutcomeView, LifecycleError>(LifecycleError::PartiallyDeleted)
            }
        }),
{
    reveal_with_fuel(run, 5);
    law_keys_are_distinct(Artifact::Pending, id, Artifact::Completed, id);
}

/// A resumed deletion looks before it removes. Where the uploaded document
/// exists it is a plain deletion; where the document is gone it removes the
/// result if there is one and reports it missing otherwise.
pub proof fn law_resumed_delete_looks_first(id: Seq<char>, contents: Contents)
    ensures
        ({
            let pending = pending_key_of(id);
            let completed = completed_key_of(id);
            let (held, ending) = outcome(CommandView::ResumeDelete { id }, contents);
            if contents.dom().contains(pending) {
                (held, ending) == outcome(CommandView::Delete { id }, contents)
            } else if contents.dom().contains(completed) {
                &&& held == contents.remove(completed)
                &&& ending == Ok::<OutcomeView, LifecycleError>(OutcomeView::Deleted)
            } else {
                &&& held == contents
                &&& ending == Err::<OutcomeView, LifecycleError>(
                    LifecycleError::NotFound(Artifact::Completed),
                )
            }
        }),
{
    reveal_with_fuel(run, 5);
}

/// After a deletion that ended in `PartiallyDeleted`, a resumed deletion
/// leaves neither artifact behind, while a plain deletion finds no
/// uploaded document and changes nothing.
pub proof fn law_resumed_delete_finishes(id: Seq<char>, contents: Contents)
    requires
        contents.dom().contains(pending_key_of(id)),
        contents.dom().contains(completed_key_of(id)),
    ensures
        ({
            let broken = outcome_with_fault(CommandView::Delete { id }, contents, 3).0;
            let (held, ending) = outcome(CommandView::ResumeDelete { id }, broken);
            &&& held == contents.remove(pending_key_of(id)).remove(completed_key_of(id))
            &&& ending == Ok::<OutcomeView, LifecycleError>(OutcomeView::Deleted)
            &&& outcome(CommandView::Delete { id }, broken) == (
                broken,
                Err::<OutcomeView, LifecycleError>(LifecycleError::NotFound(Artifact::Pending)),
            )
        }),
{
    let broken = contents.remove(pending_key_of(id));
    law_delete_under_fault(id, contents, 3);
    law_keys_are_distinct(Artifact::Pending, id, Artifact::Completed, id);
    law_delete_needs_both(id, broken);
    law_resumed_delete_looks_first(id, broken);
}

/// No deletion, plain or resumed, whatever request the store fails, takes
/// a record back from completed to submitted: where it removes the result,
/// it leaves no uploaded document behind.
pub proof fn law_no_deletion_uncompletes(id: Seq<char>, contents: Contents, resumed: bool, fault: int)
    ensures
        ({
            let command = if resumed {
                CommandView::ResumeDelete { id }
            } else {
                CommandView::Delete { id }
            };
            let held = outcome_with_fault(command, contents, fault).0;
            contents.dom().contains(completed_key_of(id)) && !held.dom().contains(
                completed_key_of(id),
            ) ==> !held.dom().contains(pending_key_of(id))
        }),
{
    reveal_with_fuel(run, 5);
    law_keys_are_distinct(Artifact::Pending, id, Artifact::Completed, id);
}

/// The download target is issued for the uploaded document if it exists,
/// whether or not a result exists; the store is left as it was.
pub proof fn law_download_needs_the_upload(id: Seq<char>, contents: Contents)
    ensures
        outcome(CommandView::DownloadTarget { id }, contents).0 == contents,
        outcome(CommandView::DownloadTarget { id }, contents).1 is Ok <==> contents.dom().contains(
            pending_key_of(id),
        ),
        !contents.dom().contains(pending_key_of(id)) ==> outcome(
            CommandView::DownloadTarget { id },
            contents,
        ).1 == Err::<OutcomeView, LifecycleError>(LifecycleError::NotFound(Artifact::Pending)),
{
    reveal_with_fuel(run, 3);
}

} // verus!
