//! The object store as this library sees it: the requests it asks a caller to
//! perform, the replies it accepts, and a mathematical model of a store that
//! serves every request faithfully. The library never talks to a store itself.

use vstd::prelude::*;

verus! {

/// Seconds for which an upload or download handle stays valid.
pub const HANDLE_LIFETIME_SECS: u64 = 1800;

/// One operation on the object store.
#[derive(Debug)]
pub enum StoreRequest {
    /// Does an object exist under `key`?
    Exists { key: String },
    /// Read the object under `key`.
    Get { key: String },
    /// Write `body` under `key`, replacing what was there.
    Put { key: String, body: Vec<u8> },
    /// Remove the object under `key`.
    Delete { key: String },
    /// Issue a time-limited handle for writing the object under `key`.
    UploadHandle { key: String, lifetime_secs: u64 },
    /// Issue a time-limited handle for reading the object under `key`,
    /// offered to the reader under the name `filename`.
    DownloadHandle { key: String, filename: String, lifetime_secs: u64 },
}

/// What the store answered.
#[derive(Debug)]
pub enum StoreReply {
    /// Answer to `Exists`.
    Exists(bool),
    /// Answer to `Get`.
    Body(Vec<u8>),
    /// Answer to `Put` and `Delete`.
    Done,
    /// Answer to `UploadHandle` and `DownloadHandle`.
    Handle(String),
    /// The store could not serve the request.
    Failed,
}

pub enum RequestView {
    Exists { key: Seq<char> },
    Get { key: Seq<char> },
    Put { key: Seq<char>, body: Seq<u8> },
    Delete { key: Seq<char> },
    UploadHandle { key: Seq<char>, lifetime_secs: u64 },
    DownloadHandle { key: Seq<char>, filename: Seq<char>, lifetime_secs: u64 },
}

pub enum ReplyView {
    Exists(bool),
    Body(Seq<u8>),
    Done,
    Handle(Seq<char>),
    Failed,
}

impl View for StoreRequest {
    type V = RequestView;

    open spec fn view(&self) -> RequestView {
        match self {
            StoreRequest::Exists { key } => RequestView::Exists { key: key@ },
            StoreRequest::Get { key } => RequestView::Get { key: key@ },
            StoreRequest::Put { key, body } => RequestView::Put { key: key@, body: body@ },
            StoreRequest::Delete { key } => RequestView::Delete { key: key@ },
            StoreRequest::UploadHandle { key, lifetime_secs } => RequestView::UploadHandle {
                key: key@,
                lifetime_secs: *lifetime_secs,
            },
            StoreRequest::DownloadHandle {
                key,
                filename,
                lifetime_secs,
            } => RequestView::DownloadHandle {
                key: key@,
                filename: filename@,
                lifetime_secs: *lifetime_secs,
            },
        }
    }
}

impl View for StoreReply {
    type V = ReplyView;

    open spec fn view(&self) -> ReplyView {
        match self {
            StoreReply::Exists(found) => ReplyView::Exists(*found),
            StoreReply::Body(bytes) => ReplyView::Body(bytes@),
            StoreReply::Done => ReplyView::Done,
            StoreReply::Handle(url) => ReplyView::Handle(url@),
            StoreReply::Failed => ReplyView::Failed,
        }
    }
}

/// The contents of a store: the body under each key that holds an object.
pub type Contents = Map<Seq<char>, Seq<u8>>;

/// What a store holding `contents` holds after it served `request`.
pub open spec fn contents_after(contents: Contents, request: RequestView) -> Contents {
    match request {
        RequestView::Put { key, body } => contents.insert(key, body),
        RequestView::Delete { key } => contents.remove(key),
        _ => contents,
    }
}

/// What a store holding `contents` answers to `request` when nothing goes
/// wrong. The model's handle to an object is the object's key.
pub open spec fn answer(contents: Contents, request: RequestView) -> ReplyView {
    match request {
        RequestView::Exists { key } => ReplyView::Exists(contents.dom().contains(key)),
        RequestView::Get { key } => if contents.dom().contains(key) {
            ReplyView::Body(contents[key])
        } else {
            ReplyView::Failed
        },
        RequestView::Put { .. } => ReplyView::Done,
        RequestView::Delete { .. } => ReplyView::Done,
        RequestView::UploadHandle { key, .. } => ReplyView::Handle(key),
        RequestView::DownloadHandle { key, .. } => ReplyView::Handle(key),
    }
}

/// Writing the same body under the same key twice leaves the store as
/// writing it once does.
pub proof fn law_put_twice_is_put_once(contents: Contents, key: Seq<char>, body: Seq<u8>)
    ensures
        contents_after(
            contents_after(contents, RequestView::Put { key, body }),
            RequestView::Put { key, body },
        ) == contents_after(contents, RequestView::Put { key, body }),
{
    assert(contents.insert(key, body).insert(key, body) =~= contents.insert(key, body));
}

} // verus!
