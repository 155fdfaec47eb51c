use crate::sync::ContentHash;
use vstd::prelude::*;

verus! {

/// Where the upload of one file stands.
#[derive(Clone, Copy, Debug, PartialEq, Eq, Structural)]
pub enum UploadState {
    Start,
    /// The plaintext is being hashed.
    AwaitingHash,
    /// The server is being asked whether it holds this content.
    AwaitingHasContent(ContentHash),
    /// The encrypted body is being sent.
    AwaitingUpload(ContentHash),
    /// The entry that references the content is being recorded.
    AwaitingEntry(ContentHash),
    /// Recorded by the server at this timestamp.
    Done(i64),
    Failed,
}

/// What the outside world reports back.
#[derive(Clone, Copy, Debug, PartialEq, Eq, Structural)]
pub enum UploadEvent {
    Begin,
    Hashed(ContentHash),
    HasContent(bool),
    ContentStored,
    EntryRecorded(i64),
    Error,
}

/// What the caller must do next.
#[derive(Clone, Copy, Debug, PartialEq, Eq, Structural)]
pub enum UploadAction {
    ComputeHash,
    QueryHasContent(ContentHash),
    SendContent(ContentHash),
    AddEntry(ContentHash),
    /// Store the new shadow record with this timestamp.
    Finish(i64),
    Abort,
}

/// The next state and action of a file upload.
pub open spec fn upload_step_spec(s: UploadState, e: UploadEvent) -> (UploadState, UploadAction) {
    match (s, e) {
        (UploadState::Start, UploadEvent::Begin) => (UploadState::AwaitingHash, UploadAction::ComputeHash),
        (UploadState::AwaitingHash, UploadEvent::Hashed(h)) => (
            UploadState::AwaitingHasContent(h),
            UploadAction::QueryHasContent(h),
        ),
        (UploadState::AwaitingHasContent(h), UploadEvent::HasContent(present)) => if present {
            (UploadState::AwaitingEntry(h), UploadAction::AddEntry(h))
        } else {
            (UploadState::AwaitingUpload(h), UploadAction::SendContent(h))
        },
        (UploadState::AwaitingUpload(h), UploadEvent::ContentStored) => (
            UploadState::AwaitingEntry(h),
            UploadAction::AddEntry(h),
        ),
        (UploadState::AwaitingEntry(_), UploadEvent::EntryRecorded(t)) => (
            UploadState::Done(t),
            UploadAction::Finish(t),
        ),
        _ => (UploadState::Failed, UploadAction::Abort),
    }
}

/// One step of a file upload: hash the plaintext, ask the server whether
/// it has that content, send the body only if it does not, then record
/// the entry. Any other event aborts.
pub fn upload_step(s: UploadState, e: UploadEvent) -> (r: (UploadState, UploadAction))
    ensures
        r == upload_step_spec(s, e),
{
    match (s, e) {
        (UploadState::Start, UploadEvent::Begin) => (UploadState::AwaitingHash, UploadAction::ComputeHash),
        (UploadState::AwaitingHash, UploadEvent::Hashed(h)) => (
            UploadState::AwaitingHasContent(h),
            UploadAction::QueryHasContent(h),
        ),
        (UploadState::AwaitingHasContent(h), UploadEvent::HasContent(present)) => if present {
            (UploadState::AwaitingEntry(h), UploadAction::AddEntry(h))
        } else {
            (UploadState::AwaitingUpload(h), UploadAction::SendContent(h))
        },
        (UploadState::AwaitingUpload(h), UploadEvent::ContentStored) => (
            UploadState::AwaitingEntry(h),
            UploadAction::AddEntry(h),
        ),
        (UploadState::AwaitingEntry(_), UploadEvent::EntryRecorded(t)) => (
            UploadState::Done(t),
            UploadAction::Finish(t),
        ),
        _ => (UploadState::Failed, UploadAction::Abort),
    }
}

/// A body is sent only after the server said it does not hold that
/// content: content the server already has is never uploaded again, also
/// when an upload is repeated after a crash.
pub proof fn content_sent_only_when_missing(s: UploadState, e: UploadEvent, h: ContentHash)
    requires
        upload_step_spec(s, e).1 == UploadAction::SendContent(h),
    ensures
        s == UploadState::AwaitingHasContent(h),
        e == UploadEvent::HasContent(false),
{
}

/// Every entry recorded references the hash computed from the plaintext.
pub proof fn entry_references_hashed_content(s: UploadState, e: UploadEvent, h: ContentHash)
    requires
        upload_step_spec(s, e).1 == UploadAction::AddEntry(h),
    ensures
        s == UploadState::AwaitingHasContent(h) || s == UploadState::AwaitingUpload(h),
{
}

} // verus!
