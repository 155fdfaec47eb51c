use rammingen::sync::ContentHash;
use rammingen::upload::{upload_step, UploadAction, UploadEvent, UploadState};

fn h() -> ContentHash {
    ContentHash { w0: 1, w1: 2, w2: 3, w3: 4 }
}

fn run(events: &[UploadEvent]) -> (UploadState, Vec<UploadAction>) {
    let mut s = UploadState::Start;
    let mut actions = Vec::new();
    for e in events {
        let (next, a) = upload_step(s, *e);
        s = next;
        actions.push(a);
    }
    (s, actions)
}

#[test]
fn new_content_is_sent_once() {
    let (s, actions) = run(&[
        UploadEvent::Begin,
        UploadEvent::Hashed(h()),
        UploadEvent::HasContent(false),
        UploadEvent::ContentStored,
        UploadEvent::EntryRecorded(42),
    ]);
    assert_eq!(s, UploadState::Done(42));
    assert_eq!(
        actions,
        vec![
            UploadAction::ComputeHash,
            UploadAction::QueryHasContent(h()),
            UploadAction::SendContent(h()),
            UploadAction::AddEntry(h()),
            UploadAction::Finish(42),
        ]
    );
}

#[test]
fn restart_after_stored_content_only_adds_entry() {
    let (s, actions) = run(&[
        UploadEvent::Begin,
        UploadEvent::Hashed(h()),
        UploadEvent::HasContent(true),
        UploadEvent::EntryRecorded(7),
    ]);
    assert_eq!(s, UploadState::Done(7));
    assert!(!actions.iter().any(|a| matches!(a, UploadAction::SendContent(_))));
    assert_eq!(actions[2], UploadAction::AddEntry(h()));
}

#[test]
fn unexpected_events_abort() {
    assert_eq!(upload_step(UploadState::Start, UploadEvent::ContentStored), (UploadState::Failed, UploadAction::Abort));
    assert_eq!(
        upload_step(UploadState::AwaitingUpload(h()), UploadEvent::Error),
        (UploadState::Failed, UploadAction::Abort)
    );
    assert_eq!(upload_step(UploadState::Done(1), UploadEvent::Begin), (UploadState::Failed, UploadAction::Abort));
}
