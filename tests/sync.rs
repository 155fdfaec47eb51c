use rammingen::policy::{
    backoff_delay_ms, exit_code, failure_kind, is_retryable, next_retry, on_concurrent_change, ConcurrencyAction, ErrorKind,
    RequestFailure,
};
use rammingen::sync::{
    accept_page, current_at, observed_of_entry, reconcile, shadow_after, ContentHash, Entry, EntryState, Observed, ShadowRecord,
    SyncAction,
};

fn hash(n: u64) -> ContentHash {
    ContentHash { w0: n, w1: 0, w2: 0, w3: 0 }
}

fn file_entry(at: i64, h: u64) -> Entry {
    Entry {
        recorded_at: at,
        source_id: 1,
        state: EntryState::FilePresent {
            content_hash: hash(h),
            encrypted_size: 100,
            original_size: 80,
            modified_at: at,
            unix_mode: Some(0o644),
        },
    }
}

fn absent(at: i64) -> Entry {
    Entry { recorded_at: at, source_id: 1, state: EntryState::Absent }
}

fn shadow(h: u64, at: i64) -> Option<ShadowRecord> {
    Some(ShadowRecord { observed: Observed::File(hash(h)), last_seen_archive_recorded_at: at })
}

#[test]
fn conflict_scenario_remote_wins() {
    // local edited from 1 to 2 while another client uploaded 3
    let action = reconcile(Observed::File(hash(2)), shadow(1, 10), Some(file_entry(20, 3)));
    assert_eq!(action, SyncAction::Conflict);
    let rec = shadow_after(action, Observed::File(hash(2)), Some(file_entry(20, 3)), 0).unwrap();
    assert_eq!(rec.observed, Observed::File(hash(3)));
    assert_eq!(rec.last_seen_archive_recorded_at, 20);
}

#[test]
fn local_only_change_uploads() {
    let action = reconcile(Observed::File(hash(2)), shadow(1, 10), Some(file_entry(10, 1)));
    assert_eq!(action, SyncAction::Upload);
    let rec = shadow_after(action, Observed::File(hash(2)), Some(file_entry(10, 1)), 30).unwrap();
    assert_eq!(rec.observed, Observed::File(hash(2)));
    assert_eq!(rec.last_seen_archive_recorded_at, 30);
    assert_eq!(reconcile(Observed::Directory, None, None), SyncAction::Upload);
}

#[test]
fn remote_only_change_downloads() {
    assert_eq!(reconcile(Observed::File(hash(1)), shadow(1, 10), Some(file_entry(20, 3))), SyncAction::Download);
    let action = reconcile(Observed::File(hash(1)), shadow(1, 10), Some(absent(20)));
    assert_eq!(action, SyncAction::Download);
    assert!(shadow_after(action, Observed::File(hash(1)), Some(absent(20)), 0).is_none());
    assert_eq!(reconcile(Observed::Missing, None, Some(file_entry(5, 4))), SyncAction::Download);
}

#[test]
fn equal_sides_are_in_sync() {
    assert_eq!(reconcile(Observed::File(hash(3)), shadow(1, 10), Some(file_entry(20, 3))), SyncAction::InSync);
    assert_eq!(reconcile(Observed::Missing, None, None), SyncAction::InSync);
    assert_eq!(reconcile(Observed::Missing, None, Some(absent(3))), SyncAction::InSync);
}

#[test]
fn convergence_of_two_clients() {
    // client A edits and syncs first, then B (unchanged) syncs
    let a = reconcile(Observed::File(hash(2)), shadow(1, 10), Some(file_entry(10, 1)));
    assert_eq!(a, SyncAction::Upload);
    let archive = file_entry(11, 2);
    let b = reconcile(Observed::File(hash(1)), shadow(1, 10), Some(archive));
    assert_eq!(b, SyncAction::Download);
    assert_eq!(observed_of_entry(&archive), Observed::File(hash(2)));
}

#[test]
fn point_in_time_lookup() {
    let history = vec![file_entry(10, 1), absent(20), file_entry(30, 2)];
    assert_eq!(current_at(&history, 5), None);
    assert_eq!(current_at(&history, 10), Some(0));
    assert_eq!(current_at(&history, 25), Some(1));
    assert_eq!(current_at(&history, 100), Some(2));
    assert_eq!(current_at(&Vec::new(), 100), None);
}

#[test]
fn backoff_schedule() {
    let expected = [500u64, 1000, 2000, 4000, 8000, 16000, 30000, 30000];
    for (n, e) in expected.iter().enumerate() {
        assert_eq!(backoff_delay_ms(n as u32), *e);
    }
    assert_eq!(backoff_delay_ms(1000), 30000);
}

#[test]
fn retry_decisions() {
    assert_eq!(next_retry(1, RequestFailure::Connect), Some(500));
    assert_eq!(next_retry(3, RequestFailure::Status(503)), Some(2000));
    assert_eq!(next_retry(5, RequestFailure::Reset), Some(8000));
    assert_eq!(next_retry(6, RequestFailure::Connect), None);
    assert_eq!(next_retry(1, RequestFailure::Status(401)), None);
    assert_eq!(next_retry(1, RequestFailure::Status(403)), None);
    assert_eq!(next_retry(1, RequestFailure::Status(400)), None);
    assert_eq!(next_retry(1, RequestFailure::Integrity), None);
    assert!(is_retryable(RequestFailure::Status(500)));
    assert!(!is_retryable(RequestFailure::Status(404)));
}

#[test]
fn concurrency_is_retried_once() {
    assert_eq!(on_concurrent_change(false), ConcurrencyAction::RefreshAndRetry);
    assert_eq!(on_concurrent_change(true), ConcurrencyAction::Fail);
}

#[test]
fn exit_codes() {
    assert_eq!(exit_code(ErrorKind::UserInput), 1);
    assert_eq!(exit_code(failure_kind(RequestFailure::Connect)), 2);
    assert_eq!(exit_code(failure_kind(RequestFailure::Status(400))), 2);
    assert_eq!(failure_kind(RequestFailure::Status(400)), ErrorKind::Protocol);
    assert_eq!(exit_code(failure_kind(RequestFailure::Integrity)), 3);
    assert_eq!(exit_code(ErrorKind::Concurrency), 2);
}

#[test]
fn pages_advance_the_watermark() {
    assert_eq!(accept_page(5, &vec![file_entry(6, 1), absent(9), file_entry(12, 2)]), Some(12));
    assert_eq!(accept_page(5, &Vec::new()), Some(5));
    assert_eq!(accept_page(5, &vec![file_entry(5, 1)]), None);
    assert_eq!(accept_page(5, &vec![file_entry(8, 1), file_entry(7, 1)]), None);
    assert_eq!(accept_page(5, &vec![file_entry(8, 1), file_entry(8, 2)]), None);
}
