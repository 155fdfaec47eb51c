use rammingen::archive_path::ArchivePath;
use rammingen::metadata::FileMetadata;
use rammingen::sync::{
    creation_order, local_change, removal_order, signature_matches, signature_of, ContentHash, LocalChange, Observed,
    ShadowRecord,
};

fn paths(list: &[&str]) -> Vec<ArchivePath> {
    list.iter().map(|s| ArchivePath::parse(s).unwrap()).collect()
}

#[test]
fn parents_are_created_first() {
    let p = paths(&["ar:/m/a/b/c", "ar:/m", "ar:/m/a/b", "ar:/m/x", "ar:/m/a"]);
    let order = creation_order(&p);
    assert_eq!(order, vec![1, 3, 4, 2, 0]);
    let removal = removal_order(&p);
    assert_eq!(removal, vec![0, 2, 4, 3, 1]);
    assert!(creation_order(&Vec::new()).is_empty());
}

#[test]
fn every_index_once() {
    let p = paths(&["ar:/a/b", "ar:/a/c", "ar:/a", "ar:/d/e/f", "ar:/d"]);
    let mut order = creation_order(&p);
    order.sort();
    assert_eq!(order, vec![0, 1, 2, 3, 4]);
}

#[test]
fn signatures_compare_exactly() {
    let m = FileMetadata { is_dir: false, size: 10, modified_at: 1000, mode: Some(0o644) };
    let s = signature_of(&m);
    assert!(signature_matches(Some(s), &s));
    assert!(!signature_matches(None, &s));
    let touched = signature_of(&FileMetadata { modified_at: 1001, ..m });
    assert!(!signature_matches(Some(s), &touched));
    let chmod = signature_of(&FileMetadata { mode: Some(0o600), ..m });
    assert!(!signature_matches(Some(s), &chmod));
    let no_mode = signature_of(&FileMetadata { mode: None, ..m });
    assert!(!signature_matches(Some(s), &no_mode));
}

#[test]
fn local_changes_are_classified() {
    let h = |n| Observed::File(ContentHash { w0: n, w1: 1, w2: 2, w3: 3 });
    let rec = Some(ShadowRecord { observed: h(1), last_seen_archive_recorded_at: 5 });
    assert_eq!(local_change(rec, h(1)), LocalChange::Unchanged);
    assert_eq!(local_change(rec, h(2)), LocalChange::Modified);
    assert_eq!(local_change(rec, Observed::Missing), LocalChange::Removed);
    assert_eq!(local_change(None, h(2)), LocalChange::Added);
    assert_eq!(local_change(None, Observed::Missing), LocalChange::Unchanged);
}
