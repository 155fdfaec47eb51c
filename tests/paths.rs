use rammingen::archive_path::{split_at_slashes, ArchivePath, PathError};
use rammingen::local_path::{native_to_archive_relative, SanitizedLocalPath};

#[test]
fn archive_path_parses_and_renders() {
    let p = ArchivePath::parse("ar:/my_files/a/b.txt").unwrap();
    assert_eq!(p.len(), 3);
    assert_eq!(p.segment(0), "my_files");
    assert_eq!(p.segment(2), "b.txt");
    assert_eq!(p.to_text(), "ar:/my_files/a/b.txt");
}

#[test]
fn archive_path_rejects_bad_text() {
    for bad in ["", "ar:", "ar:/", "ar://a", "ar:/a/", "ar:/a/../b", "ar:/./b", "x:/a", "ar:/a\\b", "ar:/a\0"] {
        assert_eq!(ArchivePath::parse(bad).unwrap_err(), PathError::InvalidArchivePath, "{bad:?}");
    }
}

#[test]
fn archive_path_parent_join_and_prefix() {
    let root = ArchivePath::parse("ar:/my_files").unwrap();
    assert!(root.parent().is_none());
    let child = root.join_segment("a").unwrap();
    assert_eq!(child.to_text(), "ar:/my_files/a");
    assert_eq!(child.parent().unwrap().to_text(), "ar:/my_files");
    assert!(child.starts_with(&root));
    assert!(child.starts_with(&child));
    assert!(!root.starts_with(&child));
    assert_eq!(root.join_segment("..").unwrap_err(), PathError::InvalidSegment);
    assert_eq!(root.join_segment("a/b").unwrap_err(), PathError::InvalidSegment);
    let deep = ArchivePath::parse("ar:/my_files/a/b").unwrap();
    assert_eq!(deep.strip_prefix(&root).unwrap(), vec!["a".to_string(), "b".to_string()]);
    let other = ArchivePath::parse("ar:/other").unwrap();
    assert!(deep.strip_prefix(&other).is_none());
    let joined = root.join_relative(&vec!["x".to_string(), "y".to_string()]).unwrap();
    assert_eq!(joined.to_text(), "ar:/my_files/x/y");
    assert_eq!(root.join_relative(&vec!["".to_string()]).unwrap_err(), PathError::InvalidSegment);
}

#[test]
fn split_keeps_empty_pieces() {
    assert_eq!(split_at_slashes("a//b/"), vec!["a", "", "b", ""]);
    assert_eq!(split_at_slashes(""), vec![""]);
}

#[test]
fn local_path_validation() {
    assert!(SanitizedLocalPath::new("/home/u/docs").is_ok());
    assert_eq!(SanitizedLocalPath::new("").unwrap_err(), PathError::InvalidLocalPath);
    assert_eq!(SanitizedLocalPath::new("home/u").unwrap_err(), PathError::InvalidLocalPath);
    assert_eq!(SanitizedLocalPath::new("/home/\0u").unwrap_err(), PathError::InvalidLocalPath);
}

#[test]
fn local_path_relative_and_name() {
    let root = SanitizedLocalPath::new("/home/u/docs").unwrap();
    let file = SanitizedLocalPath::new("/home/u/docs/sub/report.pdf").unwrap();
    assert_eq!(file.file_name(), "report.pdf");
    assert_eq!(file.relative_to(&root).unwrap(), vec!["sub".to_string(), "report.pdf".to_string()]);
    assert!(root.relative_to(&root).unwrap().is_empty());
    let sibling = SanitizedLocalPath::new("/home/u/docs2/x").unwrap();
    assert_eq!(sibling.relative_to(&root).unwrap_err(), PathError::NotDescendant);
    let fs_root = SanitizedLocalPath::new("/").unwrap();
    assert_eq!(file.relative_to(&fs_root).unwrap().len(), 5);
}

#[test]
fn native_segments_to_archive() {
    let ok = vec!["a".to_string(), "b c".to_string()];
    assert_eq!(native_to_archive_relative(&ok).unwrap(), ok);
    for bad in [".", "..", "", "a/b"] {
        let v = vec!["a".to_string(), bad.to_string()];
        assert_eq!(native_to_archive_relative(&v).unwrap_err(), PathError::InvalidSegment);
    }
}
