use lsai::DirectoryEntry;
use lsai::EntryKind;
use lsai::FilesystemError;
use lsai::make_entry;

fn file(name: &str, size: u64) -> DirectoryEntry {
    make_entry(name.to_string(), false, Some(size), None)
}

#[test]
fn extension_after_last_dot() {
    let e = file("archive.tar.gz", 1);
    assert_eq!(e.extension, Some("gz".to_string()));
    assert_eq!(e.kind, EntryKind::File);
    assert!(!e.is_hidden);
    assert_eq!(e.size_bytes, Some(1));
}

#[test]
fn leading_dot_name_has_no_extension() {
    let e = file(".env", 0);
    assert_eq!(e.extension, None);
    assert!(e.is_hidden);
}

#[test]
fn leading_dot_with_second_dot_has_extension() {
    let e = file(".env.local", 3);
    assert_eq!(e.extension, Some("local".to_string()));
    assert!(e.is_hidden);
}

#[test]
fn trailing_dot_yields_empty_extension() {
    let e = file("foo.", 2);
    assert_eq!(e.extension, Some("".to_string()));
}

#[test]
fn plain_name_has_no_extension() {
    let e = file("Makefile", 4);
    assert_eq!(e.extension, None);
    assert!(!e.is_hidden);
}

#[test]
fn directory_gets_neither_size_nor_extension() {
    let e = make_entry(".github".to_string(), true, Some(4096), Some(77));
    assert_eq!(e.kind, EntryKind::Directory);
    assert_eq!(e.extension, None);
    assert_eq!(e.size_bytes, None);
    assert_eq!(e.modified_at, Some(77));
    assert!(e.is_hidden);
}

#[test]
fn extension_keeps_original_case() {
    let e = file("NOTES.TXT", 9);
    assert_eq!(e.extension, Some("TXT".to_string()));
}

#[test]
fn filesystem_error_carries_its_message() {
    let err = FilesystemError::new("permission denied: /root/secret".to_string());
    assert_eq!(err.describe(), "permission denied: /root/secret".to_string());
    assert_eq!(err.message, "permission denied: /root/secret".to_string());
}
