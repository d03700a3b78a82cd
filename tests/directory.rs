use ramdir::blob::Blob;
use ramdir::directory::{DirEntry, RamDirectory};
use ramdir::error::{DiskRead, OpenReadError, WriteError};
use ramdir::lock::{Lock, LockAttempt, LockError};

fn file(name: &str, bytes: &[u8]) -> DirEntry {
    DirEntry::File { name: name.to_string(), bytes: bytes.to_vec() }
}

fn io_error() -> std::io::Error {
    std::io::Error::new(std::io::ErrorKind::PermissionDenied, "denied")
}

#[test]
fn test_ro_ram_directory() {
    let mut ram_dir = RamDirectory::preload("/index".to_string(), vec![file("test.txt", b"hello world")]);
    let file_slice = ram_dir.open_read("test.txt", DiskRead::NotFound).unwrap();
    assert_eq!(file_slice.as_slice(), b"hello world");
    assert!(ram_dir.file_exists("test.txt"));
}

#[test]
fn missing_file_is_not_there() {
    let mut dir = RamDirectory::preload("/index".to_string(), vec![file("test.txt", b"hello world")]);
    assert!(!dir.file_exists("missing.txt"));
    match dir.open_read("missing.txt", DiskRead::NotFound) {
        Err(OpenReadError::FileDoesNotExist(p)) => assert_eq!(p, "missing.txt"),
        other => panic!("unexpected {:?}", other),
    }
    assert!(!dir.file_exists("missing.txt"));
}

#[test]
fn writes_are_unsupported() {
    let dir = RamDirectory::lazy("/index".to_string());
    assert_eq!(dir.open_write("a"), Err(WriteError::Unsupported));
    assert_eq!(dir.atomic_write("a", b"x"), Err(WriteError::Unsupported));
}

#[test]
fn preload_skips_other_entries() {
    let entries = vec![
        file("a", b"1"),
        DirEntry::Other { name: "sub".to_string() },
        file("b", b"22"),
    ];
    let dir = RamDirectory::preload("/r".to_string(), entries);
    assert!(dir.file_exists("a"));
    assert!(dir.file_exists("b"));
    assert!(!dir.file_exists("sub"));
    assert_eq!(dir.lookup("b").unwrap().to_vec(), b"22".to_vec());
    assert_eq!(dir.root_path(), "/r");
}

#[test]
fn preload_later_entry_wins() {
    let dir = RamDirectory::preload("/r".to_string(), vec![file("a", b"old"), file("a", b"new")]);
    assert_eq!(dir.lookup("a").unwrap().as_slice(), b"new");
}

#[test]
fn preload_of_nothing_is_empty() {
    let dir = RamDirectory::preload("/r".to_string(), Vec::new());
    assert!(!dir.file_exists(""));
    assert!(dir.lookup("a").is_none());
}

#[test]
fn lazy_read_populates_cache() {
    let mut dir = RamDirectory::lazy("/r".to_string());
    assert!(!dir.file_exists("seg"));
    let b = dir.open_read("seg", DiskRead::Bytes(b"abc".to_vec())).unwrap();
    assert_eq!(b.as_slice(), b"abc");
    assert_eq!(b.len(), 3);
    assert!(dir.file_exists("seg"));
    assert!(!dir.file_exists("other"));
    // A cached path is served from the cache, whatever the disk says now.
    let again = dir.open_read("seg", DiskRead::Bytes(b"zzz".to_vec())).unwrap();
    assert_eq!(again.as_slice(), b"abc");
}

#[test]
fn failed_read_reports_io_error_and_caches_nothing() {
    let mut dir = RamDirectory::lazy("/r".to_string());
    match dir.open_read("seg", DiskRead::Failed(io_error())) {
        Err(OpenReadError::IoError { filepath, io_error }) => {
            assert_eq!(filepath, "seg");
            assert_eq!(io_error.kind(), std::io::ErrorKind::PermissionDenied);
        }
        other => panic!("unexpected {:?}", other),
    }
    assert!(!dir.file_exists("seg"));
}

#[test]
fn delete_evicts_and_is_idempotent() {
    let mut dir = RamDirectory::preload("/r".to_string(), vec![file("a", b"1"), file("b", b"2")]);
    dir.delete("a");
    assert!(!dir.file_exists("a"));
    assert!(dir.file_exists("b"));
    dir.delete("a");
    dir.delete("never");
    assert!(!dir.file_exists("a"));
    assert_eq!(dir.lookup("b").unwrap().as_slice(), b"2");
    // After eviction the next read goes to the backing store again.
    let b = dir.open_read("a", DiskRead::Bytes(b"fresh".to_vec())).unwrap();
    assert_eq!(b.as_slice(), b"fresh");
}

#[test]
fn atomic_read_bypasses_cache() {
    let dir = RamDirectory::preload("/r".to_string(), vec![file("meta.json", b"old")]);
    let bytes = dir.atomic_read("meta.json", DiskRead::Bytes(b"new".to_vec())).unwrap();
    assert_eq!(bytes, b"new".to_vec());
    match dir.atomic_read("meta.json", DiskRead::NotFound) {
        Err(OpenReadError::FileDoesNotExist(p)) => assert_eq!(p, "meta.json"),
        other => panic!("unexpected {:?}", other),
    }
    match dir.atomic_read("x", DiskRead::Failed(io_error())) {
        Err(OpenReadError::IoError { filepath, .. }) => assert_eq!(filepath, "x"),
        other => panic!("unexpected {:?}", other),
    }
    assert_eq!(dir.lookup("meta.json").unwrap().as_slice(), b"old");
}

#[test]
fn blob_share_keeps_contents() {
    let b = Blob::from_vec(vec![1, 2, 3]);
    let c = b.share();
    assert_eq!(c.as_slice(), &[1, 2, 3]);
    assert_eq!(b.to_vec(), vec![1, 2, 3]);
}

#[test]
fn lock_attempt_results() {
    let lock = Lock { filepath: ".lock".to_string(), is_blocking: false };
    assert!(lock.attempt_result(LockAttempt::Acquired).is_ok());
    assert!(matches!(lock.attempt_result(LockAttempt::Contended), Err(LockError::LockBusy)));
    match lock.attempt_result(LockAttempt::Failed(io_error())) {
        Err(LockError::IoError(e)) => assert_eq!(e.kind(), std::io::ErrorKind::PermissionDenied),
        other => panic!("unexpected {:?}", other),
    }
    let blocking = Lock { filepath: ".lock".to_string(), is_blocking: true };
    assert!(blocking.attempt_result(LockAttempt::Acquired).is_ok());
    assert!(matches!(LockError::wrap_io_error(io_error()), LockError::IoError(_)));
}
