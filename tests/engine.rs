use snapkeep::snapshot::{
    queue_config, recover_snapshots, DirEntryInfo, RootState, SnapengineError, SnapshotEngine,
    DEF_SNAPSHOT_COUNT, INVALID_NAME, UNRECOGNIZED_ENTRY,
};

fn dir(name: &str) -> Result<DirEntryInfo, String> {
    Ok(DirEntryInfo { name: Some(name.to_string()), is_dir: true })
}

fn file(name: &str) -> Result<DirEntryInfo, String> {
    Ok(DirEntryInfo { name: Some(name.to_string()), is_dir: false })
}

#[test]
fn zero_retention_means_unbounded_with_default_capacity() {
    assert_eq!(queue_config(0), (DEF_SNAPSHOT_COUNT, true));
    assert_eq!(queue_config(0), (12, true));
    assert_eq!(queue_config(5), (5, false));
}

#[test]
fn fresh_root_gives_empty_engine() {
    let e = SnapshotEngine::new(4, (), RootState::Created).unwrap();
    assert_eq!(e.queue().len(), 0);
}

#[test]
fn recovery_rejects_foreign_files() {
    let listing = vec![dir("20210601-120000"), file("notes.txt"), dir("20210601-140000")];
    match SnapshotEngine::new(4, (), RootState::Listed(listing)) {
        Err(SnapengineError::EngineError(m)) => assert_eq!(m, UNRECOGNIZED_ENTRY),
        _ => panic!("a regular file in the snapshot root must stop the engine"),
    }
}

#[test]
fn recovery_rejects_malformed_names() {
    let listing = vec![dir("not-a-timestamp")];
    match SnapshotEngine::new(4, (), RootState::Listed(listing)) {
        Err(SnapengineError::EngineError(m)) => assert_eq!(m, INVALID_NAME),
        _ => panic!("a malformed name must stop the engine"),
    }
}

#[test]
fn recovery_rejects_names_that_are_not_text() {
    let listing = vec![dir("20210601-120000"), Ok(DirEntryInfo { name: None, is_dir: true })];
    assert!(matches!(
        recover_snapshots(listing),
        Err(SnapengineError::EngineError(m)) if m == INVALID_NAME
    ));
}

#[test]
fn recovery_accepts_valid_prior_state() {
    let listing = vec![dir("20210601-120000"), dir("20210601-140000")];
    let e = SnapshotEngine::new(4, (), RootState::Listed(listing)).unwrap();
    let expected = snapkeep::queue::Queue::init_pre(
        (4, false),
        vec!["20210601-120000".to_string(), "20210601-140000".to_string()],
    );
    assert!(*e.queue() == expected);
}

#[test]
fn recovered_queue_evicts_oldest_recovered_first() {
    let listing = vec![dir("20210601-120000"), dir("20210601-140000")];
    let mut e = SnapshotEngine::new(2, (), RootState::Listed(listing)).unwrap();
    let (name, evicted) = e.register_snapshot("20210601-160000".to_string());
    assert_eq!(name, "20210601-160000");
    assert_eq!(evicted, Some("20210601-120000".to_string()));
}

#[test]
fn empty_listing_gives_empty_engine() {
    let e = SnapshotEngine::new(0, (), RootState::Listed(vec![])).unwrap();
    assert_eq!(e.queue().len(), 0);
}

#[test]
fn listing_error_is_an_io_error() {
    let listing = vec![dir("20210601-120000"), Err("permission denied".to_string())];
    match SnapshotEngine::new(4, (), RootState::Listed(listing)) {
        Err(SnapengineError::IoError(m)) => assert_eq!(m, "permission denied"),
        _ => panic!("expected an I/O error"),
    }
}

#[test]
fn first_bad_entry_decides_the_error() {
    let listing = vec![file("x"), Err("later".to_string())];
    assert!(matches!(recover_snapshots(listing), Err(SnapengineError::EngineError(_))));
    let listing = vec![Err("first".to_string()), file("x")];
    assert!(matches!(recover_snapshots(listing), Err(SnapengineError::IoError(m)) if m == "first"));
}

#[test]
fn failed_root_creation_is_an_io_error() {
    match SnapshotEngine::new(4, 7u8, RootState::Failed("read-only file system".to_string())) {
        Err(SnapengineError::IoError(m)) => assert_eq!(m, "read-only file system"),
        _ => panic!("expected an I/O error"),
    }
}

#[test]
fn engine_keeps_its_store_handle() {
    let e = SnapshotEngine::new(4, 42u32, RootState::Created).unwrap();
    assert_eq!(*e.handle(), 42);
}

#[test]
fn error_messages() {
    let e = SnapengineError::EngineError(UNRECOGNIZED_ENTRY);
    assert_eq!(
        e.message(),
        "Snapshot engine errorThe snapshot directory contains unrecognized files/directories"
    );
    let e = SnapengineError::IoError("disk full".to_string());
    assert_eq!(e.message(), "Snapshot engine IOError:disk full");
}

#[test]
fn nonblocking_section_names_and_records_a_snapshot() {
    let mut e = SnapshotEngine::new(1, (), RootState::Listed(vec![dir("20000101-000000")])).unwrap();
    let (name, evicted) = e._mksnap_nonblocking_section();
    assert!(!name.is_empty());
    assert_eq!(evicted, Some("20000101-000000".to_string()));
    assert_eq!(e.queue().len(), 1);
}
