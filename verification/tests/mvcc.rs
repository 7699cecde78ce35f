use plinth::mvcc::{Change, Delete, RecordId, StableVersion, MVCC};

#[test]
fn fresh_store_has_version_zero_stable() {
    let mvcc = MVCC::new();
    assert_eq!(mvcc.stable_version().get(), 0);
    let txn = mvcc.begin_transaction();
    assert_eq!(txn.snapshot_version(), StableVersion::new(0));
    assert!(txn.commit_version().is_none());
}

#[test]
fn commits_publish_consecutive_versions() {
    let mut mvcc = MVCC::new();
    let first = mvcc.begin_transaction().commit(&mut mvcc).ok().unwrap();
    let second = mvcc.begin_transaction().commit(&mut mvcc).ok().unwrap();
    assert_eq!(first.commit_version(), Some(StableVersion::new(1)));
    assert_eq!(second.commit_version(), Some(StableVersion::new(2)));
    assert_eq!(second.snapshot_version(), StableVersion::new(1));
    assert_eq!(mvcc.stable_version().get(), 2);
}

#[test]
fn transaction_reads_the_version_stable_when_it_began() {
    let mut mvcc = MVCC::new();
    let early = mvcc.begin_transaction();
    mvcc.begin_transaction().commit(&mut mvcc).ok().unwrap();
    let late = mvcc.begin_transaction();
    assert_eq!(early.snapshot_version().get(), 0);
    assert_eq!(late.snapshot_version().get(), 1);
    let committed = early.commit(&mut mvcc).ok().unwrap();
    assert_eq!(committed.snapshot_version().get(), 0);
    assert_eq!(committed.commit_version().unwrap().get(), 2);
}

#[test]
fn added_changes_are_kept_by_the_transaction() {
    let mvcc = MVCC::new();
    let mut txn = mvcc.begin_transaction();
    txn.add(Change::Delete(Delete { record_id: RecordId(7) }));
    assert_eq!(txn.snapshot_version().get(), 0);
    assert!(txn.commit_version().is_none());
}
