//! Multi-version concurrency control: transactions read from the last
//! published version and commit by publishing the next one.
use std::marker::PhantomData;
use vstd::prelude::*;

verus! {

/// A committed version: every commit publishes the next one.
#[derive(Debug, Clone, Copy, PartialEq, Eq, Structural)]
pub struct StableVersion(u64);

impl StableVersion {
    pub closed spec fn spec_get(&self) -> u64 {
        self.0
    }

    pub fn new(version: u64) -> (r: Self)
        ensures
            r.get() == version,
    {
        StableVersion(version)
    }

    #[verifier::when_used_as_spec(spec_get)]
    pub fn get(&self) -> (r: u64)
        ensures
            r == self.spec_get(),
    {
        self.0
    }
}

/// The identifier of a record that a change is about.
#[derive(Debug, Clone, Copy, PartialEq, Eq, Structural)]
pub struct RecordId(pub u64);

/// A record to be inserted.
#[derive(Debug)]
pub struct Insert {
    pub record_id: RecordId,
}

/// A record to be deleted.
#[derive(Debug)]
pub struct Delete {
    pub record_id: RecordId,
}

/// A record to be replaced: its deletion followed by its insertion.
#[derive(Debug)]
pub struct Update {
    pub record_id: RecordId,
}

/// A change that a transaction prepares and its commit publishes.
#[derive(Debug)]
pub enum Change {
    Insert(Insert),
    Delete(Delete),
    Update(Update),
}

/// A commit could not publish its changes.
#[derive(Debug)]
pub struct CommitError;

/// The version clock of a store.
///
/// `stable_version` is the highest fully published commit version; a
/// transaction reads from the version that was stable when it began, and a
/// commit publishes the version after the stable one, then makes it stable.
pub struct MVCC {
    stable_version: u64,
    /// The identity of the store: a transaction carries the identity of the
    /// store it began on, and only that store commits it. A caller learns a
    /// store's identity only through the transactions it begins, so no two
    /// stores are known to share one.
    store: Ghost<int>,
}

impl MVCC {
    /// The highest fully published commit version.
    pub closed spec fn spec_stable(&self) -> u64 {
        self.stable_version
    }

    /// The identity of the store.
    pub closed spec fn spec_store(&self) -> int {
        self.store@
    }

    /// A store where nothing has been committed: version 0 is stable.
    pub fn new() -> (r: Self)
        ensures
            r.spec_stable() == 0,
    {
        MVCC { stable_version: 0, store: Ghost(arbitrary()) }
    }

    /// The highest fully published commit version.
    pub fn stable_version(&self) -> (r: StableVersion)
        ensures
            r.get() == self.spec_stable(),
    {
        StableVersion::new(self.stable_version)
    }

    /// Starts a transaction that reads from the currently stable version.
    pub fn begin_transaction(&self) -> (r: Transaction<Active>)
        ensures
            r.spec_store() == self.spec_store(),
            r.spec_snapshot().get() == self.spec_stable(),
            r.spec_changes().len() == 0,
            r.spec_commit_version() is None,
    {
        let snapshot_version = StableVersion::new(self.stable_version);
        Transaction::new(snapshot_version, Ghost(self.store@))
    }

    /// Publishes `changes` as the version after the stable one, then makes
    /// that version stable and returns it.
    ///
    /// No kind of change has a publication step yet, so only a commit of no
    /// changes can complete.
    fn commit(&mut self, changes: &Vec<Change>) -> (r: Result<StableVersion, CommitError>)
        requires
            old(self).spec_stable() < u64::MAX,
            changes@.len() == 0,
        ensures
            r matches Ok(v) && v.get() == old(self).spec_stable() + 1,
            final(self).spec_stable() == old(self).spec_stable() + 1,
            final(self).spec_store() == old(self).spec_store(),
    {
        let commit_version = StableVersion::new(self.stable_version + 1);
        self.stable_version = commit_version.get();
        Ok(commit_version)
    }
}

/// A transaction that is still preparing changes.
pub struct Active;

/// A transaction whose changes were published.
pub struct Committed;

/// A transaction whose changes were discarded.
pub struct RolledBack;

/// A transaction in state `Kind`.
pub struct Transaction<Kind> {
    /// The committed version this transaction reads from.
    snapshot_version: StableVersion,
    /// Changes prepared by this transaction; they have no commit version yet.
    changes: Vec<Change>,
    /// Set only after the transaction successfully commits.
    commit_version: Option<StableVersion>,
    /// The identity of the store the transaction began on.
    store: Ghost<int>,
    kind: PhantomData<Kind>,
}

impl<Kind> Transaction<Kind> {
    /// The identity of the store the transaction began on.
    pub closed spec fn spec_store(&self) -> int {
        self.store@
    }

    pub closed spec fn spec_snapshot(&self) -> StableVersion {
        self.snapshot_version
    }

    pub closed spec fn spec_changes(&self) -> Seq<Change> {
        self.changes@
    }

    pub closed spec fn spec_commit_version(&self) -> Option<StableVersion> {
        self.commit_version
    }

    /// The committed version this transaction reads from.
    pub fn snapshot_version(&self) -> (r: StableVersion)
        ensures
            r == self.spec_snapshot(),
    {
        self.snapshot_version
    }

    /// The version this transaction's commit published, if it committed.
    pub fn commit_version(&self) -> (r: Option<StableVersion>)
        ensures
            r == self.spec_commit_version(),
    {
        self.commit_version
    }
}

impl Transaction<Active> {
    fn new(snapshot_version: StableVersion, store: Ghost<int>) -> (r: Self)
        ensures
            r.spec_store() == store@,
            r.spec_snapshot() == snapshot_version,
            r.spec_changes().len() == 0,
            r.spec_commit_version() is None,
    {
        Transaction {
            snapshot_version,
            changes: Vec::new(),
            commit_version: None,
            store,
            kind: PhantomData,
        }
    }

    /// Adds `change` to the changes this transaction will publish.
    pub fn add(&mut self, change: Change)
        ensures
            final(self).spec_changes() == old(self).spec_changes().push(change),
            final(self).spec_store() == old(self).spec_store(),
            final(self).spec_snapshot() == old(self).spec_snapshot(),
            final(self).spec_commit_version() == old(self).spec_commit_version(),
    {
        self.changes.push(change);
    }

    /// Publishes this transaction's changes through `mvcc`, the store it
    /// began on, as that store's next version, which becomes stable; the
    /// committed transaction keeps its store, snapshot and changes and records
    /// that version.
    pub fn commit(self, mvcc: &mut MVCC) -> (r: Result<Transaction<Committed>, CommitError>)
        requires
            self.spec_store() == old(mvcc).spec_store(),
            old(mvcc).spec_stable() < u64::MAX,
            self.spec_changes().len() == 0,
        ensures
            final(mvcc).spec_stable() == old(mvcc).spec_stable() + 1,
            final(mvcc).spec_store() == old(mvcc).spec_store(),
            r matches Ok(t) && {
                &&& t.spec_store() == self.spec_store()
                &&& t.spec_snapshot() == self.spec_snapshot()
                &&& t.spec_changes() == self.spec_changes()
                &&& t.spec_commit_version() matches Some(v) && v.get() == final(mvcc).spec_stable()
            },
            self.spec_snapshot().get() <= old(mvcc).spec_stable() ==> self.spec_snapshot().get()
                < final(mvcc).spec_stable(),
    {
        let stable_version = match mvcc.commit(&self.changes) {
            Ok(v) => v,
            Err(e) => {
                return Err(e);
            },
        };
        Ok(Transaction {
            snapshot_version: self.snapshot_version,
            changes: self.changes,
            commit_version: Some(stable_version),
            store: self.store,
            kind: PhantomData,
        })
    }
}

} // verus!
