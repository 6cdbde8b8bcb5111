use vstd::prelude::*;
use crate::errors::{MySQLError, MySQLResult};
use crate::mem::{top_visible, visible_at, MemStorage, MemTransaction, OpView, TransactionOptions};

verus! {

/// The one contract the table engine sees over every transaction mode:
/// reads and writes against a logical key-value view, a flag saying
/// whether uniqueness was pre-checked by the mode, and a commit. The
/// backend state is threaded explicitly: it stands for the shared store
/// the original reaches through a handle.
pub trait TransactionContext: Sized {
    /// The mode's internal invariant.
    spec fn inv(&self) -> bool;

    /// `true` means the mode takes responsibility for uniqueness at
    /// commit; `false` asks the engine to probe before an insert.
    spec fn pre_checked(&self) -> bool;

    /// The value a read of `key` returns against `storage`.
    spec fn kv_view(&self, storage: MemStorage, key: Seq<u8>) -> Option<Seq<u8>>;

    /// Report whether constraints are pre-checked; consulted before an
    /// insert.
    fn check_constants(&mut self, storage: &mut MemStorage, key: &[u8]) -> (r: MySQLResult<bool>)
        requires
            old(self).inv(),
            old(storage).wf(),
        ensures
            *final(self) == *old(self),
            *final(storage) == *old(storage),
            r matches Ok(b) && b == old(self).pre_checked(),
    ;

    /// Make `key` read as `value` from now on in this context.
    fn write(&mut self, storage: &mut MemStorage, key: &[u8], value: &[u8]) -> (r: MySQLResult<()>)
        requires
            old(self).inv(),
            old(storage).wf(),
        ensures
            r is Ok,
            final(self).inv(),
            final(storage).wf(),
            final(self).pre_checked() == old(self).pre_checked(),
            final(storage).last_commit_ts == old(storage).last_commit_ts,
            forall|k: Seq<u8>|
                final(self).kv_view(*final(storage), k) == if k == key@ {
                    Some(value@)
                } else {
                    old(self).kv_view(*old(storage), k)
                },
    ;

    /// Make the writes of this context durable. The view this context
    /// reads is unchanged.
    fn commit(&mut self, storage: &mut MemStorage) -> (r: MySQLResult<()>)
        requires
            old(self).inv(),
            old(storage).wf(),
        ensures
            r is Ok,
            final(self).inv(),
            final(storage).wf(),
            final(self).pre_checked() == old(self).pre_checked(),
            final(storage).last_commit_ts == old(storage).last_commit_ts,
            forall|k: Seq<u8>|
                final(self).kv_view(*final(storage), k) == old(self).kv_view(*old(storage), k),
    ;

    /// Read a key through this context's view.
    fn get(&mut self, storage: &mut MemStorage, key: &[u8]) -> (r: MySQLResult<Option<Vec<u8>>>)
        requires
            old(self).inv(),
            old(storage).wf(),
        ensures
            *final(self) == *old(self),
            *final(storage) == *old(storage),
            match r {
                Ok(v) => match v {
                    Some(b) => old(self).kv_view(*old(storage), key@) == Some(b@),
                    None => old(self).kv_view(*old(storage), key@) is None,
                },
                Err(_) => false,
            },
    ;
}

/// Auto-commit: every write opens a fresh transaction, puts, and commits
/// at once; reads are plain snapshot reads. Uniqueness is not
/// pre-checked, so the engine probes before an insert.
pub struct AutoCommitContext {}

impl AutoCommitContext {
    pub fn new() -> (r: AutoCommitContext)
        ensures
            r.inv(),
    {
        AutoCommitContext {  }
    }
}

impl TransactionContext for AutoCommitContext {
    open spec fn inv(&self) -> bool {
        true
    }

    open spec fn pre_checked(&self) -> bool {
        false
    }

    open spec fn kv_view(&self, storage: MemStorage, key: Seq<u8>) -> Option<Seq<u8>> {
        top_visible(storage.stack(key))
    }

    fn check_constants(&mut self, storage: &mut MemStorage, _key: &[u8]) -> (r: MySQLResult<bool>) {
        Ok(false)
    }

    fn write(&mut self, storage: &mut MemStorage, key: &[u8], value: &[u8]) -> (r: MySQLResult<
        (),
    >) {
        let opts = TransactionOptions { pessimistic: false, no_timestamp: false };
        let mut txn = storage.new_transaction(&opts);
        txn.put(key, value)?;
        txn.commit(storage)
    }

    fn commit(&mut self, storage: &mut MemStorage) -> (r: MySQLResult<()>) {
        Ok(())
    }

    fn get(&mut self, storage: &mut MemStorage, key: &[u8]) -> (r: MySQLResult<Option<Vec<u8>>>) {
        storage.get(key)
    }
}

/// An open transaction: writes stage into its cache and become visible
/// to its own reads at once; commit appends them to the shared store.
/// Uniqueness is reported as pre-checked, deferring conflicts to commit.
pub struct OptimisticTransactionContext {
    pub txn: MemTransaction,
}

impl OptimisticTransactionContext {
    pub fn new(txn: MemTransaction) -> (r: OptimisticTransactionContext)
        requires
            txn.wf(),
        ensures
            r.inv(),
            r.txn == txn,
    {
        OptimisticTransactionContext { txn }
    }

    /// Hand the underlying transaction back, for a session to keep.
    pub fn take_transaction(self) -> (r: MemTransaction)
        ensures
            r == self.txn,
    {
        self.txn
    }
}

impl TransactionContext for OptimisticTransactionContext {
    open spec fn inv(&self) -> bool {
        self.txn.wf()
    }

    open spec fn pre_checked(&self) -> bool {
        true
    }

    open spec fn kv_view(&self, storage: MemStorage, key: Seq<u8>) -> Option<Seq<u8>> {
        match self.txn.cache_get(key) {
            Some(OpView::Put(b, _)) => Some(b),
            Some(OpView::Delete(_)) => None,
            None => visible_at(storage.stack(key), self.txn.start_ts),
        }
    }

    fn check_constants(&mut self, storage: &mut MemStorage, _key: &[u8]) -> (r: MySQLResult<bool>) {
        Ok(true)
    }

    fn write(&mut self, storage: &mut MemStorage, key: &[u8], value: &[u8]) -> (r: MySQLResult<
        (),
    >) {
        self.txn.put(key, value)
    }

    fn commit(&mut self, storage: &mut MemStorage) -> (r: MySQLResult<()>) {
        self.txn.commit(storage)
    }

    fn get(&mut self, storage: &mut MemStorage, key: &[u8]) -> (r: MySQLResult<Option<Vec<u8>>>) {
        self.txn.get(storage, key)
    }
}

} // verus!
