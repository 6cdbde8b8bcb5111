use vstd::prelude::*;
use crate::errors::{MySQLError, MySQLResult};
use crate::mem::MemTransaction;
use crate::schema::TableInfo;
use crate::table::{table_wf, TableSource};
use crate::table_manager::{lookup_meta, DBTableManager};

verus! {

/// One connection's state: its cache of published table sources, the
/// current database name, and the transaction it keeps open across
/// statements, if any.
#[derive(Debug)]
pub struct Session {
    pub cache: Vec<TableSource>,
    pub db: String,
    pub transaction: Option<MemTransaction>,
    pub is_in_txn: bool,
}

impl Session {
    /// Every cached copy that still carries the catalog's current
    /// revision for its name agrees with the catalog. Staler copies are
    /// detected by the revision check and refreshed.
    pub open spec fn cache_ok(&self, mgr: &DBTableManager) -> bool {
        forall|i: int|
            0 <= i < self.cache@.len() ==> match lookup_meta(
                *mgr,
                (#[trigger] self.cache@[i]).meta@.name,
            ) {
                Some(e) => self.cache@[i].revision == e.1 ==> self.cache@[i].meta@ == e.0
                    && self.cache@[i].id == e.2 && self.cache@[i].wf(),
                None => true,
            }
    }

    pub open spec fn wf_txn(&self) -> bool {
        match self.transaction {
            Some(t) => t.wf(),
            None => true,
        }
    }

    pub fn new() -> (r: Session)
        ensures
            r.cache@.len() == 0,
            r.db@ == Seq::<char>::empty(),
            r.transaction is None,
            r.wf_txn(),
    {
        Session { cache: Vec::new(), db: String::new(), transaction: None, is_in_txn: false }
    }

    /// Hand out the kept transaction, if any.
    pub fn take_transaction(&mut self) -> (r: Option<MemTransaction>)
        requires
            old(self).wf_txn(),
        ensures
            final(self).transaction is None,
            r == old(self).transaction,
            final(self).cache@ == old(self).cache@,
            final(self).db == old(self).db,
            r matches Some(t) ==> t.wf(),
    {
        self.transaction.take()
    }

    /// Keep a transaction open across statements.
    pub fn set_transaction(&mut self, txn: MemTransaction)
        requires
            txn.wf(),
        ensures
            final(self).transaction == Some(txn),
            final(self).wf_txn(),
            final(self).cache@ == old(self).cache@,
            final(self).db == old(self).db,
    {
        self.transaction = Some(txn);
    }

    /// Fetch a table source, through the cache: a cached copy is used
    /// only while its revision is still the catalog's current one.
    pub fn get_table(&mut self, mgr: &DBTableManager, name: &String) -> (r: Option<TableSource>)
        requires
            mgr.wf(),
            old(self).cache_ok(mgr),
        ensures
            final(self).cache_ok(mgr),
            final(self).db == old(self).db,
            final(self).transaction == old(self).transaction,
            match r {
                Some(t) => lookup_meta(*mgr, name@) matches Some(e) && t.meta@ == e.0 && t.wf(),
                None => lookup_meta(*mgr, name@) is None,
            },
    {
        let n = self.cache.len();
        let mut i: usize = 0;
        while i < n
            invariant
                i <= n,
                n == self.cache@.len(),
                mgr.wf(),
                self.cache_ok(mgr),
            decreases n - i,
        {
            if crate::schema::string_eq(&self.cache[i].meta.name, name) {
                // Check validity: the catalog must still publish the same
                // revision for this name.
                match mgr.get_table(&self.cache[i].meta.name) {
                    Some(cur) => {
                        if cur.revision == self.cache[i].revision {
                            let t = self.cache[i].clone();
                            proof {
                                assert(self.cache@[i as int].meta@.name == name@);
                            }
                            return Some(t);
                        }
                    },
                    None => {},
                }
                break ;
            }
            i += 1;
        }
        // Miss or stale: refresh from the catalog.
        match mgr.get_table(name) {
            Some(t) => {
                let c = t.clone();
                self.cache.push(c);
                proof {
                    assert forall|j: int|
                        0 <= j < self.cache@.len() implies match lookup_meta(
                        *mgr,
                        (#[trigger] self.cache@[j]).meta@.name,
                    ) {
                        Some(e) => self.cache@[j].revision == e.1 ==> self.cache@[j].meta@ == e.0
                            && self.cache@[j].id == e.2 && self.cache@[j].wf(),
                        None => true,
                    } by {
                        if j < self.cache@.len() - 1 {
                            assert(old(self).cache@[j] == self.cache@[j]);
                        } else {
                            assert(self.cache@[j].meta@.name == name@);
                            assert(self.cache@[j].wf());
                        }
                    }
                }
                Some(t)
            },
            None => None,
        }
    }

    /// Create and publish a table, and cache the new source.
    pub fn add_table(&mut self, mgr: &mut DBTableManager, name: &String, table_info: TableInfo)
        -> (r: MySQLResult<TableSource>)
        requires
            old(mgr).wf(),
            old(self).cache_ok(old(mgr)),
            table_wf(table_info@),
            table_info@.name == name@,
        ensures
            final(mgr).wf(),
            match r {
                Ok(t) => {
                    &&& t.wf()
                    &&& t.meta@.name == name@
                    &&& t.meta@.columns == table_info@.columns
                    &&& t.meta@.indices == table_info@.indices
                    &&& lookup_meta(*final(mgr), name@) matches Some(e) && e.0 == t.meta@
                    &&& forall|n2: Seq<char>|
                        n2 != name@ ==> lookup_meta(*final(mgr), n2) == lookup_meta(*old(mgr), n2)
                },
                Err(_) => false,
            },
            final(self).cache_ok(final(mgr)),
            final(self).db == old(self).db,
            final(self).transaction == old(self).transaction,
    {
        let t = mgr.add_table(name, table_info)?;
        // Drop cached copies: the revision check would reject them anyway.
        self.cache.clear();
        Ok(t)
    }

    /// Replace a table's published source and cache the new one.
    pub fn replace_table(&mut self, mgr: &mut DBTableManager, name: &String, table_info: TableInfo)
        -> (r: MySQLResult<TableSource>)
        requires
            old(mgr).wf(),
            old(self).cache_ok(old(mgr)),
            table_wf(table_info@),
            table_info@.name == name@,
        ensures
            final(mgr).wf(),
            match r {
                Ok(t) => {
                    &&& t.wf()
                    &&& t.meta@ == table_info@
                    &&& lookup_meta(*final(mgr), name@) matches Some(e) && e.0 == t.meta@
                    &&& forall|n2: Seq<char>|
                        n2 != name@ ==> lookup_meta(*final(mgr), n2) == lookup_meta(*old(mgr), n2)
                },
                Err(_) => false,
            },
            final(self).cache_ok(final(mgr)),
            final(self).db == old(self).db,
            final(self).transaction == old(self).transaction,
    {
        let t = mgr.replace_table(name, table_info)?;
        self.cache.clear();
        Ok(t)
    }

    /// Set the session's current database.
    pub fn set_db(&mut self, name: String) -> (r: MySQLResult<()>)
        ensures
            r is Ok,
            final(self).db == name,
            final(self).cache@ == old(self).cache@,
            final(self).transaction == old(self).transaction,
    {
        self.db = name;
        Ok(())
    }

    /// The session's current database name.
    pub fn get_db(&self) -> (r: &String)
        ensures
            r == &self.db,
    {
        &self.db
    }
}

} // verus!
