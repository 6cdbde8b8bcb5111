use vstd::prelude::*;
use crate::common::{DataBlock, SendableDataBlockStream};
use crate::decoder::EncoderRow;
use crate::errors::{MySQLError, MySQLResult};
use crate::mem::{MemStorage, TransactionOptions};
use crate::planner::{create_index_wf, create_table_wf, point_get_wf, CreateIndexPlan,
    CreateTablePlan, InsertPlan, PlanNode, PointGetPlan};
use crate::schema::{ColumnInfo, IndexInfo, IndexType, TableInfo};
use crate::session::Session;
use crate::table::{table_wf, TableSource};
use crate::table_manager::{lookup_meta, DBTableManager};
use crate::types::spec_decode_comparable;
use crate::transaction::{AutoCommitContext, OptimisticTransactionContext, TransactionContext};

verus! {

/// Runs a CREATE TABLE plan: publish the elaborated table in the catalog.
#[derive(Debug)]
pub struct CreateTableExecutor {
    pub plan: CreateTablePlan,
}

impl CreateTableExecutor {
    pub fn new(plan: CreateTablePlan) -> (r: CreateTableExecutor)
        ensures
            r.plan == plan,
    {
        CreateTableExecutor { plan }
    }

    /// Publish the table. An empty stream comes back; the table is then
    /// visible in the catalog under its name.
    pub fn execute(self, session: &mut Session, mgr: &mut DBTableManager) -> (r: MySQLResult<
        SendableDataBlockStream,
    >)
        requires
            old(mgr).wf(),
            old(session).cache_ok(old(mgr)),
            create_table_wf(self.plan.table_info@),
        ensures
            final(mgr).wf(),
            final(session).cache_ok(final(mgr)),
            match r {
                Ok(blocks) => blocks@.len() == 0 && (lookup_meta(
                    *final(mgr),
                    self.plan.table_info@.name,
                ) matches Some(e) && e.0.columns == self.plan.table_info@.columns && e.0.indices
                    == self.plan.table_info@.indices),
                Err(e) => e == MySQLError::UnsupportSQL && self.plan.table_info@.columns.len()
                    > u32::MAX,
            },
            r is Ok <==> self.plan.table_info@.columns.len() <= u32::MAX,
    {
        if self.plan.table_info.columns.len() > u32::MAX as usize {
            return Err(MySQLError::UnsupportSQL);
        }
        proof {
            assert(table_wf(self.plan.table_info@));
        }
        let name = self.plan.table_info.name.clone();
        session.add_table(mgr, &name, self.plan.table_info)?;
        Ok(Vec::new())
    }
}

/// Runs an INSERT plan: resolve each row against the table's current
/// published state, write it through an auto-commit context, and publish
/// the advanced row counter back to the catalog.
#[derive(Debug)]
pub struct InsertExecutor {
    pub plan: InsertPlan,
}

impl InsertExecutor {
    pub fn new(plan: InsertPlan) -> (r: InsertExecutor)
        ensures
            r.plan == plan,
    {
        InsertExecutor { plan }
    }

    pub fn execute(self, session: &mut Session, mgr: &mut DBTableManager, storage: &mut MemStorage)
        -> (r: MySQLResult<SendableDataBlockStream>)
        requires
            old(mgr).wf(),
            old(session).cache_ok(old(mgr)),
            old(storage).wf(),
            self.plan.table.wf(),
        ensures
            final(mgr).wf(),
            final(session).cache_ok(final(mgr)),
            final(storage).wf(),
            r matches Ok(blocks) ==> blocks@.len() == 0,
            r is Ok ==> lookup_meta(*old(mgr), self.plan.table.meta@.name) is Some,
            ({
                let nm = self.plan.table.meta@.name;
                r is Ok ==> (lookup_meta(*old(mgr), nm) matches Some(e) && ({
                    let cols = e.0.columns;
                    // The advanced row counter is republished under the same
                    // schema; no other table's entry moves.
                    &&& (lookup_meta(*final(mgr), nm) matches Some(e2) && e2.0.columns == cols
                        && e2.0.indices == e.0.indices && e2.0.name == e.0.name)
                    &&& forall|n2: Seq<char>|
                        n2 != nm ==> lookup_meta(*final(mgr), n2) == lookup_meta(*old(mgr), n2)
                    // A single planned row lands in the store: the record key
                    // over the resolved values holds exactly their encoding,
                    // and the published counter is the advanced one.
                    &&& (self.plan.values@.len() == 1 ==> ({
                        let vv = Seq::new(
                            self.plan.schema.columns@.len(),
                            |x: int| self.plan.schema.columns@[x]@,
                        );
                        let valsv = Seq::new(
                            self.plan.values@[0]@.len(),
                            |x: int| self.plan.values@[0]@[x]@,
                        );
                        let rv = crate::table::spec_row_vals(
                            cols,
                            vv,
                            valsv,
                            e.0.max_row_id,
                            cols.len() as int,
                        );
                        &&& rv.0 is Some
                        &&& crate::table::insert_encodes(e.0, rv.0.unwrap())
                        &&& (crate::table::spec_record_key(e.0, rv.0.unwrap()) matches Some(rk)
                            && (crate::mem::top_visible(final(storage).stack(rk)) matches Some(b)
                            && crate::table::row_content(b, cols, rv.0.unwrap())))
                        &&& (lookup_meta(*final(mgr), nm) matches Some(e2) && e2.0.max_row_id
                            == rv.1)
                    }))
                }))
            }),
    {
        let name = self.plan.table.meta.name.clone();
        // Work on the catalog's current state of the table, so the shared
        // auto-increment counter advances across statements.
        let mut table = match mgr.get_table(&name) {
            Some(t) => t,
            None => {
                return Err(MySQLError::NoTable(name));
            },
        };
        let ghost ent = lookup_meta(*mgr, name@)->Some_0;
        proof {
            assert(lookup_meta(*mgr, name@) == Some(ent));
            assert(table.meta@ == ent.0);
        }
        let mut ctx = AutoCommitContext::new();
        let mut row = EncoderRow::new();
        let nrows = self.plan.values.len();
        let mut i: usize = 0;
        while i < nrows
            invariant
                i <= nrows,
                nrows == self.plan.values@.len(),
                table.wf(),
                table.meta@.name == name@,
                name@ == self.plan.table.meta@.name,
                mgr.wf(),
                session.cache_ok(mgr),
                *mgr == *old(mgr),
                *session == *old(session),
                lookup_meta(*mgr, name@) == Some(ent),
                table.meta@.columns == ent.0.columns,
                table.meta@.indices == ent.0.indices,
                i == 0 ==> table.meta@ == ent.0,
                ctx.inv(),
                storage.wf(),
                row.wf(),
                row.cols@.len() == 0,
                row.null_cols@.len() == 0,
                (nrows == 1 && i == 1) ==> ({
                    let vv = Seq::new(
                        self.plan.schema.columns@.len(),
                        |x: int| self.plan.schema.columns@[x]@,
                    );
                    let valsv = Seq::new(
                        self.plan.values@[0]@.len(),
                        |x: int| self.plan.values@[0]@[x]@,
                    );
                    let rv = crate::table::spec_row_vals(
                        ent.0.columns,
                        vv,
                        valsv,
                        ent.0.max_row_id,
                        ent.0.columns.len() as int,
                    );
                    &&& rv.0 is Some
                    &&& crate::table::insert_encodes(ent.0, rv.0.unwrap())
                    &&& (crate::table::spec_record_key(ent.0, rv.0.unwrap()) matches Some(rk)
                        && (ctx.kv_view(*storage, rk) matches Some(b)
                        && crate::table::row_content(b, ent.0.columns, rv.0.unwrap())))
                    &&& table.meta@.max_row_id == rv.1
                }),
            decreases nrows - i,
        {
            table.add_record(&mut ctx, storage, &mut row, &self.plan.schema.columns, &self.plan.values[i])?;
            row.clear();
            i += 1;
        }
        ctx.commit(storage)?;
        // Publish the advanced row counter.
        session.replace_table(mgr, &name, table.meta)?;
        Ok(Vec::new())
    }
}

/// Runs a recognized point get: resolve the key through the chosen index
/// and stream the projected row back.
#[derive(Debug)]
pub struct PointGetExecutor {
    pub plan: PointGetPlan,
}

impl PointGetExecutor {
    pub fn new(plan: PointGetPlan) -> (r: PointGetExecutor)
        ensures
            r.plan == plan,
    {
        PointGetExecutor { plan }
    }

    /// On the primary index outside a kept transaction, read the record
    /// directly under auto-commit. Otherwise read through the session's
    /// transaction (opening one if needed): resolve the index entry to a
    /// handle, then the handle to its row; the transaction stays with the
    /// session afterwards.
    pub fn execute(self, session: &mut Session, storage: &mut MemStorage) -> (r: MySQLResult<
        SendableDataBlockStream,
    >)
        requires
            old(storage).wf(),
            old(session).wf_txn(),
            point_get_wf(&self.plan),
        ensures
            final(storage).wf(),
            final(session).wf_txn(),
            r matches Ok(blocks) ==> blocks@.len() <= 1,
            ({
                let ti = self.plan.table.meta@.columns[self.plan.index_info@.columns[0].1].data_type;
                let ikey = crate::table::spec_index_prefix(self.plan.table.id)
                    + crate::types::spec_encode_comparable(self.plan.index_value@, ti);
                // Inside a kept transaction the read goes through that
                // transaction's view: no row comes back exactly when the
                // index entry is absent there, and the transaction stays
                // with the session.
                old(session).transaction is Some ==> {
                    &&& *final(storage) == *old(storage)
                    &&& final(session).transaction == old(session).transaction
                    &&& (r matches Ok(blocks)
                        ==> match (OptimisticTransactionContext { txn: old(session).transaction->Some_0 }).kv_view(
                        *old(storage),
                        ikey,
                    ) {
                        None => blocks@.len() == 0,
                        Some(hb) => {
                            let pi = crate::table::primary_index_at(
                                self.plan.table.meta@.indices,
                                0,
                            );
                            let pt =
                                self.plan.table.meta@.columns[self.plan.table.meta@.indices[pi].columns[0].1].data_type;
                            &&& pi != -1
                            &&& spec_decode_comparable(hb, 0, pt) matches Some(vp) && ({
                                let rkey = crate::table::spec_record_prefix(self.plan.table.id)
                                    + crate::types::spec_encode_comparable(vp.0, pt);
                                &&& blocks@.len() == 1
                                &&& blocks@[0].data@.len() == 1
                                &&& match (OptimisticTransactionContext { txn: old(session).transaction->Some_0 }).kv_view(
                                    *old(storage),
                                    rkey,
                                ) {
                                    None => blocks@[0].data@[0]@.len() == 0,
                                    Some(bytes) => blocks@[0].data@[0]@.len()
                                        == self.plan.select_columns.columns@.len() && forall|
                                        i: int,
                                    |
                                        0 <= i < self.plan.select_columns.columns@.len()
                                            ==> crate::table::spec_project(
                                            bytes,
                                            (#[trigger] self.plan.select_columns.columns@[i])@,
                                        ) == Some(blocks@[0].data@[0]@[i]@),
                                }
                            })
                        },
                    })
                }
            }),
            ({
                let t = self.plan.table.meta@.columns[self.plan.index_info@.columns[0].1].data_type;
                let key = crate::table::spec_record_prefix(self.plan.table.id)
                    + crate::types::spec_encode_comparable(self.plan.index_value@, t);
                (old(session).transaction is None && self.plan.index_info@.primary) ==> (r
                    matches Ok(blocks) ==> {
                    &&& *final(storage) == *old(storage)
                    &&& blocks@.len() == 1
                    &&& blocks@[0].data@.len() == 1
                    &&& match crate::mem::top_visible(old(storage).stack(key)) {
                        None => blocks@[0].data@[0]@.len() == 0,
                        Some(bytes) => blocks@[0].data@[0]@.len()
                            == self.plan.select_columns.columns@.len() && forall|i: int|
                            0 <= i < self.plan.select_columns.columns@.len()
                                ==> crate::table::spec_project(
                                bytes,
                                (#[trigger] self.plan.select_columns.columns@[i])@,
                            ) == Some(blocks@[0].data@[0]@[i]@),
                    }
                })
            }),
    {
        let transaction = session.take_transaction();
        let txn = match transaction {
            Some(txn) => txn,
            None => {
                if self.plan.index_info.primary {
                    let table = self.plan.table;
                    let mut ctx = AutoCommitContext::new();
                    let ret = table.read_record_by_index(
                        &mut ctx,
                        storage,
                        &self.plan.index_info,
                        &self.plan.select_columns,
                        &self.plan.index_value,
                    )?;
                    let mut data: Vec<Vec<crate::types::EncodeValue>> = Vec::new();
                    data.push(ret);
                    let mut blocks: Vec<DataBlock> = Vec::new();
                    blocks.push(DataBlock { schema: self.plan.select_columns, data });
                    return Ok(blocks);
                } else {
                    let opts = TransactionOptions { pessimistic: false, no_timestamp: false };
                    storage.new_transaction(&opts)
                }
            },
        };
        let mut ctx = OptimisticTransactionContext::new(txn);
        let ret = Self::execute_transaction(
            &self.plan.table,
            &self.plan.index_info,
            &self.plan.select_columns,
            &self.plan.index_value,
            &mut ctx,
            storage,
        );
        session.set_transaction(ctx.take_transaction());
        ret
    }

    /// The transactional read path: index entry to handle, handle to row.
    fn execute_transaction(
        table: &TableSource,
        index_info: &IndexInfo,
        select_columns: &crate::schema::DataSchema,
        index_value: &crate::types::EncodeValue,
        ctx: &mut OptimisticTransactionContext,
        storage: &mut MemStorage,
    ) -> (r: MySQLResult<SendableDataBlockStream>)
        requires
            old(ctx).inv(),
            old(storage).wf(),
            table.wf(),
            index_info@.columns.len() == 1,
            0 <= index_info@.columns[0].1 < table.meta@.columns.len(),
        ensures
            final(ctx).inv(),
            final(storage).wf(),
            *final(ctx) == *old(ctx),
            *final(storage) == *old(storage),
            r matches Ok(blocks) ==> blocks@.len() <= 1,
            ({
                let ti = table.meta@.columns[index_info@.columns[0].1].data_type;
                let ikey = crate::table::spec_index_prefix(table.id) + crate::types::spec_encode_comparable(
                    index_value@,
                    ti,
                );
                r matches Ok(blocks) ==> match old(ctx).kv_view(*old(storage), ikey) {
                    None => blocks@.len() == 0,
                    Some(hb) => {
                        let pi = crate::table::primary_index_at(table.meta@.indices, 0);
                        let pt =
                            table.meta@.columns[table.meta@.indices[pi].columns[0].1].data_type;
                        &&& pi != -1
                        &&& spec_decode_comparable(hb, 0, pt) matches Some(vp) && ({
                            let rkey = crate::table::spec_record_prefix(table.id)
                                + crate::types::spec_encode_comparable(vp.0, pt);
                            &&& blocks@.len() == 1
                            &&& blocks@[0].data@.len() == 1
                            &&& match old(ctx).kv_view(*old(storage), rkey) {
                                None => blocks@[0].data@[0]@.len() == 0,
                                Some(bytes) => blocks@[0].data@[0]@.len()
                                    == select_columns.columns@.len() && forall|i: int|
                                    0 <= i < select_columns.columns@.len()
                                        ==> crate::table::spec_project(
                                        bytes,
                                        (#[trigger] select_columns.columns@[i])@,
                                    ) == Some(blocks@[0].data@[0]@[i]@),
                            }
                        })
                    },
                }
            }),
    {
        match table.read_handle_from_index(ctx, storage, index_info, index_value)? {
            Some(handle) => {
                let ret = table.read_record(ctx, storage, select_columns, &handle)?;
                let mut data: Vec<Vec<crate::types::EncodeValue>> = Vec::new();
                data.push(ret);
                let mut blocks: Vec<DataBlock> = Vec::new();
                blocks.push(DataBlock { schema: select_columns.clone(), data });
                Ok(blocks)
            },
            None => Ok(Vec::new()),
        }
    }
}

/// Runs a CREATE INDEX plan: refuse a duplicate column list, append the
/// index to the table's metadata under a fresh index id, and republish
/// the table.
#[derive(Debug)]
pub struct CreateIndexExecutor {
    pub plan: CreateIndexPlan,
}

impl CreateIndexExecutor {
    pub fn new(plan: CreateIndexPlan) -> (r: CreateIndexExecutor)
        ensures
            r.plan == plan,
    {
        CreateIndexExecutor { plan }
    }

    pub fn execute(self, session: &mut Session, mgr: &mut DBTableManager) -> (r: MySQLResult<
        SendableDataBlockStream,
    >)
        requires
            old(mgr).wf(),
            old(session).cache_ok(old(mgr)),
            create_index_wf(&self.plan),
        ensures
            final(mgr).wf(),
            final(session).cache_ok(final(mgr)),
            match r {
                Ok(blocks) => blocks@.len() == 0 && (lookup_meta(
                    *final(mgr),
                    self.plan.table.meta@.name,
                ) matches Some(e) && e.0.indices.len() == self.plan.table.meta@.indices.len() + 1
                    && e.0.indices.last().columns == self.plan.index_info@.columns
                    && e.0.indices.last().unique == self.plan.index_info@.unique
                    && !e.0.indices.last().primary && e.0.indices.last().id == (if self.plan.table.meta@.max_index_id == u64::MAX {
                    0u64
                } else {
                    (self.plan.table.meta@.max_index_id + 1) as u64
                }) && e.0.max_index_id == e.0.indices.last().id),
                Err(e) => e == MySQLError::IndexExist && (forall|n2: Seq<char>|
                    lookup_meta(*final(mgr), n2) == lookup_meta(*old(mgr), n2)),
            },
            // An index over an already-covered column list is refused.
            r is Ok <==> !(exists|k: int|
                0 <= k < self.plan.table.meta@.indices.len()
                    && (#[trigger] self.plan.table.meta@.indices[k]).columns
                    == self.plan.index_info@.columns),
    {
        let mut meta: TableInfo = self.plan.table.meta.clone();
        // Refuse an index over an already-indexed column list.
        let nidx = meta.indices.len();
        let mut k: usize = 0;
        while k < nidx
            invariant
                k <= nidx,
                nidx == meta.indices@.len(),
                meta@ == self.plan.table.meta@,
                *mgr == *old(mgr),
                *session == *old(session),
                mgr.wf(),
                session.cache_ok(mgr),
                forall|x: int|
                    0 <= x < k ==> (#[trigger] self.plan.table.meta@.indices[x]).columns
                        != self.plan.index_info@.columns,
            decreases nidx - k,
        {
            if index_columns_eq(&meta.indices[k], &self.plan.index_info) {
                proof {
                    assert(self.plan.table.meta@.indices[k as int].columns
                        == self.plan.index_info@.columns);
                }
                return Err(MySQLError::IndexExist);
            }
            proof {
                assert(meta@.indices[k as int] == self.plan.table.meta@.indices[k as int]);
            }
            k += 1;
        }
        let new_id: u64 = if meta.max_index_id == u64::MAX {
            0
        } else {
            meta.max_index_id + 1
        };
        meta.max_index_id = new_id;
        let mut index_info = self.plan.index_info;
        let ghost pm = self.plan.table.meta@;
        index_info.id = new_id;
        let ghost added = index_info@;
        proof {
            assert(added.columns == self.plan.index_info@.columns);
            assert(added.unique == self.plan.index_info@.unique);
            assert(added.primary == self.plan.index_info@.primary);
        }
        meta.indices.push(index_info);
        proof {
            assert(meta@.indices =~= pm.indices.push(added));
        }
        // Mark every column as indexed, as the schema change leaves them.
        let ncols = meta.columns.len();
        let mut columns: Vec<ColumnInfo> = Vec::new();
        let mut i: usize = 0;
        while i < ncols
            invariant
                i <= ncols,
                ncols == meta.columns@.len(),
                columns@.len() == i,
                mgr.wf(),
                session.cache_ok(mgr),
                session.db == old(session).db,
                session.transaction == old(session).transaction,
                forall|j: int|
                    0 <= j < i ==> (#[trigger] columns@[j]@) == (crate::schema::ColumnMeta {
                        key: IndexType::Index,
                        ..meta.columns@[j]@
                    }),
            decreases ncols - i,
        {
            let mut c = meta.columns[i].clone();
            c.key = IndexType::Index;
            columns.push(c);
            i += 1;
        }
        let ghost precols = meta.columns@;
        meta.columns = columns;
        let name = meta.name.clone();
        proof {
            assert(meta@.columns =~= Seq::new(columns@.len() as nat, |j: int| columns@[j]@));
            assert(meta@.columns.len() == pm.columns.len());
            assert forall|j: int|
                0 <= j < meta@.columns.len() implies (#[trigger] meta@.columns[j]).id == j + 1
                && meta@.columns[j].offset == j by {
                assert(meta@.columns[j] == columns@[j]@);
                assert(precols[j]@ == pm.columns[j]);
                assert(pm.columns[j].id == j + 1);
            }
            assert forall|x: int, j: int|
                0 <= x < meta@.indices.len() && 0 <= j
                    < meta@.indices[x].columns.len() implies 0 <= (
            #[trigger] meta@.indices[x].columns[j]).1 < meta@.columns.len() by {
                if x < meta@.indices.len() - 1 {
                    assert(meta@.indices[x] == pm.indices[x]);
                    assert(0 <= pm.indices[x].columns[j].1 < pm.columns.len());
                } else {
                    assert(meta@.indices[x] == added);
                    assert(0 <= self.plan.index_info@.columns[j].1 < pm.columns.len());
                }
            }
            assert(table_wf(meta@));
        }
        session.replace_table(mgr, &name, meta)?;
        Ok(Vec::new())
    }
}

/// Whether two indexes cover the same column list.
fn index_columns_eq(a: &IndexInfo, b: &IndexInfo) -> (r: bool)
    ensures
        r == (a@.columns == b@.columns),
{
    if a.columns.len() != b.columns.len() {
        proof {
            assert(a@.columns.len() != b@.columns.len());
        }
        return false;
    }
    let n = a.columns.len();
    let mut i: usize = 0;
    while i < n
        invariant
            i <= n,
            n == a.columns@.len(),
            n == b.columns@.len(),
            forall|j: int| 0 <= j < i ==> a@.columns[j] == b@.columns[j],
        decreases n - i,
    {
        if !crate::schema::string_eq(&a.columns[i].0, &b.columns[i].0) || a.columns[i].1
            != b.columns[i].1 {
            proof {
                assert(a@.columns[i as int] != b@.columns[i as int]);
            }
            return false;
        }
        proof {
            assert(a@.columns[i as int] == b@.columns[i as int]);
        }
        i += 1;
    }
    proof {
        assert(a@.columns =~= b@.columns);
    }
    true
}

/// The executor a plan runs as.
#[derive(Debug)]
pub enum ExecutorNode {
    CreateTable(CreateTableExecutor),
    CreateIndex(CreateIndexExecutor),
    PointGet(PointGetExecutor),
    Insert(InsertExecutor),
}

/// Builds the executor for a plan.
#[derive(Debug)]
pub struct ExecutorBuilder {}

impl ExecutorBuilder {
    pub fn build(plan: PlanNode) -> (r: ExecutorNode)
        ensures
            match plan {
                PlanNode::CreateTable(p) => r matches ExecutorNode::CreateTable(e) && e.plan == p,
                PlanNode::CreateIndex(p) => r matches ExecutorNode::CreateIndex(e) && e.plan == p,
                PlanNode::PointGet(p) => r matches ExecutorNode::PointGet(e) && e.plan == p,
                PlanNode::Insert(p) => r matches ExecutorNode::Insert(e) && e.plan == p,
            },
    {
        match plan {
            PlanNode::CreateTable(p) => ExecutorNode::CreateTable(CreateTableExecutor::new(p)),
            PlanNode::PointGet(p) => ExecutorNode::PointGet(PointGetExecutor::new(p)),
            PlanNode::Insert(p) => ExecutorNode::Insert(InsertExecutor::new(p)),
            PlanNode::CreateIndex(p) => ExecutorNode::CreateIndex(CreateIndexExecutor::new(p)),
        }
    }
}

impl ExecutorNode {
    /// What each executor requires of its plan.
    pub open spec fn plan_ok(&self) -> bool {
        match self {
            ExecutorNode::CreateTable(e) => create_table_wf(e.plan.table_info@),
            ExecutorNode::CreateIndex(e) => create_index_wf(&e.plan),
            ExecutorNode::PointGet(e) => point_get_wf(&e.plan),
            ExecutorNode::Insert(e) => e.plan.table.wf(),
        }
    }

    /// Run the executor against the session, catalog and backend.
    pub fn execute(
        self,
        session: &mut Session,
        mgr: &mut DBTableManager,
        storage: &mut MemStorage,
    ) -> (r: MySQLResult<SendableDataBlockStream>)
        requires
            old(mgr).wf(),
            old(session).cache_ok(old(mgr)),
            old(session).wf_txn(),
            old(storage).wf(),
            self.plan_ok(),
        ensures
            final(mgr).wf(),
            final(storage).wf(),
            match self {
                ExecutorNode::CreateTable(e) => {
                    &&& final(session).cache_ok(final(mgr))
                    &&& *final(storage) == *old(storage)
                    &&& (r is Ok <==> e.plan.table_info@.columns.len() <= u32::MAX)
                    &&& (r matches Ok(blocks) ==> blocks@.len() == 0 && (lookup_meta(
                        *final(mgr),
                        e.plan.table_info@.name,
                    ) matches Some(en) && en.0.columns == e.plan.table_info@.columns
                        && en.0.indices == e.plan.table_info@.indices))
                },
                ExecutorNode::CreateIndex(e) => {
                    &&& final(session).cache_ok(final(mgr))
                    &&& *final(storage) == *old(storage)
                    &&& (r is Ok <==> !(exists|k: int|
                        0 <= k < e.plan.table.meta@.indices.len()
                            && (#[trigger] e.plan.table.meta@.indices[k]).columns
                            == e.plan.index_info@.columns))
                    &&& (r matches Ok(blocks) ==> blocks@.len() == 0 && (lookup_meta(
                        *final(mgr),
                        e.plan.table.meta@.name,
                    ) matches Some(en) && en.0.indices.len() == e.plan.table.meta@.indices.len()
                        + 1 && en.0.indices.last().columns == e.plan.index_info@.columns))
                    &&& (r is Err ==> forall|n2: Seq<char>|
                        lookup_meta(*final(mgr), n2) == lookup_meta(*old(mgr), n2))
                },
                ExecutorNode::PointGet(e) => {
                    &&& *final(mgr) == *old(mgr)
                    &&& final(session).wf_txn()
                    &&& (r matches Ok(blocks) ==> blocks@.len() <= 1)
                    &&& ({
                        let ti =
                            e.plan.table.meta@.columns[e.plan.index_info@.columns[0].1].data_type;
                        let ikey = crate::table::spec_index_prefix(e.plan.table.id)
                            + crate::types::spec_encode_comparable(e.plan.index_value@, ti);
                        old(session).transaction is Some ==> {
                            &&& *final(storage) == *old(storage)
                            &&& final(session).transaction == old(session).transaction
                            &&& (r matches Ok(blocks)
                                ==> match (OptimisticTransactionContext {
                                txn: old(session).transaction->Some_0,
                            }).kv_view(*old(storage), ikey) {
                                None => blocks@.len() == 0,
                                Some(hb) => {
                                    let pi = crate::table::primary_index_at(
                                        e.plan.table.meta@.indices,
                                        0,
                                    );
                                    let pt =
                                        e.plan.table.meta@.columns[e.plan.table.meta@.indices[pi].columns[0].1].data_type;
                                    &&& pi != -1
                                    &&& spec_decode_comparable(hb, 0, pt) matches Some(vp) && ({
                                        let rkey = crate::table::spec_record_prefix(
                                            e.plan.table.id,
                                        ) + crate::types::spec_encode_comparable(vp.0, pt);
                                        &&& blocks@.len() == 1
                                        &&& blocks@[0].data@.len() == 1
                                        &&& match (OptimisticTransactionContext {
                                            txn: old(session).transaction->Some_0,
                                        }).kv_view(*old(storage), rkey) {
                                            None => blocks@[0].data@[0]@.len() == 0,
                                            Some(bytes) => blocks@[0].data@[0]@.len()
                                                == e.plan.select_columns.columns@.len() && forall|
                                                i: int,
                                            |
                                                0 <= i < e.plan.select_columns.columns@.len()
                                                    ==> crate::table::spec_project(
                                                    bytes,
                                                    (
                                                    #[trigger] e.plan.select_columns.columns@[i])@,
                                                ) == Some(blocks@[0].data@[0]@[i]@),
                                        }
                                    })
                                },
                            })
                        }
                    })
                    &&& ({
                        let t =
                            e.plan.table.meta@.columns[e.plan.index_info@.columns[0].1].data_type;
                        let key = crate::table::spec_record_prefix(e.plan.table.id)
                            + crate::types::spec_encode_comparable(e.plan.index_value@, t);
                        (old(session).transaction is None && e.plan.index_info@.primary) ==> (r
                            matches Ok(blocks) ==> {
                            &&& *final(storage) == *old(storage)
                            &&& blocks@.len() == 1
                            &&& blocks@[0].data@.len() == 1
                            &&& match crate::mem::top_visible(old(storage).stack(key)) {
                                None => blocks@[0].data@[0]@.len() == 0,
                                Some(bytes) => blocks@[0].data@[0]@.len()
                                    == e.plan.select_columns.columns@.len() && forall|i: int|
                                    0 <= i < e.plan.select_columns.columns@.len()
                                        ==> crate::table::spec_project(
                                        bytes,
                                        (#[trigger] e.plan.select_columns.columns@[i])@,
                                    ) == Some(blocks@[0].data@[0]@[i]@),
                            }
                        })
                    })
                },
                ExecutorNode::Insert(e) => {
                    &&& final(session).cache_ok(final(mgr))
                    &&& (r matches Ok(blocks) ==> blocks@.len() == 0)
                    &&& (r is Ok ==> lookup_meta(*old(mgr), e.plan.table.meta@.name) is Some)
                    &&& ({
                        let nm = e.plan.table.meta@.name;
                        r is Ok ==> (lookup_meta(*old(mgr), nm) matches Some(en) && ({
                            let cols = en.0.columns;
                            &&& (lookup_meta(*final(mgr), nm) matches Some(e2) && e2.0.columns
                                == cols && e2.0.indices == en.0.indices)
                            &&& forall|n2: Seq<char>|
                                n2 != nm ==> lookup_meta(*final(mgr), n2) == lookup_meta(
                                    *old(mgr),
                                    n2,
                                )
                            &&& (e.plan.values@.len() == 1 ==> ({
                                let vv = Seq::new(
                                    e.plan.schema.columns@.len(),
                                    |x: int| e.plan.schema.columns@[x]@,
                                );
                                let valsv = Seq::new(
                                    e.plan.values@[0]@.len(),
                                    |x: int| e.plan.values@[0]@[x]@,
                                );
                                let rv = crate::table::spec_row_vals(
                                    cols,
                                    vv,
                                    valsv,
                                    en.0.max_row_id,
                                    cols.len() as int,
                                );
                                &&& rv.0 is Some
                                &&& (crate::table::spec_record_key(en.0, rv.0.unwrap())
                                    matches Some(rk) && (crate::mem::top_visible(
                                    final(storage).stack(rk),
                                ) matches Some(b) && crate::table::row_content(
                                    b,
                                    cols,
                                    rv.0.unwrap(),
                                )))
                                &&& (lookup_meta(*final(mgr), nm) matches Some(e2)
                                    && e2.0.max_row_id == rv.1)
                            }))
                        }))
                    })
                },
            },
    {
        match self {
            ExecutorNode::CreateTable(e) => e.execute(session, mgr),
            ExecutorNode::CreateIndex(e) => e.execute(session, mgr),
            ExecutorNode::PointGet(e) => e.execute(session, storage),
            ExecutorNode::Insert(e) => e.execute(session, mgr, storage),
        }
    }
}

} // verus!
