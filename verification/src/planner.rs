use vstd::prelude::*;
use crate::errors::{MySQLError, MySQLResult};
use crate::expression::Expression;
use crate::schema::{lemma_find_col_props, all_constraints, spec_column, spec_index, ColumnInfo,
    DataSchema, IndexInfo, TableInfo, TableState};
use crate::session::Session;
use crate::sqlast::{lower_of, parse_value_ok, spec_parse_value, to_lowercase, SqlBinaryOperator,
    SqlExpr, SqlQuery, SqlSelect, SqlSelectItem, SqlSetExpr, SqlStatement, SqlValue};
use crate::table::{latest_single_unique, single_unique_on, TableSource};
use crate::table_manager::{lookup_meta, DBTableManager};
use crate::types::EncodeValue;

verus! {

/// A plan to create a table from elaborated metadata.
#[derive(Debug)]
pub struct CreateTablePlan {
    pub table_info: TableInfo,
}

/// A plan to add an index to an existing table.
#[derive(Debug)]
pub struct CreateIndexPlan {
    pub index_info: IndexInfo,
    pub table: TableSource,
}

/// A plan to insert literal rows into a table: one entry of `values` per
/// row, each as wide as the named columns in `schema`.
#[derive(Debug)]
pub struct InsertPlan {
    pub table: TableSource,
    pub values: Vec<Vec<EncodeValue>>,
    pub schema: DataSchema,
}

/// A recognized point get: one equality against a unique or primary
/// single-column index, a projection, and the remaining conjuncts for
/// post-filtering.
#[derive(Debug)]
pub struct PointGetPlan {
    pub table: TableSource,
    pub index_info: IndexInfo,
    pub index_value: EncodeValue,
    pub select_columns: DataSchema,
    pub filters: Vec<Expression>,
}

/// The plan a statement elaborates to.
#[derive(Debug)]
pub enum PlanNode {
    CreateTable(CreateTablePlan),
    CreateIndex(CreateIndexPlan),
    PointGet(PointGetPlan),
    Insert(InsertPlan),
}

/// What the executors rely on of a recognized point get.
pub open spec fn point_get_wf(p: &PointGetPlan) -> bool {
    &&& p.table.wf()
    &&& p.index_info@.columns.len() == 1
    &&& 0 <= p.index_info@.columns[0].1 < p.table.meta@.columns.len()
    &&& (p.index_info@.primary || p.index_info@.unique)
}

/// What the executors rely on of a create-table plan: the elaborated
/// metadata has sequential ids, dense offsets, and in-range index
/// columns.
pub open spec fn create_table_wf(t: crate::schema::TableMeta) -> bool {
    &&& forall|i: int|
        0 <= i < t.columns.len() ==> (#[trigger] t.columns[i].id) == i + 1 && t.columns[i].offset
            == i
    &&& forall|k: int, j: int|
        0 <= k < t.indices.len() && 0 <= j < t.indices[k].columns.len() ==> 0 <= (
        #[trigger] t.indices[k].columns[j]).1 < t.columns.len()
}

/// What the executors rely on of a create-index plan.
pub open spec fn create_index_wf(p: &CreateIndexPlan) -> bool {
    &&& p.table.wf()
    &&& !p.index_info@.primary
    &&& forall|j: int|
        0 <= j < p.index_info@.columns.len() ==> 0 <= (#[trigger] p.index_info@.columns[j]).1
            < p.table.meta@.columns.len()
    &&& p.index_info@.table_name == p.table.meta@.name
}

/// Whether the recognizer's walk of these equality conjuncts raises no
/// error: every literal converts, and every lowered name is covered by a
/// unique single-column index or names a plain column.
pub open spec fn cands_ok(t: crate::schema::TableMeta, cands: Seq<(Seq<char>, SqlValue)>) -> bool {
    forall|c: int|
        0 <= c < cands.len() ==> parse_value_ok(&(#[trigger] cands[c]).1) && (latest_single_unique(
            t.indices,
            lower_of(cands[c].0),
            t.indices.len() - 1,
        ) != -1 || exists|ci: int|
            0 <= ci < t.columns.len() && (#[trigger] t.columns[ci]).name == lower_of(cands[c].0))
}

/// The indexes the walk collects, in conjunct order: for each conjunct
/// whose lowered name a unique single-column index covers, that index's
/// position and the literal's converted value. The first entry drives the
/// plan.
pub open spec fn picked_indexes(t: crate::schema::TableMeta, cands: Seq<(Seq<char>, SqlValue)>)
    -> Seq<(int, crate::types::ValueView)>
    decreases cands.len(),
{
    if cands.len() == 0 {
        Seq::empty()
    } else {
        let li = latest_single_unique(t.indices, lower_of(cands[0].0), t.indices.len() - 1);
        let rest = picked_indexes(t, cands.subrange(1, cands.len() as int));
        if li != -1 {
            seq![(li, spec_parse_value(&cands[0].1))] + rest
        } else {
            rest
        }
    }
}

/// Both walk specifications distribute over splitting a conjunction.
proof fn lemma_walk_app(
    t: crate::schema::TableMeta,
    a: Seq<(Seq<char>, SqlValue)>,
    b: Seq<(Seq<char>, SqlValue)>,
)
    ensures
        picked_indexes(t, a + b) == picked_indexes(t, a) + picked_indexes(t, b),
        cands_ok(t, a + b) <==> cands_ok(t, a) && cands_ok(t, b),
    decreases a.len(),
{
    if a.len() == 0 {
        assert(a + b =~= b);
        assert(picked_indexes(t, a) + picked_indexes(t, b) =~= picked_indexes(t, b));
        assert(cands_ok(t, a));
    } else {
        let ta = a.subrange(1, a.len() as int);
        lemma_walk_app(t, ta, b);
        assert((a + b).subrange(1, (a + b).len() as int) =~= ta + b);
        assert((a + b)[0] == a[0]);
        assert(picked_indexes(t, a) + picked_indexes(t, b) =~= ({
            let li = latest_single_unique(t.indices, lower_of(a[0].0), t.indices.len() - 1);
            if li != -1 {
                seq![(li, spec_parse_value(&a[0].1))] + (picked_indexes(t, ta) + picked_indexes(
                    t,
                    b,
                ))
            } else {
                picked_indexes(t, ta) + picked_indexes(t, b)
            }
        }));
        assert(cands_ok(t, a + b) <==> cands_ok(t, a) && cands_ok(t, b)) by {
            if cands_ok(t, a + b) {
                assert forall|c: int| 0 <= c < a.len() implies a[c] == (a + b)[c] by {}
                assert forall|c: int| 0 <= c < b.len() implies b[c] == (a + b)[c + a.len()] by {}
            }
            if cands_ok(t, a) && cands_ok(t, b) {
                assert forall|c: int|
                    0 <= c < (a + b).len() implies (a + b)[c] == (if c < a.len() {
                    a[c]
                } else {
                    b[c - a.len()]
                }) by {}
            }
        }
    }
}

/// The SELECT shapes the recognizer can drive: no TOP, one join-free
/// plain table with a non-empty name.
pub open spec fn select_shape_ok(s: SqlSelect) -> bool {
    &&& !s.has_top
    &&& s.from@.len() == 1
    &&& !s.from@[0].has_joins
    &&& s.from@[0].relation matches Some(n) && n.0@.len() > 0
}

/// The lowered table name a shaped SELECT reads from.
pub open spec fn select_from_name(s: SqlSelect) -> Seq<char> {
    lower_of((s.from@[0].relation->Some_0).0@.last().value@)
}

/// A schema-qualified FROM must name the session's current database.
pub open spec fn select_db_ok(s: SqlSelect, db: Seq<char>) -> bool {
    (s.from@[0].relation->Some_0).0@.len() <= 1 || lower_of(
        (s.from@[0].relation->Some_0).0@[0].value@,
    ) == db
}

/// The equality conjuncts of the WHERE clause, if any.
pub open spec fn select_eqs(s: SqlSelect) -> Seq<(Seq<char>, SqlValue)> {
    match s.selection {
        Some(e) => crate::sqlast::eq_conjuncts(e),
        None => Seq::empty(),
    }
}

/// Every projection item is a plain identifier naming a column.
pub open spec fn proj_ok(t: crate::schema::TableMeta, proj: Seq<SqlSelectItem>) -> bool {
    forall|i: int|
        0 <= i < proj.len() ==> ((#[trigger] proj[i]) matches SqlSelectItem::UnnamedExpr(
            SqlExpr::Identifier(id),
        ) && exists|ci: int|
            0 <= ci < t.columns.len() && (#[trigger] t.columns[ci]).name == lower_of(id.value@))
}

/// Walks a parsed SELECT and recognizes a point get: a single plain
/// table, no joins, no ORDER BY, LIMIT or TOP, and a conjunction of
/// equalities of which at least one binds a unique or primary
/// single-column index to a literal; the first such equality drives the
/// plan.
pub struct QueryPlanBuilder {
    table: Option<TableSource>,
    index_info: Vec<IndexInfo>,
    select_columns: Vec<ColumnInfo>,
    index_values: Vec<EncodeValue>,
    point_get: bool,
    filters: Vec<Expression>,
}

impl QueryPlanBuilder {
    /// The visitor's running shape: a well-formed table once bound, and
    /// every collected index a unique or primary single-column index of
    /// it, paired with its literal.
    pub closed spec fn inv(&self) -> bool {
        &&& match self.table {
            Some(t) => t.wf() && forall|k: int|
                0 <= k < self.index_info@.len() ==> (#[trigger] self.index_info@[k])@.columns.len()
                    == 1 && 0 <= self.index_info@[k]@.columns[0].1 < t.meta@.columns.len() && (
                self.index_info@[k]@.primary || self.index_info@[k]@.unique),
            None => self.index_info@.len() == 0,
        }
        &&& self.index_values@.len() == self.index_info@.len()
    }

    /// A freshly built visitor: nothing bound, nothing collected.
    pub closed spec fn fresh(&self) -> bool {
        &&& self.table is None
        &&& self.index_info@.len() == 0
        &&& self.index_values@.len() == 0
        &&& self.select_columns@.len() == 0
        &&& self.point_get
    }

    pub fn new() -> (r: QueryPlanBuilder)
        ensures
            r.inv(),
            r.fresh(),
    {
        QueryPlanBuilder {
            table: None,
            index_info: Vec::new(),
            select_columns: Vec::new(),
            index_values: Vec::new(),
            point_get: true,
            filters: Vec::new(),
        }
    }

    /// Recognize a point get, or decide the query needs the general
    /// planner (`None`). A query qualifies exactly when it has the plain
    /// single-table shape without LIMIT, ORDER BY or TOP, and some WHERE
    /// equality binds a unique or primary single-column index to a
    /// literal; the first such equality in walk order drives the plan.
    /// Catalog misses and unknown columns are errors.
    pub fn try_point_get(self, session: &mut Session, mgr: &DBTableManager, query: &SqlQuery) -> (r:
        MySQLResult<Option<PointGetPlan>>)
        requires
            self.inv(),
            self.fresh(),
            mgr.wf(),
            old(session).cache_ok(mgr),
        ensures
            final(session).cache_ok(mgr),
            final(session).db == old(session).db,
            final(session).transaction == old(session).transaction,
            ({
                let shaped = !query.has_limit && !query.has_order_by && (query.body matches
                    SqlSetExpr::Select(s) && select_shape_ok(*s));
                match r {
                    Ok(opt) => match opt {
                        Some(plan) => {
                            &&& point_get_wf(&plan)
                            &&& shaped
                            &&& (query.body matches SqlSetExpr::Select(s) && ({
                                let nm = select_from_name(*s);
                                &&& select_db_ok(*s, old(session).db@)
                                &&& lookup_meta(*mgr, nm) matches Some(e) && ({
                                    let picked = picked_indexes(e.0, select_eqs(*s));
                                    &&& plan.table.meta@ == e.0
                                    &&& cands_ok(e.0, select_eqs(*s))
                                    &&& picked.len() > 0
                                    &&& plan.index_info@ == e.0.indices[picked[0].0]
                                    &&& plan.index_value@ == picked[0].1
                                    &&& plan.select_columns.columns@.len() == s.projection@.len()
                                    &&& forall|i: int|
                                        0 <= i < s.projection@.len() ==> ((
                                        #[trigger] s.projection@[i]) matches
                                            SqlSelectItem::UnnamedExpr(SqlExpr::Identifier(id))
                                            && plan.select_columns.columns@[i]@.name == lower_of(id.value@)
                                            && exists|ci: int|
                                            0 <= ci < e.0.columns.len()
                                                && plan.select_columns.columns@[i]@ == e.0.columns[ci])
                                })
                            }))
                        },
                        None => !(shaped && (query.body matches SqlSetExpr::Select(s)
                            && lookup_meta(*mgr, select_from_name(*s)) matches Some(e)
                            && picked_indexes(e.0, select_eqs(*s)).len() > 0)),
                    },
                    Err(e) => (e == MySQLError::NoDB || e matches MySQLError::NoTable(_) || e
                        == MySQLError::NoColumn || e == MySQLError::UnsupportSQL || e
                        is ParseError) && (e matches MySQLError::NoTable(n) ==> lookup_meta(
                        *mgr,
                        n@,
                    ) is None),
                }
            }),
            (!query.has_limit && !query.has_order_by && (query.body matches SqlSetExpr::Select(s)
                && select_shape_ok(*s) && select_db_ok(*s, old(session).db@) && (lookup_meta(
                *mgr,
                select_from_name(*s),
            ) matches Some(e) && cands_ok(e.0, select_eqs(*s)) && picked_indexes(
                e.0,
                select_eqs(*s),
            ).len() > 0 && proj_ok(e.0, s.projection@)))) ==> r matches Ok(Some(_)),
    {
        let mut b = self;
        if query.has_limit || query.has_order_by {
            return Ok(None);
        }
        let select = match &query.body {
            SqlSetExpr::Select(select) => select,
            _ => {
                return Ok(None);
            },
        };
        b.visit_select(session, mgr, select)?;
        if b.point_get && b.index_info.len() > 0 {
            match b.table {
                Some(t) => {
                    let mut index_info = b.index_info;
                    let mut index_values = b.index_values;
                    let info = index_info.remove(0);
                    let value = index_values.remove(0);
                    Ok(
                        Some(
                            PointGetPlan {
                                table: t,
                                index_info: info,
                                index_value: value,
                                select_columns: DataSchema { columns: b.select_columns },
                                filters: b.filters,
                            },
                        ),
                    )
                },
                None => Ok(None),
            }
        } else {
            Ok(None)
        }
    }

    /// Bind the FROM table, walk the WHERE conjunction for a driving
    /// index, and bind the projection when one was found.
    fn visit_select(&mut self, session: &mut Session, mgr: &DBTableManager, select: &SqlSelect)
        -> (r: MySQLResult<()>)
        requires
            old(self).inv(),
            old(self).fresh(),
            mgr.wf(),
            old(session).cache_ok(mgr),
        ensures
            final(self).inv(),
            final(session).cache_ok(mgr),
            final(session).db == old(session).db,
            final(session).transaction == old(session).transaction,
            ({
                match r {
                    Ok(_) => {
                        &&& (!select_shape_ok(*select) ==> !final(self).point_get)
                        &&& (select_shape_ok(*select) ==> ({
                            let nm = select_from_name(*select);
                            &&& select_db_ok(*select, old(session).db@)
                            &&& lookup_meta(*mgr, nm) matches Some(e) && ({
                                let picked = picked_indexes(e.0, select_eqs(*select));
                                &&& final(self).table matches Some(tb) && tb.wf() && tb.meta@
                                    == e.0
                                &&& cands_ok(e.0, select_eqs(*select))
                                &&& final(self).index_info@.len() == picked.len()
                                &&& final(self).index_values@.len() == picked.len()
                                &&& forall|j: int|
                                    0 <= j < picked.len() ==> (#[trigger] final(self).index_info@[j])@ == e.0.indices[picked[j].0] && final(self).index_values@[j]@ == picked[j].1
                                &&& (final(self).point_get <==> picked.len() > 0)
                                &&& (final(self).point_get ==> final(self).select_columns@.len()
                                    == select.projection@.len() && (forall|i: int|
                                    0 <= i < select.projection@.len() ==> ((
                                    #[trigger] select.projection@[i]) matches
                                        SqlSelectItem::UnnamedExpr(SqlExpr::Identifier(id))
                                        && final(self).select_columns@[i]@.name == lower_of(
                                        id.value@,
                                    ) && exists|ci: int|
                                        0 <= ci < e.0.columns.len() && final(self).select_columns@[i]@ == e.0.columns[ci])))
                            })
                        }))
                    },
                    Err(e) => (e == MySQLError::NoDB || e matches MySQLError::NoTable(_) || e
                        == MySQLError::NoColumn || e == MySQLError::UnsupportSQL || e
                        is ParseError) && (e matches MySQLError::NoTable(n) ==> lookup_meta(
                        *mgr,
                        n@,
                    ) is None),
                }
            }),
            (select_shape_ok(*select) && select_db_ok(*select, old(session).db@) && (lookup_meta(
                *mgr,
                select_from_name(*select),
            ) matches Some(e) && cands_ok(e.0, select_eqs(*select)) && (picked_indexes(
                e.0,
                select_eqs(*select),
            ).len() == 0 || proj_ok(e.0, select.projection@)))) ==> r is Ok,
    {
        if select.has_top {
            self.point_get = false;
            return Ok(());
        }
        if select.from.len() != 1 {
            self.point_get = false;
            return Ok(());
        }
        let table_ref = &select.from[0];
        if table_ref.has_joins {
            self.point_get = false;
            return Ok(());
        }
        match &table_ref.relation {
            Some(name) => {
                if name.0.len() == 0 {
                    self.point_get = false;
                    return Ok(());
                }
                if name.0.len() > 1 {
                    let db = to_lowercase(name.0[0].value.as_str());
                    if !crate::schema::string_eq(&db, session.get_db()) {
                        return Err(MySQLError::NoDB);
                    }
                }
                let table_name = to_lowercase(name.0[name.0.len() - 1].value.as_str());
                match session.get_table(mgr, &table_name) {
                    Some(t) => {
                        let ghost tmeta = t.meta@;
                        self.table = Some(t);
                        match &select.selection {
                            Some(expr) => {
                                self.visit_selection(expr)?;
                            },
                            None => {},
                        }
                        proof {
                            let picked = picked_indexes(tmeta, select_eqs(*select));
                            if select.selection is None {
                                assert(picked =~= Seq::<(int, crate::types::ValueView)>::empty());
                            }
                            assert forall|j: int|
                                0 <= j < picked.len() implies (#[trigger] self.index_info@[j])@
                                == tmeta.indices[picked[j].0] && self.index_values@[j]@
                                == picked[j].1 by {
                                assert(self.index_info@[0 + j]@ == tmeta.indices[picked[j].0]);
                                assert(self.index_values@[0 + j]@ == picked[j].1);
                            }
                        }
                        if self.index_info.len() == 0 {
                            self.point_get = false;
                        }
                        if self.point_get {
                            self.visit_projections(&select.projection)?;
                        }
                        Ok(())
                    },
                    None => Err(MySQLError::NoTable(table_name)),
                }
            },
            None => {
                self.point_get = false;
                Ok(())
            },
        }
    }

    /// Bind the projection: only plain column references are served.
    fn visit_projections(&mut self, projections: &Vec<SqlSelectItem>) -> (r: MySQLResult<()>)
        requires
            old(self).inv(),
            old(self).table is Some,
            old(self).select_columns@.len() == 0,
        ensures
            final(self).inv(),
            final(self).table == old(self).table,
            final(self).point_get == old(self).point_get,
            final(self).index_info@ == old(self).index_info@,
            final(self).index_values@ == old(self).index_values@,
            ({
                let tm = (old(self).table->Some_0).meta@;
                &&& (r is Ok <==> proj_ok(tm, projections@))
                &&& (r is Ok ==> final(self).select_columns@.len() == projections@.len() && (
                forall|i: int|
                    0 <= i < projections@.len() ==> ((#[trigger] projections@[i]) matches
                        SqlSelectItem::UnnamedExpr(SqlExpr::Identifier(id)) && final(self).select_columns@[i]@.name == lower_of(id.value@) && exists|ci: int|
                        0 <= ci < tm.columns.len() && final(self).select_columns@[i]@
                            == tm.columns[ci])))
                &&& (r matches Err(e) ==> e == MySQLError::NoColumn || e
                    == MySQLError::UnsupportSQL)
            }),
    {
        let ghost tm = (old(self).table->Some_0).meta@;
        let n = projections.len();
        let mut i: usize = 0;
        while i < n
            invariant
                i <= n,
                n == projections@.len(),
                self.inv(),
                self.table == old(self).table,
                self.point_get == old(self).point_get,
                self.index_info@ == old(self).index_info@,
                self.index_values@ == old(self).index_values@,
                tm == (old(self).table->Some_0).meta@,
                self.table is Some,
                self.select_columns@.len() == i,
                forall|j: int|
                    0 <= j < i ==> ((#[trigger] projections@[j]) matches
                        SqlSelectItem::UnnamedExpr(SqlExpr::Identifier(id))
                        && self.select_columns@[j]@.name == lower_of(id.value@) && exists|ci: int|
                        0 <= ci < tm.columns.len() && self.select_columns@[j]@ == tm.columns[ci]),
            decreases n - i,
        {
            let t2 = match &self.table {
                Some(t2) => t2,
                None => {
                    return Err(MySQLError::NoColumn);
                },
            };
            match &projections[i] {
                SqlSelectItem::UnnamedExpr(SqlExpr::Identifier(v)) => {
                    let col_name = to_lowercase(v.value.as_str());
                    match t2.get_column(&col_name) {
                        Some(col) => {
                            self.select_columns.push(col);
                        },
                        None => {
                            proof {
                                assert(!proj_ok(tm, projections@));
                            }
                            return Err(MySQLError::NoColumn);
                        },
                    }
                },
                _ => {
                    proof {
                        assert(!proj_ok(tm, projections@));
                    }
                    return Err(MySQLError::UnsupportSQL);
                },
            }
            i += 1;
        }
        Ok(())
    }

    /// Walk the WHERE conjunction: each equality of a column against a
    /// literal may select an index; other operators are ignored.
    fn visit_selection(&mut self, expr: &SqlExpr) -> (r: MySQLResult<()>)
        requires
            old(self).inv(),
        ensures
            final(self).inv(),
            final(self).table == old(self).table,
            final(self).point_get == old(self).point_get,
            final(self).select_columns == old(self).select_columns,
            final(self).filters == old(self).filters,
            match old(self).table {
                Some(t) => {
                    &&& (r is Ok <==> cands_ok(t.meta@, crate::sqlast::eq_conjuncts(*expr)))
                    &&& (r is Ok ==> ({
                        let picked = picked_indexes(t.meta@, crate::sqlast::eq_conjuncts(*expr));
                        &&& final(self).index_info@.len() == old(self).index_info@.len()
                            + picked.len()
                        &&& final(self).index_values@.len() == final(self).index_info@.len()
                        &&& forall|j: int|
                            0 <= j < old(self).index_info@.len() ==> (#[trigger] final(self).index_info@[j]) == old(self).index_info@[j] && final(self).index_values@[j] == old(self).index_values@[j]
                        &&& forall|j: int|
                            0 <= j < picked.len() ==> (#[trigger] final(self).index_info@[old(self).index_info@.len() + j])@
                                == t.meta@.indices[picked[j].0] && final(self).index_values@[old(self).index_info@.len() + j]@ == picked[j].1
                    }))
                    &&& (r matches Err(e) ==> e == MySQLError::NoColumn || e
                        == MySQLError::UnsupportSQL || e is ParseError)
                },
                None => (r is Ok ==> final(self).index_info@ == old(self).index_info@ && final(self).index_values@ == old(self).index_values@) && (r matches Err(e)
                    ==> e == MySQLError::UnsupportSQL || e is ParseError),
            },
        decreases expr,
    {
        match expr {
            SqlExpr::BinaryOp { op, left, right } => {
                match op {
                    SqlBinaryOperator::And => {
                        let ghost la = crate::sqlast::eq_conjuncts(**left);
                        let ghost lb = crate::sqlast::eq_conjuncts(**right);
                        proof {
                            match old(self).table {
                                Some(t) => {
                                    lemma_walk_app(t.meta@, la, lb);
                                },
                                None => {},
                            }
                        }
                        let ghost base = self.index_info@.len() as int;
                        self.visit_selection(left)?;
                        let ghost mid_info = self.index_info@;
                        let ghost mid_vals = self.index_values@;
                        let r2 = self.visit_selection(right);
                        proof {
                            if r2 is Ok {
                                match old(self).table {
                                    Some(t) => {
                                        let pl = picked_indexes(t.meta@, la);
                                        let pr = picked_indexes(t.meta@, lb);
                                        let full = picked_indexes(
                                            t.meta@,
                                            crate::sqlast::eq_conjuncts(*expr),
                                        );
                                        assert(full == pl + pr);
                                        assert forall|j: int|
                                            0 <= j < full.len() implies (#[trigger] self.index_info@[base + j])@
                                            == t.meta@.indices[full[j].0]
                                            && self.index_values@[base + j]@ == full[j].1 by {
                                            if j < pl.len() {
                                                assert(self.index_info@[base + j]
                                                    == mid_info[base + j]);
                                                assert(self.index_values@[base + j]
                                                    == mid_vals[base + j]);
                                                assert(full[j] == pl[j]);
                                                assert(mid_info[base + j]@
                                                    == t.meta@.indices[pl[j].0]);
                                                assert(mid_vals[base + j]@ == pl[j].1);
                                            } else {
                                                assert(full[j] == pr[j - pl.len()]);
                                                assert(self.index_info@[mid_info.len() as int + (j
                                                    - pl.len())]@ == t.meta@.indices[pr[j
                                                    - pl.len()].0]);
                                                assert(self.index_values@[mid_info.len() as int + (
                                                j - pl.len())]@ == pr[j - pl.len()].1);
                                                assert(base + j == mid_info.len() + (j
                                                    - pl.len()));
                                            }
                                        }
                                    },
                                    None => {},
                                }
                            }
                        }
                        r2
                    },
                    SqlBinaryOperator::Eq => {
                        match (&**left, &**right) {
                            (SqlExpr::Identifier(ident), SqlExpr::Value(v)) => {
                                proof {
                                    assert(crate::sqlast::eq_conjuncts(*expr) =~= seq![
                                        (ident.value@, *v),
                                    ]);
                                }
                                let value = match EncodeValue::from_parse_value(v) {
                                    Ok(value) => value,
                                    Err(e) => {
                                        proof {
                                            assert(!parse_value_ok(
                                                &crate::sqlast::eq_conjuncts(*expr)[0].1,
                                            ));
                                        }
                                        return Err(e);
                                    },
                                };
                                self.select_index(&ident.value, value, Ghost(*v))
                            },
                            (SqlExpr::Value(v), SqlExpr::Identifier(ident)) => {
                                proof {
                                    assert(crate::sqlast::eq_conjuncts(*expr) =~= seq![
                                        (ident.value@, *v),
                                    ]);
                                }
                                let value = match EncodeValue::from_parse_value(v) {
                                    Ok(value) => value,
                                    Err(e) => {
                                        proof {
                                            assert(!parse_value_ok(
                                                &crate::sqlast::eq_conjuncts(*expr)[0].1,
                                            ));
                                        }
                                        return Err(e);
                                    },
                                };
                                self.select_index(&ident.value, value, Ghost(*v))
                            },
                            _ => Ok(()),
                        }
                    },
                    SqlBinaryOperator::Other => Ok(()),
                }
            },
            _ => Ok(()),
        }
    }

    /// An equality on a unique or primary single-column index drives the
    /// plan; one on an ordinary column is kept for filtering; an unknown
    /// name is an error. The ghost literal records which conjunct the
    /// value was converted from.
    fn select_index(&mut self, col_name: &String, value: EncodeValue, lit: Ghost<SqlValue>) -> (r:
        MySQLResult<()>)
        requires
            old(self).inv(),
            parse_value_ok(&lit@),
            value@ == spec_parse_value(&lit@),
        ensures
            final(self).inv(),
            final(self).table == old(self).table,
            final(self).point_get == old(self).point_get,
            final(self).select_columns == old(self).select_columns,
            final(self).filters == old(self).filters,
            match old(self).table {
                Some(t) => ({
                    let cand = seq![(col_name@, lit@)];
                    &&& (r is Ok <==> cands_ok(t.meta@, cand))
                    &&& (r is Ok ==> ({
                        let picked = picked_indexes(t.meta@, cand);
                        &&& final(self).index_info@.len() == old(self).index_info@.len()
                            + picked.len()
                        &&& final(self).index_values@.len() == final(self).index_info@.len()
                        &&& forall|j: int|
                            0 <= j < old(self).index_info@.len() ==> (#[trigger] final(self).index_info@[j]) == old(self).index_info@[j] && final(self).index_values@[j] == old(self).index_values@[j]
                        &&& forall|j: int|
                            0 <= j < picked.len() ==> (#[trigger] final(self).index_info@[old(self).index_info@.len() + j])@
                                == t.meta@.indices[picked[j].0] && final(self).index_values@[old(self).index_info@.len() + j]@ == picked[j].1
                    }))
                    &&& (r matches Err(e) ==> e == MySQLError::NoColumn)
                }),
                None => r is Ok && final(self).index_info@ == old(self).index_info@ && final(self).index_values@ == old(self).index_values@,
            },
    {
        let name = to_lowercase(col_name.as_str());
        let ghost cand = seq![(col_name@, lit@)];
        proof {
            assert(cand[0].1 == lit@);
        }
        proof {
            assert(cand.subrange(1, 1) =~= Seq::<(Seq<char>, SqlValue)>::empty());
        }
        let t = match &self.table {
            Some(t) => t,
            None => {
                return Ok(());
            },
        };
        match t.get_index(&name) {
            Some(index) => {
                if index.primary || index.unique {
                    proof {
                        assert(index@.columns.len() == 1);
                    }
                    self.index_info.push(index);
                    self.index_values.push(value);
                    proof {
                        let tm = match &self.table {
                            Some(t2) => t2.meta@,
                            None => arbitrary(),
                        };
                        assert(cand[0].0 == col_name@);
                        assert(lower_of(cand[0].0) == name@);
                        assert(picked_indexes(tm, cand.subrange(1, 1)) =~= Seq::<
                            (int, crate::types::ValueView),
                        >::empty());
                        assert(picked_indexes(tm, cand) =~= seq![
                            (
                                latest_single_unique(tm.indices, name@, tm.indices.len() - 1),
                                spec_parse_value(&lit@),
                            ),
                        ]);
                        assert forall|k: int|
                            0 <= k < self.index_info@.len() implies (
                        #[trigger] self.index_info@[k])@.columns.len() == 1 && 0
                            <= self.index_info@[k]@.columns[0].1 < tm.columns.len() && (
                        self.index_info@[k]@.primary || self.index_info@[k]@.unique) by {
                            if k < self.index_info@.len() - 1 {
                                assert(old(self).index_info@[k] == self.index_info@[k]);
                            } else {
                                let li = latest_single_unique(
                                    tm.indices,
                                    name@,
                                    tm.indices.len() - 1,
                                );
                                crate::table::lemma_latest_su_props(
                                    tm.indices,
                                    name@,
                                    tm.indices.len() - 1,
                                );
                                assert(self.index_info@[k]@ == tm.indices[li]);
                                assert(0 <= (tm.indices[li].columns[0]).1 < tm.columns.len());
                            }
                        }
                    }
                }
                Ok(())
            },
            None => {
                match t.get_column(&name) {
                    Some(_col) => {
                        proof {
                            assert(cand[0].0 == col_name@);
                            assert(lower_of(cand[0].0) == name@);
                            assert(picked_indexes(t.meta@, cand.subrange(1, 1)) =~= Seq::<
                                (int, crate::types::ValueView),
                            >::empty());
                            assert(picked_indexes(t.meta@, cand) =~= Seq::<
                                (int, crate::types::ValueView),
                            >::empty());
                        }
                        Ok(())
                    },
                    None => Err(MySQLError::NoColumn),
                }
            },
        }
    }
}

/// Whether an INSERT statement binds cleanly against a table: every
/// named column exists, the source is literal VALUES rows of matching
/// arity, and every literal converts.
pub open spec fn insert_stmt_ok(
    t: crate::schema::TableMeta,
    columns: Seq<crate::sqlast::SqlIdent>,
    rows: Seq<Vec<SqlExpr>>,
) -> bool {
    &&& forall|i: int|
        0 <= i < columns.len() ==> exists|ci: int|
            0 <= ci < t.columns.len() && (#[trigger] t.columns[ci]).name == lower_of(
                (#[trigger] columns[i]).value@,
            )
    &&& forall|r: int| 0 <= r < rows.len() ==> (#[trigger] rows[r])@.len() == columns.len()
    &&& forall|r: int, j: int|
        0 <= r < rows.len() && 0 <= j < rows[r]@.len() ==> ((#[trigger] rows[r]@[j]) matches
            SqlExpr::Value(v) && parse_value_ok(&v))
}

/// Turns one parsed statement into an executable plan.
#[derive(Debug)]
pub struct PlanBuilder {}

impl PlanBuilder {
    pub fn create() -> (r: PlanBuilder) {
        PlanBuilder {  }
    }

    /// Elaborate a parsed statement: queries go through the point-get
    /// recognizer, inserts bind their columns and literal rows, CREATE
    /// TABLE elaborates its definitions, CREATE INDEX binds its columns;
    /// every other statement category is unsupported.
    pub fn statement_to_plan(
        &self,
        session: &mut Session,
        mgr: &DBTableManager,
        statement: &SqlStatement,
    ) -> (r: MySQLResult<PlanNode>)
        requires
            mgr.wf(),
            old(session).cache_ok(mgr),
        ensures
            final(session).cache_ok(mgr),
            final(session).db == old(session).db,
            final(session).transaction == old(session).transaction,
            match r {
                Ok(plan) => match plan {
                    PlanNode::PointGet(p) => point_get_wf(&p) && (statement matches
                        SqlStatement::Query(q) && !q.has_limit && !q.has_order_by && (q.body
                        matches SqlSetExpr::Select(s) && select_shape_ok(*s) && (lookup_meta(
                        *mgr,
                        select_from_name(*s),
                    ) matches Some(e) && ({
                        let picked = picked_indexes(e.0, select_eqs(*s));
                        &&& p.table.meta@ == e.0
                        &&& picked.len() > 0
                        &&& p.index_info@ == e.0.indices[picked[0].0]
                        &&& p.index_value@ == picked[0].1
                        &&& p.select_columns.columns@.len() == s.projection@.len()
                        &&& forall|i: int|
                            0 <= i < s.projection@.len() ==> ((#[trigger] s.projection@[i])
                                matches SqlSelectItem::UnnamedExpr(SqlExpr::Identifier(id))
                                && p.select_columns.columns@[i]@.name == lower_of(id.value@))
                    })))),
                    PlanNode::CreateTable(p) => create_table_wf(p.table_info@) && p.table_info@.id
                        == 0 && p.table_info@.max_row_id == 0 && (statement matches
                        SqlStatement::CreateTable { name, columns, constraints } && crate::schema::ddl_ok(
                        &name,
                        columns@,
                        constraints@,
                    ) && p.table_info@.name == lower_of(name.0@.last().value@)
                        && p.table_info@.columns.len() == columns@.len() && (forall|i: int|
                        0 <= i < columns@.len() ==> p.table_info@.columns[i] == spec_column(
                            columns@,
                            constraints@,
                            i,
                        ))),
                    PlanNode::CreateIndex(p) => create_index_wf(&p) && p.index_info@.state
                        is Public && !p.index_info@.primary && (statement matches
                        SqlStatement::CreateIndex { name, table_name, columns, unique } && ({
                        &&& lookup_meta(*mgr, lower_of(table_name.0@.last().value@))
                            matches Some(e) && p.table.meta@ == e.0
                        &&& p.index_info@.unique == unique
                        &&& p.index_info@.columns.len() == columns@.len()
                        &&& forall|a: int, b: int|
                            0 <= a <= b < p.index_info@.columns.len()
                                ==> (#[trigger] p.index_info@.columns[a]).1
                                <= (#[trigger] p.index_info@.columns[b]).1
                        &&& forall|j: int|
                            0 <= j < p.index_info@.columns.len() ==> 0 <= (
                            #[trigger] p.index_info@.columns[j]).1 < p.table.meta@.columns.len()
                                && p.index_info@.columns[j].0
                                == p.table.meta@.columns[p.index_info@.columns[j].1].name
                    })),
                    PlanNode::Insert(p) => p.table.wf() && (statement matches
                        SqlStatement::Insert { table_name, columns, source } && (lookup_meta(
                        *mgr,
                        lower_of(table_name.0@.last().value@),
                    ) matches Some(e) && ({
                        &&& p.table.meta@ == e.0
                        &&& p.schema.columns@.len() == columns@.len()
                        &&& forall|i: int|
                            0 <= i < columns@.len()
                                ==> (#[trigger] p.schema.columns@[i])@.name == lower_of(
                                columns@[i].value@,
                            ) && exists|ci: int|
                                0 <= ci < e.0.columns.len() && p.schema.columns@[i]@
                                    == e.0.columns[ci]
                        &&& (source.body matches SqlSetExpr::Values(rows) && ({
                            &&& p.values@.len() == rows@.len()
                            &&& forall|x: int|
                                0 <= x < rows@.len() ==> (#[trigger] p.values@[x])@.len()
                                    == columns@.len()
                            &&& forall|x: int, j: int|
                                0 <= x < rows@.len() && 0 <= j < rows@[x]@.len()
                                    ==> ((#[trigger] rows@[x]@[j]) matches SqlExpr::Value(v)
                                    && parse_value_ok(&v) && p.values@[x]@[j]@
                                    == spec_parse_value(&v))
                        }))
                    }))),
                },
                Err(e) => {
                    &&& (e matches MySQLError::NoTable(n) ==> lookup_meta(*mgr, n@) is None)
                    &&& (e == MySQLError::ColumnMissMatch ==> (statement matches
                        SqlStatement::Insert { table_name, columns, source } ==> (source.body
                        matches SqlSetExpr::Values(rows) && exists|x: int|
                            0 <= x < rows@.len() && (#[trigger] rows@[x])@.len()
                                != columns@.len())))
                },
            },
            // Success is owed on clean statements of each supported kind.
            (statement matches SqlStatement::Query(q) && !q.has_limit && !q.has_order_by && (
            q.body matches SqlSetExpr::Select(s) && select_shape_ok(*s) && select_db_ok(
                *s,
                old(session).db@,
            ) && (lookup_meta(*mgr, select_from_name(*s)) matches Some(e) && cands_ok(
                e.0,
                select_eqs(*s),
            ) && picked_indexes(e.0, select_eqs(*s)).len() > 0 && proj_ok(e.0, s.projection@))))
                ==> r is Ok,
            (statement matches SqlStatement::CreateTable { name, columns, constraints }
                && crate::schema::ddl_ok(&name, columns@, constraints@)) ==> r is Ok,
            (statement matches SqlStatement::Insert { table_name, columns, source }
                && table_name.0@.len() > 0 && (lookup_meta(
                *mgr,
                lower_of(table_name.0@.last().value@),
            ) matches Some(e) && (source.body matches SqlSetExpr::Values(rows) && insert_stmt_ok(
                e.0,
                columns@,
                rows@,
            )))) ==> r is Ok,
    {
        match statement {
            SqlStatement::Query(q) => {
                let builder = QueryPlanBuilder::new();
                match builder.try_point_get(session, mgr, q)? {
                    Some(plan) => Ok(PlanNode::PointGet(plan)),
                    None => Err(MySQLError::UnsupportSQL),
                }
            },
            SqlStatement::Insert { table_name, columns, source } => {
                if table_name.0.len() == 0 {
                    return Err(MySQLError::UnsupportSQL);
                }
                let p = Self::build_insert_plan(session, mgr, table_name, columns, source)?;
                Ok(PlanNode::Insert(p))
            },
            SqlStatement::CreateTable { name, columns, constraints } => {
                let table_info = TableInfo::create(name, columns, constraints)?;
                proof {
                    assert forall|i: int|
                        0 <= i < table_info@.columns.len() implies (
                    #[trigger] table_info@.columns[i]).id == i + 1 && table_info@.columns[i].offset
                        == i by {
                        assert(table_info@.columns[i] == spec_column(columns@, constraints@, i));
                    }
                    assert forall|k: int, j: int|
                        0 <= k < table_info@.indices.len() && 0 <= j
                            < table_info@.indices[k].columns.len() implies 0 <= (
                    #[trigger] table_info@.indices[k].columns[j]).1
                        < table_info@.columns.len() by {
                        assert(table_info@.indices[k] == spec_index(
                            columns@,
                            constraints@,
                            k,
                            table_info@.name,
                        ));
                        let ac = all_constraints(columns@, constraints@);
                        assert(find_col_of(columns@, ac[k].columns[j]) >= 0) by {
                            assert(crate::schema::find_col(columns@, ac[k].columns[j], 0) >= 0);
                        }
                        lemma_find_col_props(columns@, ac[k].columns[j], 0);
                    }
                }
                Ok(PlanNode::CreateTable(CreateTablePlan { table_info }))
            },
            SqlStatement::CreateIndex { name, table_name, columns, unique } => {
                if table_name.0.len() == 0 {
                    return Err(MySQLError::UnsupportSQL);
                }
                let p = Self::build_create_index_plan(session, mgr, name, table_name, columns, *unique)?;
                Ok(PlanNode::CreateIndex(p))
            },
            SqlStatement::Other => Err(MySQLError::UnsupportSQL),
        }
    }
/// Bind an INSERT statement against the catalog: resolve the named
/// columns, check each VALUES row's arity, and convert every literal.
fn build_insert_plan(
    session: &mut Session,
    mgr: &DBTableManager,
    table_name: &crate::sqlast::SqlObjectName,
    columns: &Vec<crate::sqlast::SqlIdent>,
    source: &SqlQuery,
) -> (r: MySQLResult<InsertPlan>)
    requires
        mgr.wf(),
        old(session).cache_ok(mgr),
        table_name.0@.len() > 0,
    ensures
        final(session).cache_ok(mgr),
        final(session).db == old(session).db,
        final(session).transaction == old(session).transaction,
        ({
            let nm = lower_of(table_name.0@.last().value@);
            match r {
                Ok(p) => p.table.wf() && (lookup_meta(*mgr, nm) matches Some(e) && ({
                    &&& p.table.meta@ == e.0
                    &&& p.schema.columns@.len() == columns@.len()
                    &&& forall|i: int|
                        0 <= i < columns@.len() ==> (#[trigger] p.schema.columns@[i])@.name
                            == lower_of(columns@[i].value@) && exists|ci: int|
                            0 <= ci < e.0.columns.len() && p.schema.columns@[i]@ == e.0.columns[ci]
                    &&& (source.body matches SqlSetExpr::Values(rows) && ({
                        &&& p.values@.len() == rows@.len()
                        &&& forall|x: int|
                            0 <= x < rows@.len() ==> (#[trigger] p.values@[x])@.len()
                                == columns@.len()
                        &&& forall|x: int, j: int|
                            0 <= x < rows@.len() && 0 <= j < rows@[x]@.len() ==> ((
                            #[trigger] rows@[x]@[j]) matches SqlExpr::Value(v) && parse_value_ok(
                                &v,
                            ) && p.values@[x]@[j]@ == spec_parse_value(&v))
                    }))
                })),
                Err(e) => {
                    &&& (e matches MySQLError::NoTable(n) ==> lookup_meta(*mgr, n@) is None)
                    &&& (e == MySQLError::ColumnMissMatch ==> (source.body matches
                        SqlSetExpr::Values(rows) && exists|x: int|
                            0 <= x < rows@.len() && (#[trigger] rows@[x])@.len()
                                != columns@.len()))
                    &&& (e matches MySQLError::NoTable(_) || e == MySQLError::NoColumn || e
                        == MySQLError::ColumnMissMatch || e == MySQLError::UnsupportSQL || e
                        is ParseError)
                },
            }
        }),
        (lookup_meta(*mgr, lower_of(table_name.0@.last().value@)) matches Some(e) && (source.body
            matches SqlSetExpr::Values(rows) && insert_stmt_ok(e.0, columns@, rows@))) ==> r is Ok,
{
    let tname = to_lowercase(table_name.0[table_name.0.len() - 1].value.as_str());
    let table = match session.get_table(mgr, &tname) {
        Some(t) => t,
        None => {
            return Err(MySQLError::NoTable(tname));
        },
    };
    let ghost ent = lookup_meta(*mgr, tname@)->Some_0;
    let mut bound: Vec<ColumnInfo> = Vec::new();
    let ncols = columns.len();
    let mut i: usize = 0;
    while i < ncols
        invariant
            i <= ncols,
            ncols == columns@.len(),
            table.wf(),
            lookup_meta(*mgr, lower_of(table_name.0@.last().value@)) == Some(ent),
            table.meta@ == ent.0,
            bound@.len() == i,
            forall|x: int|
                0 <= x < i ==> (#[trigger] bound@[x])@.name == lower_of(columns@[x].value@)
                    && exists|ci: int|
                    0 <= ci < ent.0.columns.len() && bound@[x]@ == ent.0.columns[ci],
            mgr.wf(),
            session.cache_ok(mgr),
            session.db == old(session).db,
            session.transaction == old(session).transaction,
        decreases ncols - i,
    {
        let col_name = to_lowercase(columns[i].value.as_str());
        match table.get_column(&col_name) {
            Some(col) => {
                proof {
                    let ci = choose|ci: int|
                        0 <= ci < table.meta@.columns.len() && col@ == table.meta@.columns[ci]
                            && col@.name == col_name@;
                    assert(bound@.push(col)[i as int]@ == ent.0.columns[ci]);
                }
                bound.push(col);
            },
            None => {
                proof {
                    assert(!insert_stmt_ok(ent.0, columns@, match source.body {
                        SqlSetExpr::Values(rows) => rows@,
                        _ => Seq::empty(),
                    })) by {
                        if insert_stmt_ok(ent.0, columns@, match source.body {
                            SqlSetExpr::Values(rows) => rows@,
                            _ => Seq::empty(),
                        }) {
                            let ci = choose|ci: int|
                                0 <= ci < ent.0.columns.len()
                                    && (#[trigger] ent.0.columns[ci]).name == lower_of(
                                    columns@[i as int].value@,
                                );
                            assert(table.meta@.columns[ci].name == col_name@);
                        }
                    }
                }
                return Err(MySQLError::NoColumn);
            },
        }
        i += 1;
    }
    match &source.body {
        SqlSetExpr::Values(rows) => {
            let mut ec_values: Vec<Vec<EncodeValue>> = Vec::new();
            let nrows = rows.len();
            let mut ri: usize = 0;
            while ri < nrows
                invariant
                    ri <= nrows,
                    nrows == rows@.len(),
                    table.wf(),
                    source.body matches SqlSetExpr::Values(rw) && rw@ == rows@,
                    lookup_meta(*mgr, lower_of(table_name.0@.last().value@)) == Some(ent),
                    table.meta@ == ent.0,
                    ncols == columns@.len(),
                    ec_values@.len() == ri,
                    forall|x: int|
                        0 <= x < ri ==> (#[trigger] ec_values@[x])@.len() == columns@.len(),
                    forall|x: int, j: int|
                        0 <= x < ri && 0 <= j < rows@[x]@.len() ==> ((#[trigger] rows@[x]@[j])
                            matches SqlExpr::Value(v) && parse_value_ok(&v) && ec_values@[x]@[j]@
                            == spec_parse_value(&v)),
                    mgr.wf(),
                    session.cache_ok(mgr),
                    session.db == old(session).db,
                    session.transaction == old(session).transaction,
                decreases nrows - ri,
            {
                let rowexprs = &rows[ri];
                if rowexprs.len() != ncols {
                    return Err(MySQLError::ColumnMissMatch);
                }
                let mut one: Vec<EncodeValue> = Vec::new();
                let m = rowexprs.len();
                let mut j: usize = 0;
                while j < m
                    invariant
                        j <= m,
                        ri < rows@.len(),
                        m == rowexprs@.len(),
                        rowexprs@ == rows@[ri as int]@,
                        source.body matches SqlSetExpr::Values(rw) && rw@ == rows@,
                        lookup_meta(*mgr, lower_of(table_name.0@.last().value@)) == Some(ent),
                        table.wf(),
                        table.meta@ == ent.0,
                        ncols == columns@.len(),
                        one@.len() == j,
                        forall|x: int|
                            0 <= x < j ==> ((#[trigger] rowexprs@[x]) matches SqlExpr::Value(v)
                                && parse_value_ok(&v) && one@[x]@ == spec_parse_value(&v)),
                        mgr.wf(),
                        session.cache_ok(mgr),
                        session.db == old(session).db,
                        session.transaction == old(session).transaction,
                    decreases m - j,
                {
                    match &rowexprs[j] {
                        SqlExpr::Value(v) => {
                            match EncodeValue::from_parse_value(v) {
                                Ok(ev) => {
                                    one.push(ev);
                                },
                                Err(e) => {
                                    proof {
                                        assert(!insert_stmt_ok(ent.0, columns@, rows@)) by {
                                            assert(rows@[ri as int]@[j as int] == rowexprs@[j as int]);
                                        }
                                    }
                                    return Err(e);
                                },
                            }
                        },
                        _ => {
                            proof {
                                assert(!insert_stmt_ok(ent.0, columns@, rows@)) by {
                                    assert(rows@[ri as int]@[j as int] == rowexprs@[j as int]);
                                }
                            }
                            return Err(MySQLError::UnsupportSQL);
                        },
                    }
                    j += 1;
                }
                ec_values.push(one);
                ri += 1;
            }
            Ok(InsertPlan { table, values: ec_values, schema: DataSchema { columns: bound } })
        },
        _ => Err(MySQLError::UnsupportSQL),
    }
}

/// Bind a CREATE INDEX statement: resolve each named column and keep the
/// covered list sorted by declaration offset, as the executor stores it.
fn build_create_index_plan(
    session: &mut Session,
    mgr: &DBTableManager,
    name: &crate::sqlast::SqlObjectName,
    table_name: &crate::sqlast::SqlObjectName,
    columns: &Vec<crate::sqlast::SqlOrderByExpr>,
    unique: bool,
) -> (r: MySQLResult<CreateIndexPlan>)
    requires
        mgr.wf(),
        old(session).cache_ok(mgr),
        table_name.0@.len() > 0,
    ensures
        final(session).cache_ok(mgr),
        final(session).db == old(session).db,
        final(session).transaction == old(session).transaction,
        ({
            let nm = lower_of(table_name.0@.last().value@);
            match r {
                Ok(p) => create_index_wf(&p) && p.index_info@.state is Public
                    && !p.index_info@.primary && (lookup_meta(*mgr, nm) matches Some(e) && ({
                    &&& p.table.meta@ == e.0
                    &&& p.index_info@.unique == unique
                    &&& p.index_info@.columns.len() == columns@.len()
                    &&& forall|a: int, b: int|
                        0 <= a <= b < p.index_info@.columns.len()
                            ==> (#[trigger] p.index_info@.columns[a]).1
                            <= (#[trigger] p.index_info@.columns[b]).1
                    &&& forall|j: int|
                        0 <= j < p.index_info@.columns.len() ==> 0 <= (
                        #[trigger] p.index_info@.columns[j]).1 < e.0.columns.len()
                            && p.index_info@.columns[j].0
                            == e.0.columns[p.index_info@.columns[j].1].name
                })),
                Err(e) => {
                    &&& (e matches MySQLError::NoTable(n) ==> lookup_meta(*mgr, n@) is None)
                    &&& (e matches MySQLError::NoTable(_) || e == MySQLError::NoColumn || e
                        == MySQLError::UnsupportSQL)
                },
            }
        }),
{
    let tname = to_lowercase(table_name.0[table_name.0.len() - 1].value.as_str());
    let index_name = if name.0.len() > 0 {
        to_lowercase(name.0[name.0.len() - 1].value.as_str())
    } else {
        String::new()
    };
    let table = match session.get_table(mgr, &tname) {
        Some(t) => t,
        None => {
            return Err(MySQLError::NoTable(tname));
        },
    };
    let ghost ent = lookup_meta(*mgr, tname@)->Some_0;
    let mut column_infos: Vec<(String, usize)> = Vec::new();
    let n = columns.len();
    let mut i: usize = 0;
    while i < n
        invariant
            i <= n,
            n == columns@.len(),
            table.wf(),
            lookup_meta(*mgr, lower_of(table_name.0@.last().value@)) == Some(ent),
            table.meta@ == ent.0,
            mgr.wf(),
            session.cache_ok(mgr),
            session.db == old(session).db,
            session.transaction == old(session).transaction,
            column_infos@.len() == i,
            forall|j: int|
                0 <= j < column_infos@.len() ==> (#[trigger] column_infos@[j]).1
                    < table.meta@.columns.len(),
            forall|a: int, b: int|
                0 <= a <= b < column_infos@.len() ==> column_infos@[a].1 <= column_infos@[b].1,
            forall|j: int|
                0 <= j < column_infos@.len() ==> (#[trigger] column_infos@[j]).1
                    < ent.0.columns.len() && column_infos@[j].0@
                    == ent.0.columns[column_infos@[j].1 as int].name,
        decreases n - i,
    {
        match &columns[i].expr {
            SqlExpr::Identifier(ident) => {
                let col_name = to_lowercase(ident.value.as_str());
                match table.get_column(&col_name) {
                    Some(col) => {
                        // Keep the list sorted by offset.
                        let mut pos: usize = 0;
                        let cl = column_infos.len();
                        while pos < cl
                            invariant
                                pos <= cl,
                                cl == column_infos@.len(),
                                forall|a: int|
                                    0 <= a < pos ==> (#[trigger] column_infos@[a]).1
                                        <= col.offset,
                                forall|a: int, b: int|
                                    0 <= a <= b < column_infos@.len() ==> column_infos@[a].1
                                        <= column_infos@[b].1,
                            ensures
                                pos <= column_infos@.len(),
                                forall|a: int|
                                    0 <= a < pos ==> (#[trigger] column_infos@[a]).1
                                        <= col.offset,
                                forall|a: int|
                                    pos <= a < column_infos@.len() ==> (
                                    #[trigger] column_infos@[a]).1 >= col.offset,
                            decreases cl - pos,
                        {
                            if column_infos[pos].1 > col.offset {
                                proof {
                                    assert(forall|a: int|
                                        pos <= a < column_infos@.len() ==> (
                                        #[trigger] column_infos@[a]).1
                                            >= column_infos@[pos as int].1);
                                }
                                break ;
                            }
                            pos += 1;
                        }
                        proof {
                            let ci = choose|ci: int|
                                0 <= ci < table.meta@.columns.len() && col@
                                    == table.meta@.columns[ci] && col@.name == col_name@;
                            assert(table.meta@.columns[ci].id == ci + 1);
                            assert(table.meta@.columns[ci].offset == ci);
                            assert(col@.offset < table.meta@.columns.len());
                        }
                        let ghost infos0 = column_infos@;
                        let coff = col.offset;
                        column_infos.insert(pos, (col.name, coff));
                        proof {
                            assert forall|a: int, b: int|
                                0 <= a <= b < column_infos@.len() implies column_infos@[a].1
                                <= column_infos@[b].1 by {
                                if a < pos && b < pos {
                                } else if a == pos || b == pos {
                                    if a < pos {
                                        assert(column_infos@[a] == infos0[a]);
                                    }
                                    if b > pos {
                                        assert(column_infos@[b] == infos0[b - 1]);
                                    }
                                } else if a > pos && b > pos {
                                    assert(column_infos@[a] == infos0[a - 1]);
                                    assert(column_infos@[b] == infos0[b - 1]);
                                } else {
                                    assert(column_infos@[a] == infos0[a]);
                                    assert(column_infos@[b] == infos0[b - 1]);
                                    assert(infos0[a].1 <= coff);
                                    assert(infos0[b - 1].1 >= coff);
                                }
                            }
                            assert forall|j: int|
                                0 <= j < column_infos@.len() implies ((
                            #[trigger] column_infos@[j]).1 < table.meta@.columns.len()
                                && column_infos@[j].0@
                                == ent.0.columns[column_infos@[j].1 as int].name) by {
                                if j < pos {
                                    assert(column_infos@[j] == infos0[j]);
                                } else if j > pos {
                                    assert(column_infos@[j] == infos0[j - 1]);
                                } else {
                                    let ci = choose|ci: int|
                                        0 <= ci < table.meta@.columns.len() && col@
                                            == table.meta@.columns[ci] && col@.name == col_name@;
                                    assert(column_infos@[j].1 == ci);
                                    assert(column_infos@[j].0@ == ent.0.columns[ci].name);
                                }
                            }
                        }
                    },
                    None => {
                        return Err(MySQLError::NoColumn);
                    },
                }
            },
            _ => {
                return Err(MySQLError::UnsupportSQL);
            },
        }
        i += 1;
    }
    let ghost infos_final = column_infos@;
    let index_info = IndexInfo {
        id: 0,
        name: index_name,
        table_name: table.meta.name.clone(),
        columns: column_infos,
        state: TableState::Public,
        primary: false,
        unique,
    };
    proof {
        assert(index_info@.columns.len() == infos_final.len());
        assert forall|j: int|
            0 <= j < index_info@.columns.len() implies (#[trigger] index_info@.columns[j]).0
            == infos_final[j].0@ && index_info@.columns[j].1 == infos_final[j].1 by {}
    }
    Ok(CreateIndexPlan { index_info, table })
}

}

/// The first declaration offset carrying this lowercase name.
pub open spec fn find_col_of(defs: Seq<crate::sqlast::SqlColumnDef>, n: Seq<char>) -> int {
    crate::schema::find_col(defs, n, 0)
}

} // verus!
