use naive_sql::common::DataBlock;
use naive_sql::errors::{MySQLError, MySQLResult};
use naive_sql::executor::ExecutorBuilder;
use naive_sql::mem::MemStorage;
use naive_sql::planner::{PlanBuilder, PlanNode};
use naive_sql::session::Session;
use naive_sql::sqlast::{
    SqlBinaryOperator, SqlColumnDef, SqlColumnOption, SqlExpr, SqlIdent, SqlObjectName, SqlQuery,
    SqlSelect, SqlSelectItem, SqlSetExpr, SqlStatement, SqlTableWithJoins, SqlValue,
};
use naive_sql::table_manager::DBTableManager;
use naive_sql::types::{DataType, EncodeValue};

fn ident(s: &str) -> SqlIdent {
    SqlIdent { value: s.to_string() }
}

fn obj(parts: &[&str]) -> SqlObjectName {
    SqlObjectName(parts.iter().map(|p| ident(p)).collect())
}

fn num(s: &str) -> SqlExpr {
    SqlExpr::Value(SqlValue::Number(s.to_string()))
}

fn strv(s: &str) -> SqlExpr {
    SqlExpr::Value(SqlValue::SingleQuotedString(s.to_string()))
}

fn col_def(name: &str, tp: DataType, options: Vec<SqlColumnOption>) -> SqlColumnDef {
    SqlColumnDef { name: ident(name), data_type: tp, options }
}

fn create_table(name: &str, columns: Vec<SqlColumnDef>) -> SqlStatement {
    SqlStatement::CreateTable { name: obj(&[name]), columns, constraints: Vec::new() }
}

fn insert(table: &str, cols: &[&str], vals: Vec<SqlExpr>) -> SqlStatement {
    SqlStatement::Insert {
        table_name: obj(&[table]),
        columns: cols.iter().map(|c| ident(c)).collect(),
        source: Box::new(SqlQuery {
            body: SqlSetExpr::Values(vec![vals]),
            has_limit: false,
            has_order_by: false,
        }),
    }
}

fn select_where(proj: &[&str], table: &[&str], wcol: &str, wval: SqlExpr) -> SqlStatement {
    SqlStatement::Query(Box::new(SqlQuery {
        body: SqlSetExpr::Select(Box::new(SqlSelect {
            projection: proj
                .iter()
                .map(|p| SqlSelectItem::UnnamedExpr(SqlExpr::Identifier(ident(p))))
                .collect(),
            from: vec![SqlTableWithJoins { relation: Some(obj(table)), has_joins: false }],
            selection: Some(SqlExpr::BinaryOp {
                op: SqlBinaryOperator::Eq,
                left: Box::new(SqlExpr::Identifier(ident(wcol))),
                right: Box::new(wval),
            }),
            has_top: false,
        })),
        has_limit: false,
        has_order_by: false,
    }))
}

fn run(
    stmt: &SqlStatement,
    session: &mut Session,
    mgr: &mut DBTableManager,
    storage: &mut MemStorage,
) -> MySQLResult<Vec<DataBlock>> {
    let pb = PlanBuilder::create();
    let plan = pb.statement_to_plan(session, mgr, stmt)?;
    let node = ExecutorBuilder::build(plan);
    node.execute(session, mgr, storage)
}

fn sbtest_ddl() -> SqlStatement {
    create_table(
        "sbtest",
        vec![
            col_def("id", DataType::Int, vec![SqlColumnOption::Unique { is_primary: true }]),
            col_def("k", DataType::Varchar, vec![]),
        ],
    )
}

#[test]
fn create_insert_point_get() {
    let mut session = Session::new();
    let mut mgr = DBTableManager::new();
    let mut storage = MemStorage::new();
    run(&sbtest_ddl(), &mut session, &mut mgr, &mut storage).unwrap();
    run(
        &insert("sbtest", &["id", "k"], vec![num("1"), strv("foo")]),
        &mut session,
        &mut mgr,
        &mut storage,
    )
    .unwrap();
    let blocks = run(
        &select_where(&["k"], &["sbtest"], "id", num("1")),
        &mut session,
        &mut mgr,
        &mut storage,
    )
    .unwrap();
    assert_eq!(blocks.len(), 1);
    assert_eq!(blocks[0].data.len(), 1);
    assert_eq!(blocks[0].data[0], vec![EncodeValue::Bytes(b"foo".to_vec())]);
}

#[test]
fn duplicate_primary_key() {
    let mut session = Session::new();
    let mut mgr = DBTableManager::new();
    let mut storage = MemStorage::new();
    run(&sbtest_ddl(), &mut session, &mut mgr, &mut storage).unwrap();
    let ins = insert("sbtest", &["id", "k"], vec![num("1"), strv("foo")]);
    run(&ins, &mut session, &mut mgr, &mut storage).unwrap();
    let e = run(&ins, &mut session, &mut mgr, &mut storage).unwrap_err();
    assert!(matches!(e, MySQLError::KeyExist));
}

#[test]
fn auto_increment_ids() {
    let mut session = Session::new();
    let mut mgr = DBTableManager::new();
    let mut storage = MemStorage::new();
    let ddl = create_table(
        "t",
        vec![
            col_def(
                "id",
                DataType::Int,
                vec![SqlColumnOption::AutoIncrement, SqlColumnOption::Unique {
                    is_primary: true,
                }],
            ),
            col_def("v", DataType::Int, vec![]),
        ],
    );
    run(&ddl, &mut session, &mut mgr, &mut storage).unwrap();
    for _ in 0..3 {
        run(
            &insert("t", &["v"], vec![num("10")]),
            &mut session,
            &mut mgr,
            &mut storage,
        )
        .unwrap();
    }
    let blocks = run(
        &select_where(&["id"], &["t"], "id", num("2")),
        &mut session,
        &mut mgr,
        &mut storage,
    )
    .unwrap();
    assert_eq!(blocks[0].data[0], vec![EncodeValue::Int(2)]);
    let blocks = run(
        &select_where(&["id"], &["t"], "id", num("3")),
        &mut session,
        &mut mgr,
        &mut storage,
    )
    .unwrap();
    assert_eq!(blocks[0].data[0], vec![EncodeValue::Int(3)]);
}

#[test]
fn unknown_column_in_where() {
    let mut session = Session::new();
    let mut mgr = DBTableManager::new();
    let mut storage = MemStorage::new();
    run(&sbtest_ddl(), &mut session, &mut mgr, &mut storage).unwrap();
    let e = run(
        &select_where(&["x"], &["sbtest"], "id", num("1")),
        &mut session,
        &mut mgr,
        &mut storage,
    )
    .unwrap_err();
    assert!(matches!(e, MySQLError::NoColumn));
}

#[test]
fn create_index_then_point_get() {
    let mut session = Session::new();
    let mut mgr = DBTableManager::new();
    let mut storage = MemStorage::new();
    run(&sbtest_ddl(), &mut session, &mut mgr, &mut storage).unwrap();
    let create_index = SqlStatement::CreateIndex {
        name: obj(&["k_idx"]),
        table_name: obj(&["sbtest"]),
        columns: vec![naive_sql::sqlast::SqlOrderByExpr {
            expr: SqlExpr::Identifier(ident("k")),
        }],
        unique: true,
    };
    run(&create_index, &mut session, &mut mgr, &mut storage).unwrap();
    run(
        &insert("sbtest", &["id", "k"], vec![num("1"), strv("foo")]),
        &mut session,
        &mut mgr,
        &mut storage,
    )
    .unwrap();
    let blocks = run(
        &select_where(&["id"], &["sbtest"], "k", strv("foo")),
        &mut session,
        &mut mgr,
        &mut storage,
    )
    .unwrap();
    assert_eq!(blocks.len(), 1);
    assert_eq!(blocks[0].data[0], vec![EncodeValue::Int(1)]);
}

#[test]
fn test_build_point_get_plan() {
    let mut session = Session::new();
    let mut mgr = DBTableManager::new();
    let mut storage = MemStorage::new();
    run(&sbtest_ddl(), &mut session, &mut mgr, &mut storage).unwrap();
    let stmt = select_where(&["k"], &["sbtest"], "id", num("1"));
    let pb = PlanBuilder::create();
    let plan = pb.statement_to_plan(&mut session, &mgr, &stmt).unwrap();
    match plan {
        PlanNode::PointGet(plan) => {
            assert_eq!(plan.index_value, EncodeValue::Int(1));
        }
        _ => panic!("expected a point get plan"),
    }
}

#[test]
fn identifier_case_folding() {
    // Names fold to lowercase everywhere: a table created under one case
    // is found under another.
    let mut session = Session::new();
    let mut mgr = DBTableManager::new();
    let mut storage = MemStorage::new();
    let ddl = create_table(
        "SBTest",
        vec![
            col_def("ID", DataType::Int, vec![SqlColumnOption::Unique { is_primary: true }]),
            col_def("K", DataType::Varchar, vec![]),
        ],
    );
    run(&ddl, &mut session, &mut mgr, &mut storage).unwrap();
    run(
        &insert("SBTEST", &["Id", "k"], vec![num("1"), strv("foo")]),
        &mut session,
        &mut mgr,
        &mut storage,
    )
    .unwrap();
    let blocks = run(
        &select_where(&["K"], &["sbtest"], "iD", num("1")),
        &mut session,
        &mut mgr,
        &mut storage,
    )
    .unwrap();
    assert_eq!(blocks[0].data[0], vec![EncodeValue::Bytes(b"foo".to_vec())]);
}

#[test]
fn schema_qualified_table_needs_current_db() {
    let mut session = Session::new();
    let mut mgr = DBTableManager::new();
    let mut storage = MemStorage::new();
    run(&sbtest_ddl(), &mut session, &mut mgr, &mut storage).unwrap();
    let e = run(
        &select_where(&["k"], &["otherdb", "sbtest"], "id", num("1")),
        &mut session,
        &mut mgr,
        &mut storage,
    )
    .unwrap_err();
    assert!(matches!(e, MySQLError::NoDB));
}

#[test]
fn duplicate_index_refused() {
    let mut session = Session::new();
    let mut mgr = DBTableManager::new();
    let mut storage = MemStorage::new();
    run(&sbtest_ddl(), &mut session, &mut mgr, &mut storage).unwrap();
    let create_index = SqlStatement::CreateIndex {
        name: obj(&["k_idx"]),
        table_name: obj(&["sbtest"]),
        columns: vec![naive_sql::sqlast::SqlOrderByExpr {
            expr: SqlExpr::Identifier(ident("k")),
        }],
        unique: true,
    };
    run(&create_index, &mut session, &mut mgr, &mut storage).unwrap();
    let again = SqlStatement::CreateIndex {
        name: obj(&["k_idx2"]),
        table_name: obj(&["sbtest"]),
        columns: vec![naive_sql::sqlast::SqlOrderByExpr {
            expr: SqlExpr::Identifier(ident("k")),
        }],
        unique: true,
    };
    let e = run(&again, &mut session, &mut mgr, &mut storage).unwrap_err();
    assert!(matches!(e, MySQLError::IndexExist));
}

#[test]
fn insert_errors() {
    let mut session = Session::new();
    let mut mgr = DBTableManager::new();
    let mut storage = MemStorage::new();
    let ddl = create_table(
        "t2",
        vec![
            col_def("a", DataType::Int, vec![SqlColumnOption::Unique { is_primary: true }]),
            col_def("b", DataType::Int, vec![]),
        ],
    );
    run(&ddl, &mut session, &mut mgr, &mut storage).unwrap();
    // Arity mismatch between named columns and the VALUES row.
    let e = run(
        &insert("t2", &["a", "b"], vec![num("1")]),
        &mut session,
        &mut mgr,
        &mut storage,
    )
    .unwrap_err();
    assert!(matches!(e, MySQLError::ColumnMissMatch));
    // A column without a generator cannot be omitted.
    let e2 = run(
        &insert("t2", &["a"], vec![num("1")]),
        &mut session,
        &mut mgr,
        &mut storage,
    )
    .unwrap_err();
    assert!(matches!(e2, MySQLError::MissColumn(_)));
    // An unknown table is reported by name.
    let e3 = run(
        &insert("zzz", &["a"], vec![num("1")]),
        &mut session,
        &mut mgr,
        &mut storage,
    )
    .unwrap_err();
    assert!(matches!(e3, MySQLError::NoTable(_)));
    // An unsupported statement category.
    let e4 = run(&SqlStatement::Other, &mut session, &mut mgr, &mut storage).unwrap_err();
    assert!(matches!(e4, MySQLError::UnsupportSQL));
}

#[test]
fn default_value_fills_missing_column() {
    let mut session = Session::new();
    let mut mgr = DBTableManager::new();
    let mut storage = MemStorage::new();
    let ddl = create_table(
        "d",
        vec![
            col_def("a", DataType::Int, vec![SqlColumnOption::Unique { is_primary: true }]),
            col_def(
                "b",
                DataType::Int,
                vec![SqlColumnOption::Default {
                    value: SqlValue::Number("7".to_string()),
                    float_bits: None,
                }],
            ),
        ],
    );
    run(&ddl, &mut session, &mut mgr, &mut storage).unwrap();
    run(&insert("d", &["a"], vec![num("1")]), &mut session, &mut mgr, &mut storage).unwrap();
    let blocks = run(
        &select_where(&["b"], &["d"], "a", num("1")),
        &mut session,
        &mut mgr,
        &mut storage,
    )
    .unwrap();
    assert_eq!(blocks[0].data[0], vec![EncodeValue::Int(7)]);
}
