use naive_sql::decoder::EncoderRow;
use naive_sql::mem::{MemStorage, TransactionOptions};
use naive_sql::schema::{
    AutoIncrementIdGenerator, ColumnInfo, DataSchema, DefaultValueGenerator, IndexInfo, IndexType,
    TableInfo, TableState,
};
use naive_sql::table::TableSource;
use naive_sql::transaction::{AutoCommitContext, OptimisticTransactionContext, TransactionContext};
use naive_sql::types::{DataType, EncodeValue};

fn column(id: u64, name: &str, offset: usize, tp: DataType, key: IndexType) -> ColumnInfo {
    ColumnInfo {
        id,
        name: name.to_string(),
        offset,
        data_type: tp,
        default_value: None,
        comment: String::new(),
        key,
        not_null: false,
    }
}

fn create_table_source() -> TableSource {
    let fields = [
        ("id", DataType::Int),
        ("k", DataType::SmallInt),
        ("name", DataType::VarString),
        ("t", DataType::Int),
        ("content", DataType::VarString),
    ];
    let mut columns = Vec::new();
    for (i, (name, tp)) in fields.iter().enumerate() {
        let key = if i == 0 { IndexType::Primary } else { IndexType::Plain };
        columns.push(column((i + 1) as u64, name, i, *tp, key));
    }
    let info = TableInfo {
        id: 1,
        name: "sbtest".to_string(),
        columns,
        indices: vec![IndexInfo {
            id: 1,
            name: String::new(),
            table_name: "sbtest".to_string(),
            columns: vec![("id".to_string(), 0)],
            state: TableState::Public,
            primary: true,
            unique: false,
        }],
        state: TableState::Public,
        pk_is_handle: true,
        max_column_id: 5,
        max_index_id: 1,
        max_row_id: 0,
        update_ts: 0,
    };
    TableSource::new(info, 0)
}

#[test]
fn test_insert_and_get_record() {
    let mut table = create_table_source();
    let mut storage = MemStorage::new();
    let opts = TransactionOptions { pessimistic: false, no_timestamp: false };
    let txn = storage.new_transaction(&opts);
    let mut ctx = OptimisticTransactionContext::new(txn);
    let mut row = EncoderRow::new();
    let cols = table.meta.columns.clone();
    let values = vec![
        EncodeValue::Int(1),
        EncodeValue::Int(21),
        EncodeValue::Bytes("31".to_string().into_bytes()),
        EncodeValue::Int(41),
        EncodeValue::Bytes("51".to_string().into_bytes()),
    ];
    let handle = table
        .add_record(&mut ctx, &mut storage, &mut row, &cols, &values)
        .unwrap();
    ctx.commit(&mut storage).unwrap();
    // Only the record key was written: the table has no secondary index.
    assert_eq!(storage.data.len(), 1);
    let mut key = vec![b't'];
    key.extend_from_slice(&table.id.to_le_bytes());
    key.push(b'r');
    key.extend_from_slice(&handle);
    assert_eq!(storage.data[0].0, key);

    let mut reader = AutoCommitContext::new();
    let v = table
        .read_record(
            &mut reader,
            &mut storage,
            &DataSchema { columns: cols.clone() },
            &EncodeValue::Int(1),
        )
        .unwrap();
    assert_eq!(v, values);
    let v = table
        .read_record(
            &mut reader,
            &mut storage,
            &DataSchema {
                columns: vec![cols[1].clone(), cols[4].clone(), cols[2].clone()],
            },
            &EncodeValue::Int(1),
        )
        .unwrap();
    assert_eq!(
        v,
        vec![values[1].clone(), values[4].clone(), values[2].clone()]
    );
}

#[test]
fn duplicate_primary_key_on_probe() {
    // With a context that does not pre-check constraints, the second
    // insert of the same primary key fails eagerly.
    let mut table = create_table_source();
    let mut storage = MemStorage::new();
    let mut ctx = AutoCommitContext::new();
    let mut row = EncoderRow::new();
    let cols = table.meta.columns.clone();
    let values = vec![
        EncodeValue::Int(1),
        EncodeValue::Int(2),
        EncodeValue::Bytes(b"a".to_vec()),
        EncodeValue::Int(3),
        EncodeValue::Bytes(b"b".to_vec()),
    ];
    table
        .add_record(&mut ctx, &mut storage, &mut row, &cols, &values)
        .unwrap();
    row.clear();
    let e = table
        .add_record(&mut ctx, &mut storage, &mut row, &cols, &values)
        .unwrap_err();
    assert!(matches!(e, naive_sql::errors::MySQLError::KeyExist));
}

#[test]
fn missing_row_reads_empty() {
    let table = create_table_source();
    let mut storage = MemStorage::new();
    let mut reader = AutoCommitContext::new();
    let v = table
        .read_record(
            &mut reader,
            &mut storage,
            &DataSchema { columns: table.meta.columns.clone() },
            &EncodeValue::Int(99),
        )
        .unwrap();
    assert!(v.is_empty());
}

#[test]
fn generators() {
    let g = DefaultValueGenerator::new(EncodeValue::Int(7));
    assert_eq!(g.generate(), EncodeValue::Int(7));
    assert_eq!(g.generate(), EncodeValue::Int(7));
    let auto = AutoIncrementIdGenerator::new();
    let mut counter: u64 = 0;
    assert_eq!(auto.generate(&mut counter), EncodeValue::Int(1));
    assert_eq!(auto.generate(&mut counter), EncodeValue::Int(2));
    assert_eq!(counter, 2);
}

#[test]
fn table_source_lookups() {
    let table = create_table_source();
    let col = table.get_column(&"name".to_string()).unwrap();
    assert_eq!(col.offset, 2);
    assert!(table.get_column(&"missing".to_string()).is_none());
    let idx = table.get_index(&"id".to_string()).unwrap();
    assert!(idx.primary);
    // `k` is a plain column: no unique single-column index covers it.
    assert!(table.get_index(&"k".to_string()).is_none());
}

#[test]
fn wire_type_codes() {
    let mk = |tp: DataType| {
        column(1, "c", 0, tp, IndexType::Plain).to_mysql_column().unwrap().type_code
    };
    assert_eq!(mk(DataType::SmallInt), 2);
    assert_eq!(mk(DataType::Int), 3);
    assert_eq!(mk(DataType::BigInt), 3);
    assert_eq!(mk(DataType::Float), 4);
    assert_eq!(mk(DataType::Double), 4);
    assert_eq!(mk(DataType::Decimal), 0);
    assert_eq!(mk(DataType::Boolean), 2);
    assert_eq!(mk(DataType::Char), 15);
    assert_eq!(mk(DataType::Varchar), 15);
    assert_eq!(mk(DataType::Text), 15);
    assert_eq!(mk(DataType::VarString), 253);
    let e = column(1, "c", 0, DataType::Date, IndexType::Plain)
        .to_mysql_column()
        .unwrap_err();
    assert!(matches!(e, naive_sql::errors::MySQLError::UnsupportSQL));
}
