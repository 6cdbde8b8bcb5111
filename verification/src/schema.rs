use vstd::prelude::*;
use crate::errors::{MySQLError, MySQLResult};
use crate::numparse::{int_text_value, parse_i64, valid_i64_text};
use crate::sqlast::{lower_of, parse_value_ok, spec_parse_value, str_bytes, to_lowercase};
use crate::sqlast::{SqlColumnDef, SqlColumnOption, SqlIdent, SqlObjectName, SqlTableConstraint,
    SqlValue};
use crate::types::{is_bytes_type, is_int_type, DataType, EncodeValue, ValueView};

verus! {

/// Whether a table or index is visible to queries.
#[derive(Debug, Clone, Copy, PartialEq, Eq, Structural)]
pub enum TableState {
    Tombstone,
    Public,
}

/// The role a column plays in the table's keys.
#[derive(Debug, Clone, Copy, PartialEq, Eq, Structural)]
pub enum IndexType {
    Plain,
    Primary,
    MultipleUnqiue,
    Unique,
    Index,
}

/// A column's value generator: a constant default, or the shared
/// auto-increment row counter.
#[derive(Debug)]
pub enum ValueGenerator {
    DefaultConstant(DefaultValueGenerator),
    AutoIncrement(AutoIncrementIdGenerator),
}

/// The mathematical model of a generator.
#[verifier::ext_equal]
pub enum GenView {
    Constant(ValueView),
    AutoIncrement,
}

impl View for ValueGenerator {
    type V = GenView;

    open spec fn view(&self) -> GenView {
        match *self {
            ValueGenerator::DefaultConstant(g) => GenView::Constant(g.default_value@),
            ValueGenerator::AutoIncrement(_) => GenView::AutoIncrement,
        }
    }
}

impl Clone for ValueGenerator {
    fn clone(&self) -> (r: Self)
        ensures
            r@ == self@,
    {
        match self {
            ValueGenerator::DefaultConstant(g) => ValueGenerator::DefaultConstant(g.clone()),
            ValueGenerator::AutoIncrement(g) => ValueGenerator::AutoIncrement(
                AutoIncrementIdGenerator {  },
            ),
        }
    }
}

/// Produces the same constant on every call.
#[derive(Debug)]
pub struct DefaultValueGenerator {
    pub default_value: EncodeValue,
}

impl Clone for DefaultValueGenerator {
    fn clone(&self) -> (r: Self)
        ensures
            r.default_value@ == self.default_value@,
    {
        DefaultValueGenerator { default_value: self.default_value.clone() }
    }
}

impl DefaultValueGenerator {
    pub fn new(default_value: EncodeValue) -> (r: Self)
        ensures
            r.default_value@ == default_value@,
    {
        DefaultValueGenerator { default_value }
    }

    pub fn generate(&self) -> (r: EncodeValue)
        ensures
            r@ == self.default_value@,
    {
        self.default_value.clone()
    }
}

/// Draws fresh row ids from the table's shared monotonic counter. The
/// counter itself lives in the owning `TableInfo`, standing in for the
/// shared atomic that all generators of one table advance.
#[derive(Debug, Clone, Copy)]
pub struct AutoIncrementIdGenerator {}

impl AutoIncrementIdGenerator {
    pub fn new() -> (r: Self) {
        AutoIncrementIdGenerator {  }
    }

    /// Advance the shared counter and return its new value: three inserts
    /// into a fresh table are numbered 1, 2, 3.
    pub fn generate(&self, max_row_id: &mut u64) -> (r: EncodeValue)
        ensures
            *final(max_row_id) == if *old(max_row_id) == u64::MAX {
                0u64
            } else {
                (*old(max_row_id) + 1) as u64
            },
            r@ == ValueView::Int(*final(max_row_id) as i64),
    {
        let id: u64 = if *max_row_id == u64::MAX {
            0
        } else {
            *max_row_id + 1
        };
        *max_row_id = id;
        EncodeValue::Int(#[verifier::truncate] (id as i64))
    }
}

/// The mathematical model of a column.
#[verifier::ext_equal]
pub struct ColumnMeta {
    pub id: u64,
    pub name: Seq<char>,
    pub offset: int,
    pub data_type: DataType,
    pub generator: Option<GenView>,
    pub comment: Seq<char>,
    pub key: IndexType,
    pub not_null: bool,
}

/// One column of a table: stable id, lowercase name, declared type,
/// position in the declaration, optional value generator, key role and
/// nullability.
#[derive(Debug)]
pub struct ColumnInfo {
    pub id: u64,
    pub name: String,
    pub offset: usize,
    pub data_type: DataType,
    pub default_value: Option<ValueGenerator>,
    pub comment: String,
    pub key: IndexType,
    pub not_null: bool,
}

impl View for ColumnInfo {
    type V = ColumnMeta;

    open spec fn view(&self) -> ColumnMeta {
        ColumnMeta {
            id: self.id,
            name: self.name@,
            offset: self.offset as int,
            data_type: self.data_type,
            generator: match self.default_value {
                Some(g) => Some(g@),
                None => None,
            },
            comment: self.comment@,
            key: self.key,
            not_null: self.not_null,
        }
    }
}

impl Clone for ColumnInfo {
    fn clone(&self) -> (r: Self)
        ensures
            r@ == self@,
    {
        ColumnInfo {
            id: self.id,
            name: self.name.clone(),
            offset: self.offset,
            data_type: self.data_type,
            default_value: match &self.default_value {
                Some(g) => Some(g.clone()),
                None => None,
            },
            comment: self.comment.clone(),
            key: self.key,
            not_null: self.not_null,
        }
    }
}

/// The mathematical model of an index.
#[verifier::ext_equal]
pub struct IndexMeta {
    pub id: u64,
    pub name: Seq<char>,
    pub table_name: Seq<char>,
    pub columns: Seq<(Seq<char>, int)>,
    pub state: TableState,
    pub primary: bool,
    pub unique: bool,
}

/// One index of a table: the ordered columns it covers as pairs of
/// lowercase column name and declaration offset.
#[derive(Debug)]
pub struct IndexInfo {
    pub id: u64,
    pub name: String,
    pub table_name: String,
    pub columns: Vec<(String, usize)>,
    pub state: TableState,
    pub primary: bool,
    pub unique: bool,
}

impl View for IndexInfo {
    type V = IndexMeta;

    open spec fn view(&self) -> IndexMeta {
        IndexMeta {
            id: self.id,
            name: self.name@,
            table_name: self.table_name@,
            columns: Seq::new(
                self.columns@.len(),
                |i: int| (self.columns@[i].0@, self.columns@[i].1 as int),
            ),
            state: self.state,
            primary: self.primary,
            unique: self.unique,
        }
    }
}

impl Clone for IndexInfo {
    fn clone(&self) -> (r: Self)
        ensures
            r@ == self@,
    {
        let mut columns: Vec<(String, usize)> = Vec::new();
        let n = self.columns.len();
        let mut i: usize = 0;
        while i < n
            invariant
                i <= n,
                n == self.columns@.len(),
                columns@.len() == i,
                forall|j: int|
                    0 <= j < i ==> columns@[j].0@ == self.columns@[j].0@ && columns@[j].1
                        == self.columns@[j].1,
            decreases n - i,
        {
            let pair = &self.columns[i];
            columns.push((pair.0.clone(), pair.1));
            i += 1;
        }
        let r = IndexInfo {
            id: self.id,
            name: self.name.clone(),
            table_name: self.table_name.clone(),
            columns,
            state: self.state,
            primary: self.primary,
            unique: self.unique,
        };
        proof {
            assert(r@.columns =~= self@.columns);
            assert(r@ =~= self@);
        }
        r
    }
}

/// The mathematical model of a table.
#[verifier::ext_equal]
pub struct TableMeta {
    pub id: u64,
    pub name: Seq<char>,
    pub columns: Seq<ColumnMeta>,
    pub indices: Seq<IndexMeta>,
    pub state: TableState,
    pub pk_is_handle: bool,
    pub max_column_id: u64,
    pub max_index_id: u64,
    pub max_row_id: u64,
    pub update_ts: u64,
}

/// A table: id, lowercase name, ordered columns and indexes, state, and
/// the monotonic counters, including the shared auto-increment row
/// counter.
#[derive(Debug)]
pub struct TableInfo {
    pub id: u64,
    pub name: String,
    pub columns: Vec<ColumnInfo>,
    pub indices: Vec<IndexInfo>,
    pub state: TableState,
    pub pk_is_handle: bool,
    pub max_column_id: u64,
    pub max_index_id: u64,
    pub max_row_id: u64,
    pub update_ts: u64,
}

impl View for TableInfo {
    type V = TableMeta;

    open spec fn view(&self) -> TableMeta {
        TableMeta {
            id: self.id,
            name: self.name@,
            columns: Seq::new(self.columns@.len(), |i: int| self.columns@[i]@),
            indices: Seq::new(self.indices@.len(), |i: int| self.indices@[i]@),
            state: self.state,
            pk_is_handle: self.pk_is_handle,
            max_column_id: self.max_column_id,
            max_index_id: self.max_index_id,
            max_row_id: self.max_row_id,
            update_ts: self.update_ts,
        }
    }
}

impl Clone for TableInfo {
    fn clone(&self) -> (r: Self)
        ensures
            r@ == self@,
    {
        let mut columns: Vec<ColumnInfo> = Vec::new();
        let ncols = self.columns.len();
        let mut i: usize = 0;
        while i < ncols
            invariant
                i <= ncols,
                ncols == self.columns@.len(),
                columns@.len() == i,
                forall|j: int| 0 <= j < i ==> #[trigger] columns@[j]@ == self.columns@[j]@,
            decreases ncols - i,
        {
            columns.push(self.columns[i].clone());
            i += 1;
        }
        let mut indices: Vec<IndexInfo> = Vec::new();
        let nidx = self.indices.len();
        let mut k: usize = 0;
        while k < nidx
            invariant
                k <= nidx,
                nidx == self.indices@.len(),
                indices@.len() == k,
                forall|j: int| 0 <= j < k ==> #[trigger] indices@[j]@ == self.indices@[j]@,
            decreases nidx - k,
        {
            indices.push(self.indices[k].clone());
            k += 1;
        }
        let r = TableInfo {
            id: self.id,
            name: self.name.clone(),
            columns,
            indices,
            state: self.state,
            pk_is_handle: self.pk_is_handle,
            max_column_id: self.max_column_id,
            max_index_id: self.max_index_id,
            max_row_id: self.max_row_id,
            update_ts: self.update_ts,
        };
        proof {
            assert(r@.columns =~= self@.columns);
            assert(r@.indices =~= self@.indices);
            assert(r@ =~= self@);
        }
        r
    }
}

/// An ordered projection: the columns a statement selects.
#[derive(Debug)]
pub struct DataSchema {
    pub columns: Vec<ColumnInfo>,
}

impl Clone for DataSchema {
    fn clone(&self) -> (r: Self)
        ensures
            r.columns@.len() == self.columns@.len(),
            forall|j: int|
                0 <= j < self.columns@.len() ==> #[trigger] r.columns@[j]@ == self.columns@[j]@,
    {
        let mut columns: Vec<ColumnInfo> = Vec::new();
        let n = self.columns.len();
        let mut i: usize = 0;
        while i < n
            invariant
                i <= n,
                n == self.columns@.len(),
                columns@.len() == i,
                forall|j: int| 0 <= j < i ==> #[trigger] columns@[j]@ == self.columns@[j]@,
            decreases n - i,
        {
            columns.push(self.columns[i].clone());
            i += 1;
        }
        DataSchema { columns }
    }
}

impl TableInfo {
    /// The first primary index, cloned, if the table has one.
    pub fn get_primary_index(&self) -> (r: Option<IndexInfo>)
        ensures
            match r {
                Some(idx) => {
                    &&& exists|i: int|
                        0 <= i < self@.indices.len() && self@.indices[i].primary && idx@
                            == self@.indices[i]
                    &&& idx@.primary
                },
                None => forall|i: int| 0 <= i < self@.indices.len() ==> !self@.indices[i].primary,
            },
    {
        let n = self.indices.len();
        let mut i: usize = 0;
        while i < n
            invariant
                i <= n,
                n == self.indices@.len(),
                forall|j: int| 0 <= j < i ==> !self@.indices[j].primary,
            decreases n - i,
    {
            if self.indices[i].primary {
                let r = self.indices[i].clone();
                proof {
                    assert(r@ == self@.indices[i as int]);
                }
                return Some(r);
            }
            proof {
                assert(self@.indices[i as int] == self.indices@[i as int]@);
            }
            i += 1;
        }
        None
    }
}

/// Column metadata as the wire layer reports it: the column's name and
/// its MySQL protocol type code.
#[derive(Debug)]
pub struct MysqlColumn {
    pub table: String,
    pub column: String,
    pub type_code: u8,
}

/// The MySQL protocol type code a declared type maps to: DECIMAL 0,
/// SHORT 2, LONG 3, FLOAT 4, VARCHAR 15, VAR_STRING 253; `None` for the
/// declared types the wire layer does not serve.
pub open spec fn mysql_type_code(t: DataType) -> Option<u8> {
    match t {
        DataType::Char => Some(15u8),
        DataType::Varchar => Some(15u8),
        DataType::Decimal => Some(0u8),
        DataType::Float => Some(4u8),
        DataType::SmallInt => Some(2u8),
        DataType::Int => Some(3u8),
        DataType::BigInt => Some(3u8),
        DataType::Double => Some(4u8),
        DataType::Boolean => Some(2u8),
        DataType::Text => Some(15u8),
        DataType::VarString => Some(253u8),
        _ => None,
    }
}

impl ColumnInfo {
    /// The wire metadata of this column; fails on a declared type the
    /// protocol mapping does not cover.
    pub fn to_mysql_column(&self) -> (r: MySQLResult<MysqlColumn>)
        ensures
            match r {
                Ok(c) => {
                    &&& c.column@ == self@.name
                    &&& c.table@ == Seq::<char>::empty()
                    &&& mysql_type_code(self@.data_type) == Some(c.type_code)
                },
                Err(e) => e == MySQLError::UnsupportSQL && mysql_type_code(
                    self@.data_type,
                ) is None,
            },
    {
        let tp: u8 = match self.data_type {
            DataType::Char => 15,
            DataType::Varchar => 15,
            DataType::Decimal => 0,
            DataType::Float => 4,
            DataType::SmallInt => 2,
            DataType::Int => 3,
            DataType::BigInt => 3,
            DataType::Double => 4,
            DataType::Boolean => 2,
            DataType::Text => 15,
            DataType::VarString => 253,
            _ => {
                return Err(MySQLError::UnsupportSQL);
            },
        };
        Ok(MysqlColumn { table: String::new(), column: self.name.clone(), type_code: tp })
    }
}

/// The model of one uniqueness constraint with all names lowercased: its
/// optional index name, the column names it covers, and whether it is the
/// primary key.
#[verifier::ext_equal]
pub struct UniqueConstraintV {
    pub name: Option<Seq<char>>,
    pub columns: Seq<Seq<char>>,
    pub is_primary: bool,
}

/// A uniqueness constraint during table building, names lowercased.
pub struct UniqueC {
    pub name: Option<String>,
    pub columns: Vec<String>,
    pub is_primary: bool,
}

impl View for UniqueC {
    type V = UniqueConstraintV;

    open spec fn view(&self) -> UniqueConstraintV {
        UniqueConstraintV {
            name: match self.name {
                Some(n) => Some(n@),
                None => None,
            },
            columns: Seq::new(self.columns@.len(), |i: int| self.columns@[i]@),
            is_primary: self.is_primary,
        }
    }
}

/// What a column definition's option list settles by its last
/// generator-bearing option: no generator, the auto-increment counter, a
/// parsed constant, or a constant whose literal does not read at the
/// column's type.
pub enum GenSpec {
    NoGen,
    Auto,
    Constant(ValueView),
    Bad,
}

/// A string default read at the column's declared type: integer text for
/// integer columns, the supplied floating-point reading for a double
/// column, the raw bytes for a byte-string column.
pub open spec fn spec_column_string_value(t: DataType, s: Seq<char>, float_bits: Option<u64>)
    -> Option<ValueView> {
    if is_int_type(t) {
        if valid_i64_text(str_bytes(s)) {
            Some(ValueView::Int(int_text_value(str_bytes(s)) as i64))
        } else {
            None
        }
    } else if t is Double {
        match float_bits {
            Some(bits) => Some(ValueView::Double(bits)),
            None => None,
        }
    } else if is_bytes_type(t) {
        Some(ValueView::Bytes(str_bytes(s)))
    } else {
        None
    }
}

/// The value a DEFAULT option denotes at a column type: quoted strings are
/// re-read at the column's type, every other literal converts directly.
pub open spec fn spec_default_value(v: &SqlValue, float_bits: Option<u64>, t: DataType) -> Option<
    ValueView,
> {
    match v {
        SqlValue::SingleQuotedString(s) => spec_column_string_value(t, s@, float_bits),
        SqlValue::DoubleQuotedString(s) => spec_column_string_value(t, s@, float_bits),
        _ => if parse_value_ok(v) {
            Some(spec_parse_value(v))
        } else {
            None
        },
    }
}

/// The generator an option list leaves on the column: the last
/// `AUTO_INCREMENT` or `DEFAULT` wins.
pub open spec fn opts_generator(opts: Seq<SqlColumnOption>, t: DataType) -> GenSpec
    decreases opts.len(),
{
    if opts.len() == 0 {
        GenSpec::NoGen
    } else {
        let prev = opts_generator(opts.subrange(0, opts.len() - 1), t);
        match opts.last() {
            SqlColumnOption::AutoIncrement => GenSpec::Auto,
            SqlColumnOption::Default { value, float_bits } => match spec_default_value(
                &value,
                float_bits,
                t,
            ) {
                Some(v) => GenSpec::Constant(v),
                None => GenSpec::Bad,
            },
            _ => prev,
        }
    }
}

/// Whether the option list declares the column NOT NULL.
pub open spec fn opts_not_null(opts: Seq<SqlColumnOption>) -> bool
    decreases opts.len(),
{
    if opts.len() == 0 {
        false
    } else {
        opts_not_null(opts.subrange(0, opts.len() - 1)) || opts.last() is NotNull
    }
}

/// The key role the option list alone gives the column: any UNIQUE or
/// PRIMARY KEY option marks it primary here; the constraint pass settles
/// the final role.
pub open spec fn opts_key(opts: Seq<SqlColumnOption>) -> IndexType
    decreases opts.len(),
{
    if opts.len() == 0 {
        IndexType::Plain
    } else if opts.last() is Unique {
        IndexType::Primary
    } else {
        opts_key(opts.subrange(0, opts.len() - 1))
    }
}

/// The synthetic single-column constraints a definition's UNIQUE and
/// PRIMARY KEY options emit, in option order.
pub open spec fn opts_emitted(opts: Seq<SqlColumnOption>, colname: Seq<char>) -> Seq<
    UniqueConstraintV,
>
    decreases opts.len(),
{
    if opts.len() == 0 {
        Seq::empty()
    } else {
        let prev = opts_emitted(opts.subrange(0, opts.len() - 1), colname);
        match opts.last() {
            SqlColumnOption::Unique { is_primary } => prev.push(
                UniqueConstraintV {
                    name: None,
                    columns: seq![colname],
                    is_primary: is_primary,
                },
            ),
            _ => prev,
        }
    }
}

/// All synthetic constraints of a definition list, in definition order.
pub open spec fn emitted_all(defs: Seq<SqlColumnDef>) -> Seq<UniqueConstraintV>
    decreases defs.len(),
{
    if defs.len() == 0 {
        Seq::empty()
    } else {
        emitted_all(defs.subrange(0, defs.len() - 1)) + opts_emitted(
            defs.last().options@,
            lower_of(defs.last().name.value@),
        )
    }
}

/// Whether every declared table constraint is a uniqueness constraint:
/// the only kind the engine supports.
pub open spec fn user_constraints_ok(cs: Seq<SqlTableConstraint>) -> bool {
    forall|i: int| 0 <= i < cs.len() ==> cs[i] is Unique
}

/// The models of the declared constraints, names lowercased.
pub open spec fn user_views(cs: Seq<SqlTableConstraint>) -> Seq<UniqueConstraintV>
    decreases cs.len(),
{
    if cs.len() == 0 {
        Seq::empty()
    } else {
        user_views(cs.subrange(0, cs.len() - 1)).push(constraint_view(cs.last()))
    }
}

/// The model of one declared constraint (meaningful when it is Unique).
pub open spec fn constraint_view(c: SqlTableConstraint) -> UniqueConstraintV {
    match c {
        SqlTableConstraint::Unique { name, columns, is_primary } => UniqueConstraintV {
            name: match name {
                Some(n) => Some(lower_of(n.value@)),
                None => None,
            },
            columns: Seq::new(columns@.len(), |i: int| lower_of(columns@[i].value@)),
            is_primary,
        },
        SqlTableConstraint::Other => UniqueConstraintV {
            name: None,
            columns: Seq::empty(),
            is_primary: false,
        },
    }
}

/// The key role of a column after the whole constraint list is applied,
/// later constraints overriding earlier ones.
pub open spec fn role_after(cs: Seq<UniqueConstraintV>, name: Seq<char>, init: IndexType)
    -> IndexType
    decreases cs.len(),
{
    if cs.len() == 0 {
        init
    } else {
        let prev = role_after(cs.subrange(0, cs.len() - 1), name, init);
        if cs.last().columns.contains(name) {
            if cs.last().is_primary {
                IndexType::Primary
            } else {
                IndexType::MultipleUnqiue
            }
        } else {
            prev
        }
    }
}

/// The declaration offset of the first column with this lowercase name,
/// or -1 when no column matches.
pub open spec fn find_col(defs: Seq<SqlColumnDef>, name: Seq<char>, i: int) -> int
    decreases defs.len() - i,
{
    if i < 0 || i >= defs.len() {
        -1
    } else if lower_of(defs[i].name.value@) == name {
        i
    } else {
        find_col(defs, name, i + 1)
    }
}

/// The full constraint list a CREATE TABLE elaborates: the declared
/// constraints first, then the synthetic ones, in order.
pub open spec fn all_constraints(defs: Seq<SqlColumnDef>, cs: Seq<SqlTableConstraint>) -> Seq<
    UniqueConstraintV,
> {
    user_views(cs) + emitted_all(defs)
}

/// The column the elaboration produces for definition `i`: sequential id,
/// dense offset, lowercase name, the declared type, the option-fold
/// generator and nullability, and the role the constraints settle.
pub open spec fn spec_column(defs: Seq<SqlColumnDef>, cs: Seq<SqlTableConstraint>, i: int)
    -> ColumnMeta {
    let opts = defs[i].options@;
    let name = lower_of(defs[i].name.value@);
    ColumnMeta {
        id: (i + 1) as u64,
        name,
        offset: i,
        data_type: defs[i].data_type,
        generator: match opts_generator(opts, defs[i].data_type) {
            GenSpec::NoGen => None,
            GenSpec::Auto => Some(GenView::AutoIncrement),
            GenSpec::Constant(v) => Some(GenView::Constant(v)),
            GenSpec::Bad => None,
        },
        comment: Seq::empty(),
        key: role_after(all_constraints(defs, cs), name, opts_key(opts)),
        not_null: opts_not_null(opts),
    }
}

/// The index the elaboration produces for constraint `k`: sequential id,
/// the constraint's name or the empty name, the covered columns resolved
/// to their first declaration offsets. Indexes born from table
/// constraints start in the `Tombstone` state and never carry the
/// standalone `unique` flag; only `CREATE INDEX` sets those.
pub open spec fn spec_index(
    defs: Seq<SqlColumnDef>,
    cs: Seq<SqlTableConstraint>,
    k: int,
    table_name: Seq<char>,
) -> IndexMeta {
    let c = all_constraints(defs, cs)[k];
    IndexMeta {
        id: (k + 1) as u64,
        name: match c.name {
            Some(n) => n,
            None => Seq::empty(),
        },
        table_name,
        columns: Seq::new(c.columns.len(), |j: int| (c.columns[j], find_col(defs, c.columns[j], 0))),
        state: TableState::Tombstone,
        primary: c.is_primary,
        unique: false,
    }
}

/// Whether every DEFAULT option of a definition reads at its column's
/// declared type.
pub open spec fn def_defaults_ok(def: &SqlColumnDef) -> bool {
    forall|j: int|
        0 <= j < def.options@.len() ==> match #[trigger] def.options@[j] {
            SqlColumnOption::Default { value, float_bits } => spec_default_value(
                &value,
                float_bits,
                def.data_type,
            ) is Some,
            _ => true,
        }
}

/// The DDL inputs the elaboration accepts: a named table, only
/// uniqueness constraints, every DEFAULT readable at its column's type,
/// and every constraint column resolving to a declared column.
pub open spec fn ddl_ok(
    name: &SqlObjectName,
    defs: Seq<SqlColumnDef>,
    cs: Seq<SqlTableConstraint>,
) -> bool {
    &&& name.0@.len() > 0
    &&& user_constraints_ok(cs)
    &&& forall|i: int| 0 <= i < defs.len() ==> def_defaults_ok(&defs[i])
    &&& forall|k: int, j: int|
        0 <= k < all_constraints(defs, cs).len() && 0 <= j < all_constraints(
            defs,
            cs,
        )[k].columns.len() ==> #[trigger] find_col(defs, all_constraints(defs, cs)[k].columns[j], 0)
            >= 0
}

/// Element-wise equality of two strings.
pub fn string_eq(a: &String, b: &String) -> (r: bool)
    ensures
        r == (a@ == b@),
{
    a.eq(b)
}

/// A string DEFAULT re-read at the column's declared type.
fn parse_column_string_value(data_type: &DataType, val: &String, float_bits: Option<u64>) -> (r:
    MySQLResult<EncodeValue>)
    ensures
        match r {
            Ok(v) => spec_column_string_value(*data_type, val@, float_bits) == Some(v@),
            Err(e) => spec_column_string_value(*data_type, val@, float_bits) is None && (
            e is ParseError || e == MySQLError::ColumnMissMatch),
        },
{
    match data_type {
        DataType::Int | DataType::BigInt | DataType::SmallInt => {
            let v = parse_i64(val.as_str().as_bytes())?;
            Ok(EncodeValue::Int(v))
        },
        DataType::Double => {
            match float_bits {
                Some(bits) => Ok(EncodeValue::Double(bits)),
                None => Err(
                    MySQLError::ParseError("not a floating point literal".to_owned()),
                ),
            }
        },
        DataType::Char | DataType::Varchar | DataType::Text | DataType::VarString => Ok(
            EncodeValue::Bytes(vstd::slice::slice_to_vec(val.as_str().as_bytes())),
        ),
        _ => Err(MySQLError::ColumnMissMatch),
    }
}

/// The value a DEFAULT option attaches, at the column's declared type.
fn default_value_for(value: &SqlValue, float_bits: Option<u64>, data_type: &DataType) -> (r:
    MySQLResult<EncodeValue>)
    ensures
        match r {
            Ok(v) => spec_default_value(value, float_bits, *data_type) == Some(v@),
            Err(e) => spec_default_value(value, float_bits, *data_type) is None && (
            e is ParseError || e == MySQLError::ColumnMissMatch || e == MySQLError::UnsupportSQL),
        },
{
    match value {
        SqlValue::SingleQuotedString(s) => parse_column_string_value(data_type, s, float_bits),
        SqlValue::DoubleQuotedString(s) => parse_column_string_value(data_type, s, float_bits),
        _ => EncodeValue::from_parse_value(value),
    }
}

/// The role the full constraint list leaves on a column, later
/// constraints overriding earlier ones.
fn role_of_column(combined: &Vec<UniqueC>, name: &String, init: IndexType) -> (r: IndexType)
    ensures
        r == role_after(
            Seq::new(combined@.len(), |i: int| combined@[i]@),
            name@,
            init,
        ),
{
    let ghost cv = Seq::new(combined@.len(), |i: int| combined@[i]@);
    let n = combined.len();
    let mut acc = init;
    let mut k: usize = 0;
    while k < n
        invariant
            k <= n,
            n == combined@.len(),
            cv == Seq::new(combined@.len(), |i: int| combined@[i]@),
            acc == role_after(cv.subrange(0, k as int), name@, init),
        decreases n - k,
    {
        let c = &combined[k];
        let mut mentioned = false;
        let m = c.columns.len();
        let mut j: usize = 0;
        while j < m
            invariant
                j <= m,
                m == c.columns@.len(),
                mentioned == exists|x: int| 0 <= x < j && c.columns@[x]@ == name@,
            decreases m - j,
        {
            if string_eq(&c.columns[j], name) {
                mentioned = true;
            }
            j += 1;
        }
        proof {
            let pre = cv.subrange(0, k as int);
            let cur = cv.subrange(0, k + 1);
            assert(cur.subrange(0, cur.len() - 1) =~= pre);
            assert(cur.last() == cv[k as int]);
            assert(mentioned == cv[k as int].columns.contains(name@)) by {
                if mentioned {
                    let x = choose|x: int| 0 <= x < c.columns@.len() && c.columns@[x]@ == name@;
                    assert(cv[k as int].columns[x] == name@);
                } else {
                    if cv[k as int].columns.contains(name@) {
                        let x = choose|x: int|
                            0 <= x < cv[k as int].columns.len() && cv[k as int].columns[x]
                                == name@;
                        assert(c.columns@[x]@ == name@);
                    }
                }
            }
        }
        if mentioned {
            if c.is_primary {
                acc = IndexType::Primary;
            } else {
                acc = IndexType::MultipleUnqiue;
            }
        }
        k += 1;
    }
    proof {
        assert(cv.subrange(0, n as int) =~= cv);
    }
    acc
}

/// The first column with this exact (already lowercase) name.
fn find_column_index(cols: &Vec<ColumnInfo>, name: &String) -> (r: Option<usize>)
    ensures
        match r {
            Some(i) => i < cols@.len() && cols@[i as int]@.name == name@ && forall|j: int|
                0 <= j < i ==> cols@[j]@.name != name@,
            None => forall|j: int| 0 <= j < cols@.len() ==> cols@[j]@.name != name@,
        },
{
    let n = cols.len();
    let mut i: usize = 0;
    while i < n
        invariant
            i <= n,
            n == cols@.len(),
            forall|j: int| 0 <= j < i ==> cols@[j]@.name != name@,
        decreases n - i,
    {
        if string_eq(&cols[i].name, name) {
            return Some(i);
        }
        i += 1;
    }
    None
}

/// The first-match search agrees with the offset resolution over the
/// original definitions when the built columns carry their lowered names.
proof fn lemma_find_col_agree(defs: Seq<SqlColumnDef>, names: Seq<Seq<char>>, n: Seq<char>, i: int)
    requires
        names.len() == defs.len(),
        forall|k: int| 0 <= k < defs.len() ==> names[k] == lower_of(defs[k].name.value@),
        0 <= i <= defs.len(),
    ensures
        (find_col(defs, n, i) == -1 <==> forall|k: int| i <= k < names.len() ==> names[k] != n),
        find_col(defs, n, i) != -1 ==> i <= find_col(defs, n, i) < names.len() && names[find_col(
            defs,
            n,
            i,
        )] == n && forall|k: int| i <= k < find_col(defs, n, i) ==> names[k] != n,
    decreases defs.len() - i,
{
    if i >= defs.len() {
        assert(find_col(defs, n, i) == -1);
    } else if lower_of(defs[i].name.value@) == n {
        assert(find_col(defs, n, i) == i);
        assert(names[i] == n);
    } else {
        lemma_find_col_agree(defs, names, n, i + 1);
        assert(find_col(defs, n, i) == find_col(defs, n, i + 1));
        assert(names[i] != n);
    }
}

/// A resolved offset is in range and names a matching column.
pub proof fn lemma_find_col_props(defs: Seq<SqlColumnDef>, n: Seq<char>, i: int)
    requires
        0 <= i,
    ensures
        find_col(defs, n, i) != -1 ==> i <= find_col(defs, n, i) < defs.len() && lower_of(
            defs[find_col(defs, n, i)].name.value@,
        ) == n,
    decreases defs.len() - i,
{
    if 0 <= i < defs.len() && lower_of(defs[i].name.value@) != n {
        lemma_find_col_props(defs, n, i + 1);
    }
}

/// The column after the option pass alone, before constraints settle its
/// role.
pub open spec fn spec_column0(defs: Seq<SqlColumnDef>, i: int) -> ColumnMeta {
    let opts = defs[i].options@;
    ColumnMeta {
        id: (i + 1) as u64,
        name: lower_of(defs[i].name.value@),
        offset: i,
        data_type: defs[i].data_type,
        generator: match opts_generator(opts, defs[i].data_type) {
            GenSpec::NoGen => None,
            GenSpec::Auto => Some(GenView::AutoIncrement),
            GenSpec::Constant(v) => Some(GenView::Constant(v)),
            GenSpec::Bad => None,
        },
        comment: Seq::empty(),
        key: opts_key(opts),
        not_null: opts_not_null(opts),
    }
}

impl TableInfo {
    /// Elaborate column definitions and table constraints into this
    /// table's columns and indexes: fold each definition's options, emit
    /// the synthetic single-column constraints, settle each column's role
    /// from the full constraint list, and build one index per constraint.
    /// On error the table is left untouched.
    pub fn build_columns_and_constraints(
        &mut self,
        column_defs: &Vec<SqlColumnDef>,
        constrains: &Vec<SqlTableConstraint>,
    ) -> (r: MySQLResult<()>)
        requires
            old(self).columns@.len() == 0,
            old(self).indices@.len() == 0,
            old(self).max_column_id == 0,
            old(self).max_index_id == 0,
        ensures
            match r {
                Ok(_) => {
                    &&& user_constraints_ok(constrains@)
                    &&& forall|i: int|
                        0 <= i < column_defs@.len() ==> def_defaults_ok(&column_defs@[i])
                    &&& forall|k: int, j: int|
                        0 <= k < all_constraints(column_defs@, constrains@).len() && 0 <= j
                            < all_constraints(column_defs@, constrains@)[k].columns.len()
                            ==> #[trigger] find_col(
                            column_defs@,
                            all_constraints(column_defs@, constrains@)[k].columns[j],
                            0,
                        ) >= 0
                    &&& final(self)@.columns.len() == column_defs@.len()
                    &&& forall|i: int|
                        0 <= i < column_defs@.len() ==> final(self)@.columns[i] == spec_column(
                            column_defs@,
                            constrains@,
                            i,
                        )
                    &&& final(self)@.indices.len() == all_constraints(
                        column_defs@,
                        constrains@,
                    ).len()
                    &&& forall|k: int|
                        0 <= k < final(self)@.indices.len() ==> final(self)@.indices[k]
                            == spec_index(column_defs@, constrains@, k, old(self)@.name)
                    &&& final(self)@.max_column_id == column_defs@.len()
                    &&& final(self)@.max_index_id == all_constraints(
                        column_defs@,
                        constrains@,
                    ).len()
                },
                Err(e) => {
                    &&& !(user_constraints_ok(constrains@) && (forall|i: int|
                        0 <= i < column_defs@.len() ==> def_defaults_ok(&column_defs@[i])) && (
                    forall|k: int, j: int|
                        0 <= k < all_constraints(column_defs@, constrains@).len() && 0 <= j
                            < all_constraints(column_defs@, constrains@)[k].columns.len()
                            ==> #[trigger] find_col(
                            column_defs@,
                            all_constraints(column_defs@, constrains@)[k].columns[j],
                            0,
                        ) >= 0))
                    &&& (e == MySQLError::UnsupportSQL || e == MySQLError::NoColumn
                        || e is ParseError || e == MySQLError::ColumnMissMatch)
                },
            },
            final(self)@.id == old(self)@.id,
            final(self)@.name == old(self)@.name,
            final(self)@.state == old(self)@.state,
            final(self)@.pk_is_handle == old(self)@.pk_is_handle,
            final(self)@.max_row_id == old(self)@.max_row_id,
            final(self)@.update_ts == old(self)@.update_ts,
    {
        let ghost defs = column_defs@;
        let ghost cs = constrains@;
        let ndefs = column_defs.len();
        let mut cols0: Vec<ColumnInfo> = Vec::new();
        let mut synth: Vec<UniqueC> = Vec::new();
        let mut i: usize = 0;
        while i < ndefs
            invariant
                i <= ndefs,
                ndefs == defs.len(),
                defs == column_defs@,
                cols0@.len() == i,
                forall|x: int| 0 <= x < i ==> #[trigger] cols0@[x]@ == spec_column0(defs, x),
                forall|x: int| 0 <= x < i ==> def_defaults_ok(&defs[x]),
                Seq::new(synth@.len(), |x: int| synth@[x]@) == emitted_all(
                    defs.subrange(0, i as int),
                ),
            decreases ndefs - i,
        {
            let def = &column_defs[i];
            let ghost opts = def.options@;
            let lname = to_lowercase(def.name.value.as_str());
            let mut not_null = false;
            let mut key0 = IndexType::Plain;
            let mut gen: Option<ValueGenerator> = None;
            let ghost synth_base = Seq::new(synth@.len(), |x: int| synth@[x]@);
            let nopts = def.options.len();
            let mut j: usize = 0;
            while j < nopts
                invariant
                    j <= nopts,
                    nopts == opts.len(),
                    defs == column_defs@,
                    opts == column_defs@[i as int].options@,
                    def.options@ == opts,
                    def.data_type == column_defs@[i as int].data_type,
                    i < column_defs@.len(),
                    lname@ == lower_of(column_defs@[i as int].name.value@),
                    not_null == opts_not_null(opts.subrange(0, j as int)),
                    key0 == opts_key(opts.subrange(0, j as int)),
                    match gen {
                        None => opts_generator(
                            opts.subrange(0, j as int),
                            column_defs@[i as int].data_type,
                        ) is NoGen,
                        Some(g) => match g@ {
                            GenView::AutoIncrement => opts_generator(
                                opts.subrange(0, j as int),
                                column_defs@[i as int].data_type,
                            ) is Auto,
                            GenView::Constant(v) => opts_generator(
                                opts.subrange(0, j as int),
                                column_defs@[i as int].data_type,
                            ) == GenSpec::Constant(v),
                        },
                    },
                    forall|x: int|
                        0 <= x < j ==> match #[trigger] opts[x] {
                            SqlColumnOption::Default { value, float_bits } => spec_default_value(
                                &value,
                                float_bits,
                                column_defs@[i as int].data_type,
                            ) is Some,
                            _ => true,
                        },
                    Seq::new(synth@.len(), |x: int| synth@[x]@) == synth_base + opts_emitted(
                        opts.subrange(0, j as int),
                        lname@,
                    ),
                decreases nopts - j,
            {
                let ghost pre = opts.subrange(0, j as int);
                let ghost cur = opts.subrange(0, j + 1);
                proof {
                    assert(cur.subrange(0, cur.len() - 1) =~= pre);
                    assert(cur.last() == opts[j as int]);
                }
                match &def.options[j] {
                    SqlColumnOption::Unique { is_primary } => {
                        key0 = IndexType::Primary;
                        let mut one: Vec<String> = Vec::new();
                        one.push(lname.clone());
                        let ghost sv0 = Seq::new(synth@.len(), |x: int| synth@[x]@);
                        synth.push(UniqueC { name: None, columns: one, is_primary: *is_primary });
                        proof {
                            assert(Seq::new(synth@.len(), |x: int| synth@[x]@) =~= sv0.push(
                                synth@.last()@,
                            ));
                            assert(synth@.last()@.columns =~= seq![lname@]);
                            assert(synth@.last()@ =~= UniqueConstraintV {
                                name: None,
                                columns: seq![lname@],
                                is_primary: *is_primary,
                            });
                            assert(Seq::new(synth@.len(), |x: int| synth@[x]@) =~= synth_base
                                + opts_emitted(cur, lname@));
                        }
                    },
                    SqlColumnOption::NotNull => {
                        not_null = true;
                    },
                    SqlColumnOption::AutoIncrement => {
                        gen = Some(ValueGenerator::AutoIncrement(AutoIncrementIdGenerator::new()));
                    },
                    SqlColumnOption::Default { value, float_bits } => {
                        match default_value_for(value, *float_bits, &def.data_type) {
                            Ok(v) => {
                                gen = Some(
                                    ValueGenerator::DefaultConstant(DefaultValueGenerator::new(v)),
                                );
                            },
                            Err(e) => {
                                proof {
                                    assert(column_defs@[i as int].options@[j as int] matches
                                        SqlColumnOption::Default { value: v2, float_bits: fb2 }
                                        && spec_default_value(
                                        &v2,
                                        fb2,
                                        column_defs@[i as int].data_type,
                                    ) is None);
                                    assert(!def_defaults_ok(&defs[i as int]));
                                }
                                return Err(e);
                            },
                        }
                    },
                    SqlColumnOption::Other => {},
                }
                j += 1;
            }
            proof {
                assert(opts.subrange(0, opts.len() as int) =~= opts);
            }
            let col = ColumnInfo {
                id: (i as u64) + 1,
                name: lname,
                offset: i,
                data_type: def.data_type,
                default_value: gen,
                comment: String::new(),
                key: key0,
                not_null,
            };
            proof {
                assert(col@ =~= spec_column0(defs, i as int));
            }
            cols0.push(col);
            proof {
                let pre = defs.subrange(0, i as int);
                let cur = defs.subrange(0, i + 1);
                assert(cur.subrange(0, cur.len() - 1) =~= pre);
                assert(cur.last() == defs[i as int]);
                assert(Seq::new(synth@.len(), |x: int| synth@[x]@) =~= emitted_all(cur));
            }
            i += 1;
        }
        proof {
            assert(defs.subrange(0, defs.len() as int) =~= defs);
        }
        // Validate the declared constraints and lower their names.
        let nuser = constrains.len();
        let mut users: Vec<UniqueC> = Vec::new();
        let mut k: usize = 0;
        while k < nuser
            invariant
                k <= nuser,
                nuser == cs.len(),
                cs == constrains@,
                forall|x: int| 0 <= x < k ==> cs[x] is Unique,
                Seq::new(users@.len(), |x: int| users@[x]@) == user_views(cs.subrange(0, k as int)),
            decreases nuser - k,
        {
            let ghost pre = cs.subrange(0, k as int);
            let ghost cur = cs.subrange(0, k + 1);
            proof {
                assert(cur.subrange(0, cur.len() - 1) =~= pre);
                assert(cur.last() == cs[k as int]);
            }
            match &constrains[k] {
                SqlTableConstraint::Unique { name, columns, is_primary } => {
                    let uname: Option<String> = match name {
                        Some(id) => Some(to_lowercase(id.value.as_str())),
                        None => None,
                    };
                    let mut ucols: Vec<String> = Vec::new();
                    let m = columns.len();
                    let mut x: usize = 0;
                    while x < m
                        invariant
                            x <= m,
                            m == columns@.len(),
                            ucols@.len() == x,
                            forall|y: int|
                                0 <= y < x ==> #[trigger] ucols@[y]@ == lower_of(
                                    columns@[y].value@,
                                ),
                        decreases m - x,
                    {
                        ucols.push(to_lowercase(columns[x].value.as_str()));
                        x += 1;
                    }
                    let ghost uv0 = Seq::new(users@.len(), |y: int| users@[y]@);
                    users.push(UniqueC { name: uname, columns: ucols, is_primary: *is_primary });
                    proof {
                        assert(Seq::new(users@.len(), |y: int| users@[y]@) =~= uv0.push(
                            users@.last()@,
                        ));
                        assert(users@.last()@.columns =~= constraint_view(cs[k as int]).columns);
                        assert(users@.last()@ =~= constraint_view(cs[k as int]));
                    }
                },
                SqlTableConstraint::Other => {
                    proof {
                        assert(!user_constraints_ok(cs));
                    }
                    return Err(MySQLError::UnsupportSQL);
                },
            }
            k += 1;
        }
        proof {
            assert(cs.subrange(0, cs.len() as int) =~= cs);
        }
        // The full constraint list: declared first, then synthetic.
        let mut combined: Vec<UniqueC> = users;
        let ghost usersv = Seq::new(combined@.len(), |x: int| combined@[x]@);
        let ghost synthv = Seq::new(synth@.len(), |x: int| synth@[x]@);
        combined.append(&mut synth);
        let ghost cv = Seq::new(combined@.len(), |x: int| combined@[x]@);
        proof {
            assert(cv =~= usersv + synthv);
            assert(cv == all_constraints(defs, cs));
        }
        // Settle each column's role from the full constraint list.
        let ncols = cols0.len();
        let mut final_cols: Vec<ColumnInfo> = Vec::new();
        let mut ci: usize = 0;
        while ci < ncols
            invariant
                ci <= ncols,
                ncols == cols0@.len(),
                ncols == defs.len(),
                defs == column_defs@,
                cs == constrains@,
                cv == Seq::new(combined@.len(), |x: int| combined@[x]@),
                cv == all_constraints(defs, cs),
                forall|x: int| 0 <= x < ncols ==> #[trigger] cols0@[x]@ == spec_column0(defs, x),
                final_cols@.len() == ci,
                forall|x: int|
                    0 <= x < ci ==> #[trigger] final_cols@[x]@ == spec_column(defs, cs, x),
            decreases ncols - ci,
        {
            let role = role_of_column(&combined, &cols0[ci].name, cols0[ci].key);
            let mut c = cols0[ci].clone();
            c.key = role;
            proof {
                assert(c@ =~= spec_column(defs, cs, ci as int));
            }
            final_cols.push(c);
            ci += 1;
        }
        // Build one index per constraint.
        let nidx = combined.len();
        let mut indices: Vec<IndexInfo> = Vec::new();
        let mut k2: usize = 0;
        while k2 < nidx
            invariant
                k2 <= nidx,
                nidx == combined@.len(),
                defs == column_defs@,
                cs == constrains@,
                cv == Seq::new(combined@.len(), |x: int| combined@[x]@),
                cv == all_constraints(defs, cs),
                final_cols@.len() == defs.len(),
                forall|x: int|
                    0 <= x < final_cols@.len() ==> #[trigger] final_cols@[x]@ == spec_column(
                        defs,
                        cs,
                        x,
                    ),
                self.name@ == old(self)@.name,
                indices@.len() == k2,
                forall|x: int|
                    0 <= x < k2 ==> #[trigger] indices@[x]@ == spec_index(
                        defs,
                        cs,
                        x,
                        old(self)@.name,
                    ),
                forall|x: int, j: int|
                    0 <= x < k2 && 0 <= j < cv[x].columns.len() ==> #[trigger] find_col(
                        defs,
                        cv[x].columns[j],
                        0,
                    ) >= 0,
            decreases nidx - k2,
        {
            let c = &combined[k2];
            let iname: String = match &c.name {
                Some(n) => n.clone(),
                None => String::new(),
            };
            let mut icols: Vec<(String, usize)> = Vec::new();
            let m = c.columns.len();
            let mut j: usize = 0;
            while j < m
                invariant
                    j <= m,
                    m == c.columns@.len(),
                    c@ == cv[k2 as int],
                    k2 < cv.len(),
                    defs == column_defs@,
                    cs == constrains@,
                    cv == all_constraints(defs, cs),
                    final_cols@.len() == defs.len(),
                    forall|x: int|
                        0 <= x < final_cols@.len() ==> #[trigger] final_cols@[x]@ == spec_column(
                            defs,
                            cs,
                            x,
                        ),
                    icols@.len() == j,
                    forall|y: int|
                        0 <= y < j ==> #[trigger] icols@[y].0@ == cv[k2 as int].columns[y]
                            && icols@[y].1 == find_col(defs, cv[k2 as int].columns[y], 0),
                decreases m - j,
            {
                proof {
                    lemma_find_col_agree(
                        defs,
                        Seq::new(final_cols@.len(), |x: int| final_cols@[x]@.name),
                        c.columns@[j as int]@,
                        0,
                    );
                }
                match find_column_index(&final_cols, &c.columns[j]) {
                    Some(off) => {
                        proof {
                            let names = Seq::new(
                                final_cols@.len(),
                                |x: int| final_cols@[x]@.name,
                            );
                            let n = c.columns@[j as int]@;
                            let fc = find_col(defs, n, 0);
                            assert(names[off as int] == n);
                            assert(fc != -1);
                            assert(fc == off) by {
                                if fc < off {
                                    assert(names[fc] == n);
                                }
                                if fc > off {
                                    assert(names[off as int] != n);
                                }
                            }
                            assert(c.columns@[j as int]@ == cv[k2 as int].columns[j as int]);
                        }
                        let cname = final_cols[off].name.clone();
                        icols.push((cname, off));
                    },
                    None => {
                        proof {
                            let names = Seq::new(
                                final_cols@.len(),
                                |x: int| final_cols@[x]@.name,
                            );
                            let n = c.columns@[j as int]@;
                            assert(forall|y: int| 0 <= y < names.len() ==> names[y] != n);
                            assert(find_col(defs, n, 0) == -1);
                            assert(cv[k2 as int].columns[j as int] == n);
                        }
                        return Err(MySQLError::NoColumn);
                    },
                }
                j += 1;
            }
            proof {
                assert forall|y: int|
                    0 <= y < cv[k2 as int].columns.len() implies #[trigger] find_col(
                    defs,
                    cv[k2 as int].columns[y],
                    0,
                ) >= 0 by {
                    assert(icols@[y].0@ == cv[k2 as int].columns[y]);
                    assert(icols@[y].1 == find_col(defs, cv[k2 as int].columns[y], 0));
                }
            }
            let idx = IndexInfo {
                id: (k2 as u64) + 1,
                name: iname,
                table_name: self.name.clone(),
                columns: icols,
                state: TableState::Tombstone,
                primary: c.is_primary,
                unique: false,
            };
            proof {
                assert(idx@.columns =~= spec_index(defs, cs, k2 as int, old(self)@.name).columns);
                assert(idx@ =~= spec_index(defs, cs, k2 as int, old(self)@.name));
            }
            indices.push(idx);
            k2 += 1;
        }
        self.columns = final_cols;
        self.indices = indices;
        self.max_column_id = ncols as u64;
        self.max_index_id = nidx as u64;
        proof {
            assert(final(self)@.columns =~= Seq::new(
                self.columns@.len(),
                |x: int| self.columns@[x]@,
            ));
        }
        Ok(())
    }

    /// Elaborate a CREATE TABLE statement into a fresh table: lowercase
    /// name, public state, columns and indexes per the definitions and
    /// constraints, counters set, and the shared row counter at zero.
    pub fn create(
        name: &SqlObjectName,
        column_defs: &Vec<SqlColumnDef>,
        constrains: &Vec<SqlTableConstraint>,
    ) -> (r: MySQLResult<TableInfo>)
        ensures
            match r {
                Ok(t) => {
                    &&& ddl_ok(name, column_defs@, constrains@)
                    &&& t@.name == lower_of(name.0@.last().value@)
                    &&& t@.id == 0
                    &&& t@.state is Public
                    &&& t@.pk_is_handle
                    &&& t@.max_row_id == 0
                    &&& t@.update_ts == 0
                    &&& t@.columns.len() == column_defs@.len()
                    &&& forall|i: int|
                        0 <= i < column_defs@.len() ==> t@.columns[i] == spec_column(
                            column_defs@,
                            constrains@,
                            i,
                        )
                    &&& t@.indices.len() == all_constraints(column_defs@, constrains@).len()
                    &&& forall|k: int|
                        0 <= k < t@.indices.len() ==> t@.indices[k] == spec_index(
                            column_defs@,
                            constrains@,
                            k,
                            t@.name,
                        )
                    &&& t@.max_column_id == column_defs@.len()
                    &&& t@.max_index_id == all_constraints(column_defs@, constrains@).len()
                },
                Err(e) => {
                    &&& !ddl_ok(name, column_defs@, constrains@)
                    &&& (e == MySQLError::UnsupportSQL || e == MySQLError::NoColumn
                        || e is ParseError || e == MySQLError::ColumnMissMatch)
                },
            },
    {
        if column_defs.len() >= 0 && name.0.len() == 0 {
            return Err(MySQLError::UnsupportSQL);
        }
        let table_name = to_lowercase(name.0[name.0.len() - 1].value.as_str());
        let mut table_info = TableInfo {
            id: 0,
            name: table_name,
            columns: Vec::new(),
            indices: Vec::new(),
            state: TableState::Public,
            pk_is_handle: true,
            max_column_id: 0,
            max_index_id: 0,
            max_row_id: 0,
            update_ts: 0,
        };
        table_info.build_columns_and_constraints(column_defs, constrains)?;
        Ok(table_info)
    }
}

} // verus!
