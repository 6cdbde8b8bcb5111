use vstd::prelude::*;
use crate::errors::{MySQLError, MySQLResult};
use crate::numparse::{int_text_value, parse_i64, valid_i64_text};
use crate::types::{DataType, EncodeValue, ValueView};

verus! {

/// The lowercase form of a string of characters. What the mapping does to
/// each character is left to the library routine behind `to_lowercase`;
/// the catalog only needs that equal names lower to equal names.
pub uninterp spec fn lower_of(s: Seq<char>) -> Seq<char>;

/// Relies on str::to_lowercase: the result depends on the characters
/// alone, so every identifier is folded the same way everywhere.
#[verifier::external_body]
pub(crate) fn to_lowercase(s: &str) -> (r: String)
    ensures
        r@ == lower_of(s@),
{
    s.to_lowercase()
}

/// The UTF-8 bytes of a string of characters.
pub open spec fn str_bytes(s: Seq<char>) -> Seq<u8> {
    vstd::utf8::encode_utf8(s)
}

/// A literal in a parsed statement, as the SQL front end hands it over:
/// numbers still in text form, strings by kind of quoting. `Other` stands
/// for every literal kind the engine does not accept.
#[derive(Debug)]
pub enum SqlValue {
    Null,
    Boolean(bool),
    Number(String),
    SingleQuotedString(String),
    DoubleQuotedString(String),
    HexStringLiteral(String),
    NationalStringLiteral(String),
    Other,
}

/// Whether a literal converts to a stored value: everything but `Other`,
/// and a number only when its text denotes a 64-bit integer.
pub open spec fn parse_value_ok(v: &SqlValue) -> bool {
    match v {
        SqlValue::Other => false,
        SqlValue::Number(s) => valid_i64_text(str_bytes(s@)),
        _ => true,
    }
}

/// The stored value a literal converts to: booleans become 1 or 0,
/// every string kind becomes its UTF-8 bytes, numbers their integer
/// value.
pub open spec fn spec_parse_value(v: &SqlValue) -> ValueView {
    match v {
        SqlValue::Null => ValueView::NULL,
        SqlValue::Boolean(b) => ValueView::Int(
            if *b {
                1
            } else {
                0
            },
        ),
        SqlValue::Number(s) => ValueView::Int(int_text_value(str_bytes(s@)) as i64),
        SqlValue::SingleQuotedString(s) => ValueView::Bytes(str_bytes(s@)),
        SqlValue::DoubleQuotedString(s) => ValueView::Bytes(str_bytes(s@)),
        SqlValue::HexStringLiteral(s) => ValueView::Bytes(str_bytes(s@)),
        SqlValue::NationalStringLiteral(s) => ValueView::Bytes(str_bytes(s@)),
        SqlValue::Other => ValueView::NULL,
    }
}

impl EncodeValue {
    /// Convert a parsed literal into a stored value. Fails with a parse
    /// error exactly when a number's text does not denote a 64-bit
    /// integer, and with `UnsupportSQL` on literal kinds the engine does
    /// not accept.
    pub fn from_parse_value(val: &SqlValue) -> (r: MySQLResult<EncodeValue>)
        ensures
            match r {
                Ok(ev) => parse_value_ok(val) && ev@ == spec_parse_value(val),
                Err(e) => !parse_value_ok(val) && if val is Other {
                    e == MySQLError::UnsupportSQL
                } else {
                    e is ParseError
                },
            },
    {
        match val {
            SqlValue::Boolean(v) => {
                if *v {
                    Ok(EncodeValue::Int(1))
                } else {
                    Ok(EncodeValue::Int(0))
                }
            },
            SqlValue::DoubleQuotedString(v) => Ok(
                EncodeValue::Bytes(vstd::slice::slice_to_vec(v.as_str().as_bytes())),
            ),
            SqlValue::SingleQuotedString(v) => Ok(
                EncodeValue::Bytes(vstd::slice::slice_to_vec(v.as_str().as_bytes())),
            ),
            SqlValue::HexStringLiteral(v) => Ok(
                EncodeValue::Bytes(vstd::slice::slice_to_vec(v.as_str().as_bytes())),
            ),
            SqlValue::Null => Ok(EncodeValue::NULL),
            SqlValue::NationalStringLiteral(v) => Ok(
                EncodeValue::Bytes(vstd::slice::slice_to_vec(v.as_str().as_bytes())),
            ),
            SqlValue::Number(v) => {
                let x = parse_i64(v.as_str().as_bytes())?;
                Ok(EncodeValue::Int(x))
            },
            SqlValue::Other => Err(MySQLError::UnsupportSQL),
        }
    }
}

/// An identifier as parsed, original case preserved.
#[derive(Debug)]
pub struct SqlIdent {
    pub value: String,
}

/// A possibly qualified name: the parts of `db.table`.
#[derive(Debug)]
pub struct SqlObjectName(pub Vec<SqlIdent>);

#[derive(Debug)]
pub enum SqlBinaryOperator {
    And,
    Eq,
    Other,
}

/// The fragment of the expression grammar the point-get recognizer walks.
#[derive(Debug)]
pub enum SqlExpr {
    Identifier(SqlIdent),
    Value(SqlValue),
    BinaryOp { op: SqlBinaryOperator, left: Box<SqlExpr>, right: Box<SqlExpr> },
    Other,
}

/// The equality conjuncts a WHERE tree contributes, in walk order: each
/// pairing of a column identifier with a literal under `=`, gathered
/// through `AND`; anything else contributes nothing.
pub open spec fn eq_conjuncts(e: SqlExpr) -> Seq<(Seq<char>, SqlValue)>
    decreases e,
{
    match e {
        SqlExpr::BinaryOp { op, left, right } => match op {
            SqlBinaryOperator::And => eq_conjuncts(*left) + eq_conjuncts(*right),
            SqlBinaryOperator::Eq => match (*left, *right) {
                (SqlExpr::Identifier(id), SqlExpr::Value(v)) => seq![(id.value@, v)],
                (SqlExpr::Value(v), SqlExpr::Identifier(id)) => seq![(id.value@, v)],
                _ => Seq::empty(),
            },
            SqlBinaryOperator::Other => Seq::empty(),
        },
        _ => Seq::empty(),
    }
}

#[derive(Debug)]
pub enum SqlSelectItem {
    UnnamedExpr(SqlExpr),
    Other,
}

/// One entry of a FROM clause: the plain table it names, if it is a plain
/// table, and whether joins hang off it.
#[derive(Debug)]
pub struct SqlTableWithJoins {
    pub relation: Option<SqlObjectName>,
    pub has_joins: bool,
}

#[derive(Debug)]
pub struct SqlSelect {
    pub projection: Vec<SqlSelectItem>,
    pub from: Vec<SqlTableWithJoins>,
    pub selection: Option<SqlExpr>,
    pub has_top: bool,
}

#[derive(Debug)]
pub enum SqlSetExpr {
    Select(Box<SqlSelect>),
    Values(Vec<Vec<SqlExpr>>),
    Other,
}

#[derive(Debug)]
pub struct SqlQuery {
    pub body: SqlSetExpr,
    pub has_limit: bool,
    pub has_order_by: bool,
}

/// A column option in a CREATE TABLE definition. A `Default` carries the
/// literal and, when its text reads as a floating-point number, the IEEE
/// 754 bit pattern of that reading, supplied by the parsing edge: the
/// verified catalog chooses which reading applies from the column's
/// declared type, but cannot itself compute floating point.
#[derive(Debug)]
pub enum SqlColumnOption {
    Unique { is_primary: bool },
    NotNull,
    AutoIncrement,
    Default { value: SqlValue, float_bits: Option<u64> },
    Other,
}

#[derive(Debug)]
pub struct SqlColumnDef {
    pub name: SqlIdent,
    pub data_type: DataType,
    pub options: Vec<SqlColumnOption>,
}

#[derive(Debug)]
pub enum SqlTableConstraint {
    Unique { name: Option<SqlIdent>, columns: Vec<SqlIdent>, is_primary: bool },
    Other,
}

#[derive(Debug)]
pub struct SqlOrderByExpr {
    pub expr: SqlExpr,
}

/// The statement categories the engine executes; everything else parses
/// but is refused as unsupported.
#[derive(Debug)]
pub enum SqlStatement {
    Query(Box<SqlQuery>),
    Insert { table_name: SqlObjectName, columns: Vec<SqlIdent>, source: Box<SqlQuery> },
    CreateTable {
        name: SqlObjectName,
        columns: Vec<SqlColumnDef>,
        constraints: Vec<SqlTableConstraint>,
    },
    CreateIndex {
        name: SqlObjectName,
        table_name: SqlObjectName,
        columns: Vec<SqlOrderByExpr>,
        unique: bool,
    },
    Other,
}

} // verus!
