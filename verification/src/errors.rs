use vstd::prelude::*;

verus! {

/// The error kinds surfaced by the storage core. Codec failures are split
/// into `InvalidType` (a value's variant does not fit the declared column
/// type) and `Corruption` (stored bytes do not follow the on-disk format).
#[derive(Debug, PartialEq, Eq)]
pub enum MySQLError {
    /// A prepared text held this many statements instead of one.
    PrepareMult(u64),
    /// The SQL text did not parse.
    ParseError(String),
    /// An input/output failure reported by the surrounding program.
    Io(String),
    /// An insert hit a primary key that is already stored.
    KeyExist,
    /// The operation needs a primary index and the table has none.
    NoIndex,
    /// A referenced column does not exist.
    NoColumn,
    /// An insert omitted this column and it has no value generator.
    MissColumn(String),
    /// The arity of a VALUES row does not match the named columns,
    /// or a literal cannot be read at the column's declared type.
    ColumnMissMatch,
    /// The named table does not exist.
    NoTable(String),
    /// A schema-qualified name does not match the session's database.
    NoDB,
    /// The statement category is not implemented.
    UnsupportSQL,
    /// CREATE INDEX over a column list that is already indexed.
    IndexExist,
    /// A value's variant is incompatible with the declared column type.
    InvalidType,
    /// Stored bytes do not follow the row or key format.
    Corruption,
    /// An error reported by the remote key-value backend.
    TiKV(String),
}

pub type MySQLResult<T> = Result<T, MySQLError>;

impl MySQLError {
    /// A short text for each kind, for the wire layer to report.
    pub fn describe(&self) -> (r: &'static str) {
        match self {
            MySQLError::PrepareMult(_) => "multiple prepare statements are not allowed",
            MySQLError::ParseError(_) => "parse error",
            MySQLError::Io(_) => "io error",
            MySQLError::KeyExist => "primary key has exist",
            MySQLError::NoIndex => "index not exist",
            MySQLError::NoColumn => "column not exist",
            MySQLError::MissColumn(_) => "miss column",
            MySQLError::ColumnMissMatch => "column not match values",
            MySQLError::NoTable(_) => "table not exist",
            MySQLError::NoDB => "DB not exist",
            MySQLError::UnsupportSQL => "unsupported sql",
            MySQLError::IndexExist => "index has exist",
            MySQLError::InvalidType => "invalid column type",
            MySQLError::Corruption => "data decode corruption",
            MySQLError::TiKV(_) => "TiKV error",
        }
    }
}

} // verus!
