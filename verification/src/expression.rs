use vstd::prelude::*;
use crate::types::EncodeValue;

verus! {

/// A minimal expression shape kept for the planner's future general
/// filtering; point gets do not evaluate it.
#[derive(Debug)]
pub enum Expr {
    Equal { left: Box<Expr>, right: Box<Expr> },
    ColumnRef { column_name: String },
    Literal,
}

/// A residual conjunct a point-get plan carries for post-filtering;
/// evaluation is out of the point-get path.
#[derive(Debug)]
pub enum Expression {
    Eq { left: Box<Expression>, right: Box<Expression> },
    Column(String),
    Value(EncodeValue),
}

} // verus!
