use vstd::prelude::*;

verus! {

/// Binary operators of the expression language.
#[derive(Debug, Clone, Copy, PartialEq, Eq, Structural)]
pub enum BinOp {
    Eq,
    NotEq,
    Lt,
    LtEq,
    Gt,
    GtEq,
    And,
    Or,
}

/// Aggregate functions.
#[derive(Debug, PartialEq)]
pub enum AggregateFunc {
    CountStar,
    Count(Box<Expr>),
    Sum(Box<Expr>),
    Avg(Box<Expr>),
    Min(Box<Expr>),
    Max(Box<Expr>),
}

/// Join kinds.
#[derive(Debug, Clone, Copy, PartialEq, Eq, Structural)]
pub enum JoinType {
    Inner,
    Left,
    Cross,
}

/// Scalar expressions evaluated against a row.
#[derive(Debug, PartialEq)]
pub enum Expr {
    Column(String),
    QualifiedColumn { table: String, column: String },
    IntLiteral(i64),
    StringLiteral(String),
    BoolLiteral(bool),
    Null,
    AuthUid,
    IsNull { expr: Box<Expr>, negated: bool },
    BinaryOp { op: BinOp, left: Box<Expr>, right: Box<Expr> },
    InList { expr: Box<Expr>, list: Vec<Expr>, negated: bool },
    /// `LIKE`, or `ILIKE` when `case_insensitive` (both sides compared in lowercase).
    Like { expr: Box<Expr>, pattern: String, negated: bool, case_insensitive: bool },
    Aggregate(AggregateFunc),
    FtsMatch { expr: Box<Expr>, query: String },
    FtsSnippet { expr: Box<Expr>, query: String },
}

} // verus!
