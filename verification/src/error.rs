use vstd::prelude::*;

use crate::text::{nat_decimal, push_str, push_u64_decimal, string_of};

verus! {

/// Failures of the page store.
#[derive(Debug)]
pub enum StorageError {
    Io(String),
    NotADatabase,
    CorruptPage(u32, String),
    CorruptDatabase(String),
    CorruptJournal(String),
    PageOutOfBounds(u32),
    BufferPoolFull,
    DatabaseLocked(String),
    LockTimeout,
}

/// Failures of B+Tree operations.
#[derive(Debug)]
pub enum BTreeError {
    DuplicateKey,
    RowTooLarge(usize, usize),
    KeyTooLarge(usize),
    ValueTooLarge(usize),
    CorruptNode(u32),
    NoFreePages,
    Storage(StorageError),
}

/// A syntax error with the byte offset where it was found.
#[derive(Debug)]
pub enum ParseError {
    Syntax { offset: usize, message: String },
}

/// Failures while planning a statement.
#[derive(Debug)]
pub enum PlanError {
    NoSuchTable(String),
    NoSuchColumn(String),
    NoSuchIndex(String),
    TableAlreadyExists(String),
    IndexAlreadyExists(String),
    InvalidSchema(String),
    InvalidExpression(String),
    ColumnCountMismatch { expected: usize, found: usize },
    NestedTransactionNotSupported,
    NoTransactionInProgress,
    CannotUpdatePrimaryKey,
}

/// Failures while executing a plan.
#[derive(Debug)]
pub enum ExecError {
    NotNullViolation(String),
    DuplicatePrimaryKey,
    InvalidValue(String),
    BTree(BTreeError),
    Storage(StorageError),
    Plan(PlanError),
}

/// Every failure the database reports.
#[derive(Debug)]
pub enum DbError {
    Storage(StorageError),
    BTree(BTreeError),
    Parse(ParseError),
    Plan(PlanError),
    Exec(ExecError),
    Io(String),
}

/// The PostgreSQL SQLSTATE code reported for an error.
pub open spec fn spec_sqlstate(e: DbError) -> Seq<char> {
    match e {
        DbError::Parse(ParseError::Syntax { .. }) => "42601"@,
        DbError::Plan(PlanError::NoSuchTable(_)) => "42P01"@,
        DbError::Plan(PlanError::NoSuchColumn(_)) => "42703"@,
        DbError::Plan(PlanError::TableAlreadyExists(_)) => "42P07"@,
        DbError::Plan(PlanError::IndexAlreadyExists(_)) => "42P07"@,
        DbError::Plan(PlanError::CannotUpdatePrimaryKey) => "0A000"@,
        DbError::Exec(ExecError::NotNullViolation(_)) => "23502"@,
        DbError::Exec(ExecError::DuplicatePrimaryKey) => "23505"@,
        DbError::BTree(BTreeError::DuplicateKey) => "23505"@,
        DbError::Exec(ExecError::BTree(BTreeError::DuplicateKey)) => "23505"@,
        DbError::Exec(ExecError::InvalidValue(_)) => "22000"@,
        DbError::Storage(StorageError::DatabaseLocked(_)) => "55P03"@,
        DbError::Exec(ExecError::Storage(StorageError::DatabaseLocked(_))) => "55P03"@,
        _ => "XX000"@,
    }
}

impl DbError {
    /// Returns the standard 5-character PostgreSQL SQLSTATE error code for this error.
    pub fn sqlstate(&self) -> (code: &'static str)
        ensures
            code@ == spec_sqlstate(*self),
    {
        match self {
            DbError::Parse(ParseError::Syntax { .. }) => "42601",
            DbError::Plan(PlanError::NoSuchTable(_)) => "42P01",
            DbError::Plan(PlanError::NoSuchColumn(_)) => "42703",
            DbError::Plan(PlanError::TableAlreadyExists(_)) => "42P07",
            DbError::Plan(PlanError::IndexAlreadyExists(_)) => "42P07",
            DbError::Plan(PlanError::CannotUpdatePrimaryKey) => "0A000",
            DbError::Exec(ExecError::NotNullViolation(_)) => "23502",
            DbError::Exec(ExecError::DuplicatePrimaryKey) => "23505",
            DbError::BTree(BTreeError::DuplicateKey) => "23505",
            DbError::Exec(ExecError::BTree(BTreeError::DuplicateKey)) => "23505",
            DbError::Exec(ExecError::InvalidValue(_)) => "22000",
            DbError::Storage(StorageError::DatabaseLocked(_)) => "55P03",
            DbError::Exec(ExecError::Storage(StorageError::DatabaseLocked(_))) => "55P03",
            _ => "XX000",
        }
    }
}

/// The text of a planning failure.
pub open spec fn plan_error_text(e: PlanError) -> Seq<char> {
    match e {
        PlanError::NoSuchTable(n) => "no such table: "@ + n@,
        PlanError::NoSuchColumn(n) => "no such column: "@ + n@,
        PlanError::NoSuchIndex(n) => "no such index: "@ + n@,
        PlanError::TableAlreadyExists(n) => "table already exists: "@ + n@,
        PlanError::IndexAlreadyExists(n) => "index already exists: "@ + n@,
        PlanError::InvalidSchema(n) => "invalid schema: "@ + n@,
        PlanError::InvalidExpression(n) => "invalid expression: "@ + n@,
        PlanError::ColumnCountMismatch { expected, found } => "column count mismatch: expected "@ + nat_decimal(
            expected as nat,
        ) + ", found "@ + nat_decimal(found as nat),
        PlanError::NestedTransactionNotSupported => "nested transactions are not supported"@,
        PlanError::NoTransactionInProgress => "cannot commit or rollback: no transaction is in progress"@,
        PlanError::CannotUpdatePrimaryKey => "cannot update primary key column"@,
    }
}

impl PlanError {
    /// The text of this failure.
    pub fn message(&self) -> (m: String)
        ensures
            m@ == plan_error_text(*self),
    {
        let mut out: Vec<char> = Vec::new();
        match self {
            PlanError::NoSuchTable(n) => {
                push_str(&mut out, "no such table: ");
                push_str(&mut out, n.as_str());
            },
            PlanError::NoSuchColumn(n) => {
                push_str(&mut out, "no such column: ");
                push_str(&mut out, n.as_str());
            },
            PlanError::NoSuchIndex(n) => {
                push_str(&mut out, "no such index: ");
                push_str(&mut out, n.as_str());
            },
            PlanError::TableAlreadyExists(n) => {
                push_str(&mut out, "table already exists: ");
                push_str(&mut out, n.as_str());
            },
            PlanError::IndexAlreadyExists(n) => {
                push_str(&mut out, "index already exists: ");
                push_str(&mut out, n.as_str());
            },
            PlanError::InvalidSchema(n) => {
                push_str(&mut out, "invalid schema: ");
                push_str(&mut out, n.as_str());
            },
            PlanError::InvalidExpression(n) => {
                push_str(&mut out, "invalid expression: ");
                push_str(&mut out, n.as_str());
            },
            PlanError::ColumnCountMismatch { expected, found } => {
                push_str(&mut out, "column count mismatch: expected ");
                push_u64_decimal(&mut out, *expected as u64);
                push_str(&mut out, ", found ");
                push_u64_decimal(&mut out, *found as u64);
            },
            PlanError::NestedTransactionNotSupported => {
                push_str(&mut out, "nested transactions are not supported");
            },
            PlanError::NoTransactionInProgress => {
                push_str(&mut out, "cannot commit or rollback: no transaction is in progress");
            },
            PlanError::CannotUpdatePrimaryKey => {
                push_str(&mut out, "cannot update primary key column");
            },
        }
        assert(out@ =~= plan_error_text(*self));
        string_of(out.as_slice())
    }
}

} // verus!
