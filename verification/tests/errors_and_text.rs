use chocobase::crypto::hex_encode;
use chocobase::error::{BTreeError, DbError, ExecError, ParseError, PlanError, StorageError};
use chocobase::text::{i64_to_string, u64_to_string};
use chocobase::types::schema::{Column, ColumnType, TableSchema};

#[test]
fn sqlstate_codes_follow_postgres() {
    assert_eq!(DbError::Parse(ParseError::Syntax { offset: 0, message: "x".into() }).sqlstate(), "42601");
    assert_eq!(DbError::Plan(PlanError::NoSuchTable("t".into())).sqlstate(), "42P01");
    assert_eq!(DbError::Plan(PlanError::NoSuchColumn("c".into())).sqlstate(), "42703");
    assert_eq!(DbError::Plan(PlanError::IndexAlreadyExists("i".into())).sqlstate(), "42P07");
    assert_eq!(DbError::Exec(ExecError::NotNullViolation("c".into())).sqlstate(), "23502");
    assert_eq!(DbError::BTree(BTreeError::DuplicateKey).sqlstate(), "23505");
    assert_eq!(DbError::Exec(ExecError::Storage(StorageError::DatabaseLocked("x".into()))).sqlstate(), "55P03");
    assert_eq!(DbError::Plan(PlanError::NoTransactionInProgress).sqlstate(), "XX000");
}

#[test]
fn plan_error_messages() {
    assert_eq!(PlanError::NoSuchColumn("age".into()).message(), "no such column: age");
    assert_eq!(PlanError::ColumnCountMismatch { expected: 3, found: 12 }.message(), "column count mismatch: expected 3, found 12");
    assert_eq!(PlanError::CannotUpdatePrimaryKey.message(), "cannot update primary key column");
    assert_eq!(PlanError::NoTransactionInProgress.message(), "cannot commit or rollback: no transaction is in progress");
}

#[test]
fn decimal_and_hex_forms() {
    assert_eq!(u64_to_string(0), "0");
    assert_eq!(u64_to_string(18446744073709551615), "18446744073709551615");
    assert_eq!(i64_to_string(-9223372036854775808), "-9223372036854775808");
    assert_eq!(i64_to_string(42), "42");
    assert_eq!(hex_encode(&[0x00, 0xab, 0x10, 0xff]), "00ab10ff");
}

#[test]
fn primary_key_position() {
    let col = |n: &str, pk: bool| Column { name: n.into(), ty: ColumnType::Integer, not_null: pk, is_primary_key: pk };
    let t = TableSchema { name: "t".into(), columns: vec![col("a", false), col("b", true)], root_page: 0, rls_enabled: false };
    assert_eq!(t.primary_key_index(), 1);
    let u = TableSchema { name: "u".into(), columns: vec![col("a", false)], root_page: 0, rls_enabled: false };
    assert_eq!(u.primary_key_index(), 0);
}
