use chocobase::auth::session::ExecutionContext;
use chocobase::error::ExecError;
use chocobase::exec::aggregate::AggregateOperator;
use chocobase::exec::filter::Filter;
use chocobase::exec::join::NestedLoopJoin;
use chocobase::exec::limit::Limit;
use chocobase::exec::mutate::check_row;
use chocobase::exec::project::{Project, ProjectExpr};
use chocobase::exec::sort::Sort;
use chocobase::exec::Operator;
use chocobase::sql::ast::{AggregateFunc, BinOp, Expr, JoinType};
use chocobase::types::schema::{Column, ColumnType, TableSchema};
use chocobase::types::value::Value;

fn column(name: &str) -> Column {
    Column { name: name.into(), ty: ColumnType::Integer, not_null: false, is_primary_key: false }
}

fn schema(names: &[&str]) -> TableSchema {
    TableSchema { name: "t".into(), columns: names.iter().map(|n| column(n)).collect(), root_page: 0, rls_enabled: false }
}

fn drain(op: &mut dyn Operator) -> Vec<Vec<Value>> {
    let mut seen = Vec::new();
    while let Some(row) = op.next().unwrap() {
        seen.push(row);
    }
    seen
}

fn ints(rows: &[&[i64]]) -> Vec<Vec<Value>> {
    rows.iter().map(|r| r.iter().map(|i| Value::Integer(*i)).collect()).collect()
}

#[test]
fn filters_out_non_matching_rows() {
    let mut s = schema(&["id"]);
    s.columns[0].not_null = true;
    s.columns[0].is_primary_key = true;
    let input = vec![vec![Value::Integer(1)], vec![Value::Integer(2)], vec![Value::Integer(3)]];
    let predicate = Expr::BinaryOp {
        op: BinOp::Gt,
        left: Box::new(Expr::Column("id".into())),
        right: Box::new(Expr::IntLiteral(1)),
    };
    let mut filter = Filter::new(input, s, predicate, ExecutionContext::anonymous());
    let mut seen = Vec::new();
    while let Some(row) = filter.next().unwrap() {
        seen.push(row[0].clone());
    }
    assert_eq!(seen, vec![Value::Integer(2), Value::Integer(3)]);
}

#[test]
fn filter_reports_an_unknown_column() {
    let predicate = Expr::BinaryOp {
        op: BinOp::Eq,
        left: Box::new(Expr::Column("nope".into())),
        right: Box::new(Expr::IntLiteral(1)),
    };
    let mut filter = Filter::new(ints(&[&[1]]), schema(&["id"]), predicate, ExecutionContext::anonymous());
    match filter.next() {
        Err(ExecError::InvalidValue(m)) => assert_eq!(m, "no such column: nope"),
        other => panic!("unexpected {other:?}"),
    }
    assert_eq!(filter.next().unwrap(), None);
}

#[test]
fn stops_after_n_rows() {
    let input = vec![vec![Value::Integer(1)], vec![Value::Integer(2)], vec![Value::Integer(3)]];
    let mut limit = Limit::new(input, 2);
    let mut seen = Vec::new();
    while let Some(row) = limit.next().unwrap() {
        seen.push(row[0].clone());
    }
    assert_eq!(seen, vec![Value::Integer(1), Value::Integer(2)]);
}

#[test]
fn zero_limit_yields_nothing() {
    let mut limit = Limit::new(vec![vec![Value::Integer(1)]], 0);
    assert_eq!(limit.next().unwrap(), None);
}

#[test]
fn projects_selected_columns_in_order() {
    let input = vec![vec![Value::Integer(1), Value::Text("a".into()), Value::Boolean(true)]];
    let mut project = Project::new(input, vec![2, 0]);
    let row = project.next().unwrap().unwrap();
    assert_eq!(row, vec![Value::Boolean(true), Value::Integer(1)]);
    assert_eq!(project.next().unwrap(), None);
}

#[test]
fn projects_expressions_per_row() {
    let exprs = vec![
        Expr::Column("b".into()),
        Expr::BinaryOp { op: BinOp::Lt, left: Box::new(Expr::Column("a".into())), right: Box::new(Expr::IntLiteral(2)) },
        Expr::AuthUid,
    ];
    let ctx = ExecutionContext { user_id: Some(9), role: None, is_admin: false };
    let mut p = ProjectExpr::new(ints(&[&[1, 10], &[3, 30]]), schema(&["a", "b"]), exprs, ctx);
    assert_eq!(drain(&mut p), vec![
        vec![Value::Integer(10), Value::Boolean(true), Value::Integer(9)],
        vec![Value::Integer(30), Value::Boolean(false), Value::Integer(9)],
    ]);
    let mut bad = ProjectExpr::new(ints(&[&[1]]), schema(&["a"]), vec![Expr::Column("z".into())], ExecutionContext::anonymous());
    assert!(matches!(bad.next(), Err(ExecError::InvalidValue(_))));
}

#[test]
fn sorts_ascending_by_key_index() {
    let input = vec![vec![Value::Integer(3)], vec![Value::Integer(1)], vec![Value::Integer(2)]];
    let mut sort = Sort::new(input, 0, false);
    let mut seen = Vec::new();
    while let Some(row) = sort.next().unwrap() {
        seen.push(row[0].clone());
    }
    assert_eq!(seen, vec![Value::Integer(1), Value::Integer(2), Value::Integer(3)]);
}

#[test]
fn sorts_descending_and_places_nulls_first() {
    let input = vec![vec![Value::Integer(1)], vec![Value::Null], vec![Value::Integer(2)]];
    let mut sort = Sort::new(input, 0, true);
    let mut seen = Vec::new();
    while let Some(row) = sort.next().unwrap() {
        seen.push(row[0].clone());
    }
    assert_eq!(seen, vec![Value::Integer(2), Value::Integer(1), Value::Null]);
}

#[test]
fn sort_keeps_input_order_among_equal_keys() {
    let input = ints(&[&[2, 1], &[1, 2], &[2, 3], &[1, 4]]);
    let mut sort = Sort::new(input.clone(), 0, false);
    assert_eq!(drain(&mut sort), ints(&[&[1, 2], &[1, 4], &[2, 1], &[2, 3]]));
    let mut desc = Sort::new(input, 0, true);
    assert_eq!(drain(&mut desc), ints(&[&[2, 1], &[2, 3], &[1, 2], &[1, 4]]));
}

#[test]
fn inner_join_pairs_matching_rows() {
    let cond = Expr::BinaryOp {
        op: BinOp::Eq,
        left: Box::new(Expr::Column("a".into())),
        right: Box::new(Expr::Column("b".into())),
    };
    let mut j = NestedLoopJoin::new(ints(&[&[1], &[2], &[3]]), ints(&[&[2], &[3], &[3]]), 1, JoinType::Inner, Some(cond), schema(&["a", "b"]));
    assert_eq!(drain(&mut j), ints(&[&[2, 2], &[3, 3], &[3, 3]]));
}

#[test]
fn left_join_pads_unmatched_rows_with_nulls() {
    let cond = Expr::BinaryOp {
        op: BinOp::Eq,
        left: Box::new(Expr::Column("a".into())),
        right: Box::new(Expr::Column("b".into())),
    };
    let mut j = NestedLoopJoin::new(ints(&[&[1], &[2]]), ints(&[&[2, 7]]), 2, JoinType::Left, Some(cond), schema(&["a", "b", "c"]));
    assert_eq!(drain(&mut j), vec![
        vec![Value::Integer(1), Value::Null, Value::Null],
        vec![Value::Integer(2), Value::Integer(2), Value::Integer(7)],
    ]);
}

#[test]
fn cross_join_pairs_every_row() {
    let mut j = NestedLoopJoin::new(ints(&[&[1], &[2]]), ints(&[&[5], &[6]]), 1, JoinType::Cross, None, schema(&["a", "b"]));
    assert_eq!(drain(&mut j), ints(&[&[1, 5], &[1, 6], &[2, 5], &[2, 6]]));
}

#[test]
fn aggregates_by_group_in_first_seen_order() {
    let rows = vec![
        vec![Value::Text("x".into()), Value::Integer(4)],
        vec![Value::Text("y".into()), Value::Integer(-3)],
        vec![Value::Text("x".into()), Value::Null],
        vec![Value::Text("y".into()), Value::Integer(-4)],
        vec![Value::Text("x".into()), Value::Integer(1)],
    ];
    let aggs = vec![
        AggregateFunc::CountStar,
        AggregateFunc::Count(Box::new(Expr::Column("v".into()))),
        AggregateFunc::Sum(Box::new(Expr::Column("v".into()))),
        AggregateFunc::Avg(Box::new(Expr::Column("v".into()))),
        AggregateFunc::Min(Box::new(Expr::Column("v".into()))),
        AggregateFunc::Max(Box::new(Expr::Column("v".into()))),
    ];
    let mut op = AggregateOperator::new(rows, schema(&["k", "v"]), Some(vec![Expr::Column("k".into())]), aggs, None);
    assert_eq!(drain(&mut op), vec![
        vec![Value::Text("x".into()), Value::Integer(3), Value::Integer(2), Value::Integer(5), Value::Integer(2), Value::Integer(1), Value::Integer(4)],
        vec![Value::Text("y".into()), Value::Integer(2), Value::Integer(2), Value::Integer(-7), Value::Integer(-3), Value::Integer(-4), Value::Integer(-3)],
    ]);
}

#[test]
fn aggregate_without_rows_or_grouping_gives_one_default_row() {
    let aggs = vec![
        AggregateFunc::CountStar,
        AggregateFunc::Avg(Box::new(Expr::Column("v".into()))),
        AggregateFunc::Max(Box::new(Expr::Column("v".into()))),
    ];
    let mut op = AggregateOperator::new(Vec::new(), schema(&["v"]), None, aggs, None);
    assert_eq!(drain(&mut op), vec![vec![Value::Integer(0), Value::Null, Value::Null]]);
    let mut grouped = AggregateOperator::new(Vec::new(), schema(&["v"]), Some(vec![Expr::Column("v".into())]), vec![AggregateFunc::CountStar], None);
    assert_eq!(drain(&mut grouped), Vec::<Vec<Value>>::new());
}

#[test]
fn having_keeps_only_true_groups() {
    let rows = ints(&[&[1, 5], &[2, 6], &[1, 7]]);
    // The output row is (key, count); HAVING is evaluated over the input columns' names.
    let having = Expr::BinaryOp { op: BinOp::Gt, left: Box::new(Expr::Column("v".into())), right: Box::new(Expr::IntLiteral(1)) };
    let mut op = AggregateOperator::new(rows, schema(&["k", "v"]), Some(vec![Expr::Column("k".into())]), vec![AggregateFunc::CountStar], Some(having));
    assert_eq!(drain(&mut op), ints(&[&[1, 2]]));
}

#[test]
fn aggregate_reports_an_unknown_column() {
    let mut op = AggregateOperator::new(ints(&[&[1]]), schema(&["v"]), None, vec![AggregateFunc::Sum(Box::new(Expr::Column("w".into())))], None);
    match op.next() {
        Err(ExecError::InvalidValue(m)) => assert_eq!(m, "no such column: w"),
        other => panic!("unexpected {other:?}"),
    }
}

#[test]
fn rows_are_checked_column_by_column() {
    let mut s = schema(&["id", "name"]);
    s.columns[0].not_null = true;
    assert!(check_row(&s, &[Value::Integer(1), Value::Text("a".into())]).is_ok());
    assert!(matches!(check_row(&s, &[Value::Null, Value::Text("a\0b".into())]), Err(ExecError::NotNullViolation(n)) if n == "id"));
    match check_row(&s, &[Value::Integer(1), Value::Text("a\0b".into())]) {
        Err(ExecError::InvalidValue(m)) => assert_eq!(m, "name contains an interior NUL byte, which cannot be represented in an order-preserving key"),
        other => panic!("unexpected {other:?}"),
    }
}
