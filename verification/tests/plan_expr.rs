use chocobase::auth::session::ExecutionContext;
use chocobase::error::PlanError;
use chocobase::plan::expr::{eval, eval_with_context, is_truthy};
use chocobase::plan::fts::{fts_matches, fts_snippet, tokenize_words};
use chocobase::sql::ast::{AggregateFunc, BinOp, Expr};
use chocobase::types::schema::{Column, ColumnType, TableSchema};
use chocobase::types::value::Value;

fn schema() -> TableSchema {
    TableSchema {
        name: "t".into(),
        columns: vec![
            Column {
                name: "id".into(),
                ty: ColumnType::Integer,
                not_null: true,
                is_primary_key: true,
            },
            Column {
                name: "name".into(),
                ty: ColumnType::Text,
                not_null: false,
                is_primary_key: false,
            },
        ],
        root_page: 0,
        rls_enabled: false,
    }
}

#[test]
fn evaluates_column_reference() {
    let row = vec![Value::Integer(7), Value::Text("x".into())];
    assert_eq!(
        eval(&Expr::Column("id".into()), &schema(), &row).unwrap(),
        Value::Integer(7)
    );
}

#[test]
fn unknown_column_errors() {
    let row = vec![Value::Integer(7), Value::Text("x".into())];
    assert!(matches!(
        eval(&Expr::Column("nope".into()), &schema(), &row),
        Err(PlanError::NoSuchColumn(_))
    ));
}

#[test]
fn equality_comparison() {
    let row = vec![Value::Integer(7), Value::Text("x".into())];
    let expr = Expr::BinaryOp {
        op: BinOp::Eq,
        left: Box::new(Expr::Column("id".into())),
        right: Box::new(Expr::IntLiteral(7)),
    };
    assert_eq!(eval(&expr, &schema(), &row).unwrap(), Value::Boolean(true));
}

#[test]
fn comparison_against_null_is_false_not_panic() {
    let row = vec![Value::Integer(7), Value::Null];
    let expr = Expr::BinaryOp {
        op: BinOp::Eq,
        left: Box::new(Expr::Column("name".into())),
        right: Box::new(Expr::StringLiteral("x".into())),
    };
    assert_eq!(eval(&expr, &schema(), &row).unwrap(), Value::Boolean(false));
}

#[test]
fn is_null_and_is_not_null() {
    let row = vec![Value::Integer(7), Value::Null];
    let is_null = Expr::IsNull {
        expr: Box::new(Expr::Column("name".into())),
        negated: false,
    };
    let is_not_null = Expr::IsNull {
        expr: Box::new(Expr::Column("name".into())),
        negated: true,
    };
    assert_eq!(
        eval(&is_null, &schema(), &row).unwrap(),
        Value::Boolean(true)
    );
    assert_eq!(
        eval(&is_not_null, &schema(), &row).unwrap(),
        Value::Boolean(false)
    );
}

#[test]
fn and_or_short_circuit_semantics() {
    let row = vec![Value::Integer(7), Value::Text("x".into())];
    let and_expr = Expr::BinaryOp {
        op: BinOp::And,
        left: Box::new(Expr::BoolLiteral(true)),
        right: Box::new(Expr::BoolLiteral(false)),
    };
    assert_eq!(
        eval(&and_expr, &schema(), &row).unwrap(),
        Value::Boolean(false)
    );
}

fn like(text: &str, pattern: &str) -> Value {
    let row = vec![Value::Integer(1), Value::Text(text.into())];
    let expr = Expr::Like {
        expr: Box::new(Expr::Column("name".into())),
        pattern: pattern.into(),
        negated: false,
        case_insensitive: false,
    };
    eval(&expr, &schema(), &row).unwrap()
}

#[test]
fn like_patterns_follow_percent_and_underscore() {
    assert_eq!(like("hello", "h%o"), Value::Boolean(true));
    assert_eq!(like("hello", "h_llo"), Value::Boolean(true));
    assert_eq!(like("hello", "h_lo"), Value::Boolean(false));
    assert_eq!(like("hello", "%"), Value::Boolean(true));
    assert_eq!(like("", "%"), Value::Boolean(true));
    assert_eq!(like("abc", "%c%"), Value::Boolean(true));
    assert_eq!(like("abc", "%d%"), Value::Boolean(false));
}

#[test]
fn ilike_ignores_case_and_like_does_not() {
    let row = vec![Value::Integer(1), Value::Text("Hello World".into())];
    let e = |pattern: &str, ci: bool| Expr::Like {
        expr: Box::new(Expr::Column("name".into())),
        pattern: pattern.into(),
        negated: false,
        case_insensitive: ci,
    };
    assert_eq!(eval(&e("hello%", true), &schema(), &row).unwrap(), Value::Boolean(true));
    assert_eq!(eval(&e("%WORLD", true), &schema(), &row).unwrap(), Value::Boolean(true));
    assert_eq!(eval(&e("hello%", false), &schema(), &row).unwrap(), Value::Boolean(false));
    assert_eq!(eval(&e("Hello%", false), &schema(), &row).unwrap(), Value::Boolean(true));
    assert_eq!(eval(&e("bye%", true), &schema(), &row).unwrap(), Value::Boolean(false));
}

#[test]
fn like_on_null_is_null() {
    let row = vec![Value::Integer(1), Value::Null];
    let expr = Expr::Like {
        expr: Box::new(Expr::Column("name".into())),
        pattern: "%".into(),
        negated: true,
        case_insensitive: false,
    };
    assert_eq!(eval(&expr, &schema(), &row).unwrap(), Value::Null);
}

#[test]
fn in_list_finds_member_and_negates() {
    let row = vec![Value::Integer(3), Value::Null];
    let list = || vec![Expr::IntLiteral(1), Expr::IntLiteral(3)];
    let e = Expr::InList {
        expr: Box::new(Expr::Column("id".into())),
        list: list(),
        negated: false,
    };
    assert_eq!(eval(&e, &schema(), &row).unwrap(), Value::Boolean(true));
    let n = Expr::InList {
        expr: Box::new(Expr::Column("id".into())),
        list: list(),
        negated: true,
    };
    assert_eq!(eval(&n, &schema(), &row).unwrap(), Value::Boolean(false));
    let null_target = Expr::InList {
        expr: Box::new(Expr::Column("name".into())),
        list: list(),
        negated: false,
    };
    assert_eq!(eval(&null_target, &schema(), &row).unwrap(), Value::Null);
}

#[test]
fn in_list_reports_failing_item() {
    let row = vec![Value::Integer(3), Value::Null];
    let e = Expr::InList {
        expr: Box::new(Expr::Column("id".into())),
        list: vec![Expr::Column("missing".into()), Expr::IntLiteral(3)],
        negated: false,
    };
    match eval(&e, &schema(), &row) {
        Err(PlanError::NoSuchColumn(n)) => assert_eq!(n, "missing"),
        other => panic!("unexpected {:?}", other),
    }
}

#[test]
fn qualified_column_falls_back_to_bare_name() {
    let row = vec![Value::Integer(9), Value::Null];
    let e = Expr::QualifiedColumn {
        table: "t".into(),
        column: "id".into(),
    };
    assert_eq!(eval(&e, &schema(), &row).unwrap(), Value::Integer(9));
    let missing = Expr::QualifiedColumn {
        table: "t".into(),
        column: "zzz".into(),
    };
    match eval(&missing, &schema(), &row) {
        Err(PlanError::NoSuchColumn(n)) => assert_eq!(n, "t.zzz"),
        other => panic!("unexpected {:?}", other),
    }
}

#[test]
fn auth_uid_reads_the_context() {
    let row = vec![Value::Integer(1), Value::Null];
    let ctx = ExecutionContext::admin();
    assert_eq!(
        eval_with_context(&Expr::AuthUid, &schema(), &row, &ctx).unwrap(),
        Value::Integer(0)
    );
    assert_eq!(eval(&Expr::AuthUid, &schema(), &row).unwrap(), Value::Null);
}

#[test]
fn comparisons_follow_value_order() {
    let row = vec![Value::Integer(7), Value::Text("b".into())];
    let cmp = |op: BinOp, l: Expr, r: Expr| {
        eval(
            &Expr::BinaryOp {
                op,
                left: Box::new(l),
                right: Box::new(r),
            },
            &schema(),
            &row,
        )
        .unwrap()
    };
    assert_eq!(
        cmp(BinOp::Lt, Expr::Column("id".into()), Expr::IntLiteral(8)),
        Value::Boolean(true)
    );
    assert_eq!(
        cmp(BinOp::GtEq, Expr::Column("name".into()), Expr::StringLiteral("c".into())),
        Value::Boolean(false)
    );
    assert_eq!(
        cmp(BinOp::NotEq, Expr::Null, Expr::IntLiteral(1)),
        Value::Boolean(false)
    );
    assert_eq!(
        cmp(BinOp::Or, Expr::BoolLiteral(false), Expr::BoolLiteral(true)),
        Value::Boolean(true)
    );
}

#[test]
fn truthiness_is_only_boolean_true() {
    assert!(is_truthy(&Value::Boolean(true)));
    assert!(!is_truthy(&Value::Boolean(false)));
    assert!(!is_truthy(&Value::Integer(1)));
    assert!(!is_truthy(&Value::Null));
}

#[test]
fn aggregate_in_row_context_is_invalid() {
    let row = vec![Value::Integer(1), Value::Null];
    let e = Expr::Aggregate(AggregateFunc::CountStar);
    assert!(matches!(
        eval(&e, &schema(), &row),
        Err(PlanError::InvalidExpression(_))
    ));
}

#[test]
fn tokenize_lowercases_and_splits() {
    assert_eq!(
        tokenize_words("Hello, World! foo:* bar*"),
        vec!["hello", "world", "foo:*", "bar*"]
    );
    assert!(tokenize_words("  ,, ").is_empty());
}

#[test]
fn fts_matches_whole_and_prefix_terms() {
    assert!(fts_matches("The quick brown fox", "quick fox"));
    assert!(!fts_matches("The quick brown fox", "quick cat"));
    assert!(fts_matches("The quick brown fox", "bro*"));
    assert!(fts_matches("The quick brown fox", "qu:*"));
    assert!(!fts_matches("The quick brown fox", "bro"));
    assert!(!fts_matches("anything", ""));
}

#[test]
fn fts_snippet_marks_hits_and_elides() {
    assert_eq!(
        fts_snippet("one two three four five six seven eight nine ten eleven", "seven"),
        "... three four five six <b>seven</b> eight nine ten eleven"
    );
    assert_eq!(fts_snippet("alpha beta", ""), "alpha beta");
    assert_eq!(fts_snippet("alpha beta", "zzz"), "alpha beta");
    assert_eq!(
        fts_snippet("a b c d e f g", "zzz"),
        "a b c d e ..."
    );
}

#[test]
fn fts_match_expression_on_text_column() {
    let row = vec![Value::Integer(1), Value::Text("Rust is fast".into())];
    let e = Expr::FtsMatch {
        expr: Box::new(Expr::Column("name".into())),
        query: "rust".into(),
    };
    assert_eq!(eval(&e, &schema(), &row).unwrap(), Value::Boolean(true));
    let s = Expr::FtsSnippet {
        expr: Box::new(Expr::Column("id".into())),
        query: "rust".into(),
    };
    assert_eq!(eval(&s, &schema(), &row).unwrap(), Value::Text(String::new()));
}
