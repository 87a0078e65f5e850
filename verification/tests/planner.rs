use chocobase::plan::planner::{
    contains_or, extract_pk_equality, find_index_equality, literal_value, rebuild_and,
    split_and_conjuncts,
};
use chocobase::sql::ast::{BinOp, Expr};
use chocobase::types::schema::IndexSchema;
use chocobase::types::value::Value;

fn eq(l: Expr, r: Expr) -> Expr {
    Expr::BinaryOp { op: BinOp::Eq, left: Box::new(l), right: Box::new(r) }
}

fn and(l: Expr, r: Expr) -> Expr {
    Expr::BinaryOp { op: BinOp::And, left: Box::new(l), right: Box::new(r) }
}

fn col(n: &str) -> Expr {
    Expr::Column(n.into())
}

#[test]
fn pk_equality_is_extracted_from_and_chain() {
    let w = and(eq(col("name"), Expr::StringLiteral("x".into())), eq(Expr::IntLiteral(5), col("id")));
    let (pk, rest) = extract_pk_equality(Some(w), "id");
    assert_eq!(pk, Some(Value::Integer(5)));
    assert_eq!(rest, Some(eq(col("name"), Expr::StringLiteral("x".into()))));
}

#[test]
fn or_disables_pk_extraction() {
    let w = Expr::BinaryOp {
        op: BinOp::Or,
        left: Box::new(eq(col("id"), Expr::IntLiteral(1))),
        right: Box::new(eq(col("id"), Expr::IntLiteral(2))),
    };
    assert!(contains_or(&w));
    let (pk, rest) = extract_pk_equality(Some(w), "id");
    assert_eq!(pk, None);
    assert!(rest.is_some());
    assert_eq!(extract_pk_equality(None, "id"), (None, None));
}

#[test]
fn index_equality_uses_first_matching_index() {
    let idx = vec![IndexSchema {
        name: "i_name".into(),
        table: "t".into(),
        column: "name".into(),
        root_page: 7,
    }];
    let w = and(eq(col("id"), Expr::IntLiteral(3)), eq(col("name"), Expr::StringLiteral("bob".into())));
    let (i, v, rest) = find_index_equality(Some(w), &idx).unwrap();
    assert_eq!(i.root_page, 7);
    assert_eq!(v, Value::Text("bob".into()));
    assert_eq!(rest, Some(eq(col("id"), Expr::IntLiteral(3))));
    assert!(find_index_equality(Some(eq(col("id"), Expr::IntLiteral(1))), &idx).is_none());
}

#[test]
fn conjuncts_split_and_rebuild_left_to_right() {
    let w = and(and(col("a"), col("b")), col("c"));
    let mut out = Vec::new();
    split_and_conjuncts(w, &mut out);
    assert_eq!(out, vec![col("a"), col("b"), col("c")]);
    assert_eq!(rebuild_and(out), Some(and(and(col("a"), col("b")), col("c"))));
    assert_eq!(rebuild_and(vec![]), None);
    assert_eq!(literal_value(&Expr::BoolLiteral(true)), Some(Value::Boolean(true)));
    assert_eq!(literal_value(&col("a")), None);
}
