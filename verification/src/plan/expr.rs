use vstd::prelude::*;

use crate::auth::session::ExecutionContext;
use crate::error::PlanError;
use crate::plan::fts::{fts_matches, fts_snippet, spec_fts_matches, spec_fts_snippet};
use crate::sql::ast::{BinOp, Expr};
use crate::text::{chars_of, push_str, spec_to_lowercase, string_of, to_lowercase};
use crate::types::schema::{lemma_column_index_bound, spec_column_index, ColumnView, TableSchema};
use crate::types::value::{
    copy_value, lemma_integer_order, lemma_sql_cmp_flip, lemma_sql_cmp_refl, row_view, spec_sql_cmp, sql_cmp,
    values_equal, SqlOrder, Value, ValueView,
};

verus! {

/// How evaluating an expression against a row fails.
pub enum EvalError {
    NoSuchColumn(Seq<char>),
    InvalidExpression(Seq<char>),
}

/// The message given when an aggregate is evaluated against a single row.
pub open spec fn aggregate_message() -> Seq<char> {
    "aggregate functions cannot be evaluated directly in row context"@
}

/// Only the boolean `true` is truthy.
pub open spec fn spec_is_truthy(v: ValueView) -> bool {
    v == ValueView::Boolean(true)
}

/// Whether a value counts as true in a condition.
pub fn is_truthy(v: &Value) -> (b: bool)
    ensures
        b == spec_is_truthy(v@),
{
    match v {
        Value::Boolean(b) => *b,
        _ => false,
    }
}

/// The value of a binary operation: `AND` and `OR` on truthiness; a comparison involving
/// NULL is false; other comparisons follow the value order.
pub open spec fn spec_eval_binop(op: BinOp, l: ValueView, r: ValueView) -> ValueView {
    match op {
        BinOp::And => ValueView::Boolean(spec_is_truthy(l) && spec_is_truthy(r)),
        BinOp::Or => ValueView::Boolean(spec_is_truthy(l) || spec_is_truthy(r)),
        _ => if l is Null || r is Null {
            ValueView::Boolean(false)
        } else {
            let ord = spec_sql_cmp(l, r);
            ValueView::Boolean(
                match op {
                    BinOp::Eq => ord == SqlOrder::Equal,
                    BinOp::NotEq => ord != SqlOrder::Equal,
                    BinOp::Lt => ord == SqlOrder::Less,
                    BinOp::LtEq => ord != SqlOrder::Greater,
                    BinOp::Gt => ord == SqlOrder::Greater,
                    _ => ord != SqlOrder::Less,
                },
            )
        },
    }
}

fn eval_binop(op: BinOp, l: &Value, r: &Value) -> (v: Value)
    ensures
        v@ == spec_eval_binop(op, l@, r@),
{
    match op {
        BinOp::And => Value::Boolean(is_truthy(l) && is_truthy(r)),
        BinOp::Or => Value::Boolean(is_truthy(l) || is_truthy(r)),
        _ => {
            let l_null = match l {
                Value::Null => true,
                _ => false,
            };
            let r_null = match r {
                Value::Null => true,
                _ => false,
            };
            if l_null || r_null {
                return Value::Boolean(false);
            }
            let ord = sql_cmp(l, r);
            let result = match op {
                BinOp::Eq => ord == SqlOrder::Equal,
                BinOp::NotEq => ord != SqlOrder::Equal,
                BinOp::Lt => ord == SqlOrder::Less,
                BinOp::LtEq => ord != SqlOrder::Greater,
                BinOp::Gt => ord == SqlOrder::Greater,
                _ => ord != SqlOrder::Less,
            };
            Value::Boolean(result)
        },
    }
}

/// SQL `LIKE` matching of `text[t..]` against `pat[p..]`: `%` matches any run of
/// characters, `_` any one character, every other character itself.
pub open spec fn like_match(text: Seq<char>, pat: Seq<char>, t: int, p: int) -> bool
    decreases pat.len() - p, 0int,
{
    if p < 0 || p > pat.len() || t < 0 || t > text.len() {
        false
    } else if p == pat.len() {
        t == text.len()
    } else if pat[p] == '%' {
        if p + 1 == pat.len() {
            true
        } else {
            like_any(text, pat, t, p + 1)
        }
    } else if t < text.len() && (pat[p] == '_' || pat[p] == text[t]) {
        like_match(text, pat, t + 1, p + 1)
    } else {
        false
    }
}

/// Whether `pat[p..]` matches `text[from'..]` for some `from'` from `from` to the end.
pub open spec fn like_any(text: Seq<char>, pat: Seq<char>, from: int, p: int) -> bool
    decreases pat.len() - p, text.len() + 1 - from,
{
    if from < 0 || from > text.len() || p < 0 || p > pat.len() {
        false
    } else {
        like_match(text, pat, from, p) || like_any(text, pat, from + 1, p)
    }
}

fn like_match_chars(text: &[char], pat: &[char], t_idx: usize, p_idx: usize) -> (b: bool)
    requires
        t_idx <= text@.len(),
        p_idx <= pat@.len(),
    ensures
        b == like_match(text@, pat@, t_idx as int, p_idx as int),
    decreases pat@.len() - p_idx,
{
    if p_idx == pat.len() {
        return t_idx == text.len();
    }
    if pat[p_idx] == '%' {
        if p_idx + 1 == pat.len() {
            return true;
        }
        let n = text.len();
        let pl = pat.len();
        let mut next_t = t_idx;
        loop
            invariant
                t_idx <= next_t <= n,
                n == text@.len(),
                pl == pat@.len(),
                p_idx + 1 < pat@.len(),
                pat@[p_idx as int] == '%',
                like_any(text@, pat@, t_idx as int, p_idx + 1) == like_any(
                    text@,
                    pat@,
                    next_t as int,
                    p_idx + 1,
                ),
            decreases n - next_t,
        {
            if like_match_chars(text, pat, next_t, p_idx + 1) {
                return true;
            }
            if next_t == n {
                assert(!like_any(text@, pat@, n + 1, p_idx + 1));
                return false;
            }
            next_t = next_t + 1;
        }
    }
    if t_idx < text.len() && (pat[p_idx] == '_' || pat[p_idx] == text[t_idx]) {
        return like_match_chars(text, pat, t_idx + 1, p_idx + 1);
    }
    false
}

/// The value of a column: absent when the index lies beyond the row.
pub open spec fn column_value(row: Seq<ValueView>, i: int) -> Option<Result<ValueView, EvalError>> {
    if 0 <= i < row.len() {
        Some(Ok(row[i]))
    } else {
        None
    }
}

/// The value of an expression over a row whose columns are `cols`, for the user `uid`.
/// `None` stands for a column index beyond the row, on which evaluation cannot proceed.
pub open spec fn spec_eval(e: Expr, cols: Seq<ColumnView>, row: Seq<ValueView>, uid: Option<i64>) -> Option<Result<ValueView, EvalError>>
    decreases e, 0int,
{
    match e {
        Expr::AuthUid => Some(
            Ok(
                match uid {
                    Some(u) => ValueView::Integer(u),
                    None => ValueView::Null,
                },
            ),
        ),
        Expr::Column(name) => match spec_column_index(cols, name@) {
            Some(i) => column_value(row, i),
            None => Some(Err(EvalError::NoSuchColumn(name@))),
        },
        Expr::QualifiedColumn { table, column } => {
            let qual = table@ + seq!['.'] + column@;
            match spec_column_index(cols, qual) {
                Some(i) => column_value(row, i),
                None => match spec_column_index(cols, column@) {
                    Some(i) => column_value(row, i),
                    None => Some(Err(EvalError::NoSuchColumn(qual))),
                },
            }
        },
        Expr::IntLiteral(i) => Some(Ok(ValueView::Integer(i))),
        Expr::StringLiteral(s) => Some(Ok(ValueView::Text(s@))),
        Expr::BoolLiteral(b) => Some(Ok(ValueView::Boolean(b))),
        Expr::Null => Some(Ok(ValueView::Null)),
        Expr::IsNull { expr, negated } => match spec_eval(*expr, cols, row, uid) {
            Some(Ok(v)) => Some(Ok(ValueView::Boolean((v is Null) != negated))),
            other => other,
        },
        Expr::BinaryOp { op, left, right } => match spec_eval(*left, cols, row, uid) {
            Some(Ok(l)) => match spec_eval(*right, cols, row, uid) {
                Some(Ok(r)) => Some(Ok(spec_eval_binop(op, l, r))),
                other => other,
            },
            other => other,
        },
        Expr::InList { expr, list, negated } => match spec_eval(*expr, cols, row, uid) {
            Some(Ok(t)) => if t is Null {
                Some(Ok(ValueView::Null))
            } else {
                match spec_in_list(t, list@, 0, cols, row, uid) {
                    Some(Ok(found)) => Some(
                        Ok(
                            ValueView::Boolean(
                                if negated {
                                    !found
                                } else {
                                    found
                                },
                            ),
                        ),
                    ),
                    Some(Err(err)) => Some(Err(err)),
                    None => None,
                }
            },
            other => other,
        },
        Expr::Like { expr, pattern, negated, case_insensitive } => match spec_eval(*expr, cols, row, uid) {
            Some(Ok(v)) => if v is Null {
                Some(Ok(ValueView::Null))
            } else {
                let text = match v {
                    ValueView::Text(s) => if case_insensitive {
                        spec_to_lowercase(s)
                    } else {
                        s
                    },
                    _ => Seq::empty(),
                };
                let pat = if case_insensitive {
                    spec_to_lowercase(pattern@)
                } else {
                    pattern@
                };
                let m = like_match(text, pat, 0, 0);
                Some(
                    Ok(
                        ValueView::Boolean(
                            if negated {
                                !m
                            } else {
                                m
                            },
                        ),
                    ),
                )
            },
            other => other,
        },
        Expr::Aggregate(_) => Some(Err(EvalError::InvalidExpression(aggregate_message()))),
        Expr::FtsMatch { expr, query } => match spec_eval(*expr, cols, row, uid) {
            Some(Ok(v)) => match v {
                ValueView::Text(s) => Some(Ok(ValueView::Boolean(spec_fts_matches(s, query@)))),
                ValueView::Json(s) => Some(Ok(ValueView::Boolean(spec_fts_matches(s, query@)))),
                _ => Some(Ok(ValueView::Boolean(false))),
            },
            other => other,
        },
        Expr::FtsSnippet { expr, query } => match spec_eval(*expr, cols, row, uid) {
            Some(Ok(v)) => match v {
                ValueView::Text(s) => Some(Ok(ValueView::Text(spec_fts_snippet(s, query@)))),
                ValueView::Json(s) => Some(Ok(ValueView::Text(spec_fts_snippet(s, query@)))),
                _ => Some(Ok(ValueView::Text(Seq::empty()))),
            },
            other => other,
        },
    }
}

/// Whether some item from position `i` on evaluates to `target`; the first failing item
/// before a hit ends the search with its failure.
pub open spec fn spec_in_list(
    target: ValueView,
    items: Seq<Expr>,
    i: int,
    cols: Seq<ColumnView>,
    row: Seq<ValueView>,
    uid: Option<i64>,
) -> Option<Result<bool, EvalError>>
    decreases items, items.len() - i,
{
    if i < 0 || i >= items.len() {
        Some(Ok(false))
    } else {
        match spec_eval(items[i], cols, row, uid) {
            Some(Ok(c)) => if c == target {
                Some(Ok(true))
            } else {
                spec_in_list(target, items, i + 1, cols, row, uid)
            },
            Some(Err(err)) => Some(Err(err)),
            None => None,
        }
    }
}

/// Whether an evaluation result agrees with its abstract outcome.
pub open spec fn outcome_matches(r: Result<Value, PlanError>, s: Result<ValueView, EvalError>) -> bool {
    match (r, s) {
        (Ok(v), Ok(w)) => v@ == w,
        (Err(PlanError::NoSuchColumn(n)), Err(EvalError::NoSuchColumn(m))) => n@ == m,
        (Err(PlanError::InvalidExpression(n)), Err(EvalError::InvalidExpression(m))) => n@ == m,
        _ => false,
    }
}

fn no_such_column(name: &str) -> (r: Result<Value, PlanError>)
    ensures
        r matches Err(PlanError::NoSuchColumn(n)) && n@ == name@,
{
    Err(PlanError::NoSuchColumn(name.to_string()))
}

fn column_at(row: &[Value], i: usize) -> (r: Result<Value, PlanError>)
    requires
        i < row@.len(),
    ensures
        r matches Ok(v) && v@ == row@[i as int]@,
{
    Ok(copy_value(&row[i]))
}

fn in_list(
    target: &Value,
    list: &Vec<Expr>,
    schema: &TableSchema,
    row: &[Value],
    ctx: &ExecutionContext,
) -> (r: Result<bool, PlanError>)
    requires
        spec_in_list(target@, list@, 0, schema@.columns, row_view(row@), ctx.user_id) is Some,
    ensures
        match (r, spec_in_list(target@, list@, 0, schema@.columns, row_view(row@), ctx.user_id).unwrap()) {
            (Ok(b), Ok(c)) => b == c,
            (Err(e), Err(f)) => outcome_matches(Err(e), Err(f)),
            _ => false,
        },
    decreases list, 0int,
{
    let ghost cols = schema@.columns;
    let ghost rv = row_view(row@);
    let ghost uid = ctx.user_id;
    let mut i: usize = 0;
    while i < list.len()
        invariant
            cols == schema@.columns,
            rv == row_view(row@),
            uid == ctx.user_id,
            i <= list@.len(),
            spec_in_list(target@, list@, 0, cols, rv, uid) == spec_in_list(target@, list@, i as int, cols, rv, uid),
            spec_in_list(target@, list@, i as int, cols, rv, uid) is Some,
        decreases list@.len() - i,
    {
        let item = &list[i];
        assert(decreases_to!(list => list@[i as int]));
        let candidate = match eval_with_context(item, schema, row, ctx) {
            Ok(v) => v,
            Err(e) => {
                return Err(e);
            },
        };
        if values_equal(target, &candidate) {
            return Ok(true);
        }
        i = i + 1;
    }
    Ok(false)
}

/// Evaluates an expression over a row of the table `schema` for the user of `ctx`.
pub fn eval_with_context(
    expr: &Expr,
    schema: &TableSchema,
    row: &[Value],
    ctx: &ExecutionContext,
) -> (r: Result<Value, PlanError>)
    requires
        spec_eval(*expr, schema@.columns, row_view(row@), ctx.user_id) is Some,
    ensures
        outcome_matches(r, spec_eval(*expr, schema@.columns, row_view(row@), ctx.user_id).unwrap()),
    decreases expr, 1int,
{
    let ghost cols = schema@.columns;
    let ghost rv = row_view(row@);
    match expr {
        Expr::AuthUid => match ctx.user_id {
            Some(uid) => Ok(Value::Integer(uid)),
            None => Ok(Value::Null),
        },
        Expr::Column(name) => {
            proof {
                lemma_column_index_bound(cols, name@);
            }
            match schema.column_index(name.as_str()) {
                Some(idx) => column_at(row, idx),
                None => no_such_column(name.as_str()),
            }
        },
        Expr::QualifiedColumn { table, column } => {
            let mut q: Vec<char> = Vec::new();
            push_str(&mut q, table.as_str());
            q.push('.');
            push_str(&mut q, column.as_str());
            let qual = string_of(q.as_slice());
            assert(qual@ == table@ + seq!['.'] + column@);
            proof {
                lemma_column_index_bound(cols, qual@);
                lemma_column_index_bound(cols, column@);
            }
            match schema.column_index(qual.as_str()) {
                Some(idx) => column_at(row, idx),
                None => match schema.column_index(column.as_str()) {
                    Some(idx) => column_at(row, idx),
                    None => no_such_column(qual.as_str()),
                },
            }
        },
        Expr::IntLiteral(i) => Ok(Value::Integer(*i)),
        Expr::StringLiteral(s) => Ok(Value::Text(s.clone())),
        Expr::BoolLiteral(b) => Ok(Value::Boolean(*b)),
        Expr::Null => Ok(Value::Null),
        Expr::IsNull { expr: inner, negated } => {
            let v = match eval_with_context(inner, schema, row, ctx) {
                Ok(v) => v,
                Err(e) => {
                    return Err(e);
                },
            };
            let is_null = match v {
                Value::Null => true,
                _ => false,
            };
            Ok(Value::Boolean(is_null != *negated))
        },
        Expr::BinaryOp { op, left, right } => {
            let l = match eval_with_context(left, schema, row, ctx) {
                Ok(v) => v,
                Err(e) => {
                    return Err(e);
                },
            };
            let r = match eval_with_context(right, schema, row, ctx) {
                Ok(v) => v,
                Err(e) => {
                    return Err(e);
                },
            };
            Ok(eval_binop(*op, &l, &r))
        },
        Expr::InList { expr: inner, list, negated } => {
            let target = match eval_with_context(inner, schema, row, ctx) {
                Ok(v) => v,
                Err(e) => {
                    return Err(e);
                },
            };
            if let Value::Null = target {
                return Ok(Value::Null);
            }
            let found = match in_list(&target, list, schema, row, ctx) {
                Ok(b) => b,
                Err(e) => {
                    return Err(e);
                },
            };
            Ok(Value::Boolean(if *negated { !found } else { found }))
        },
        Expr::Like { expr: inner, pattern, negated, case_insensitive } => {
            let val = match eval_with_context(inner, schema, row, ctx) {
                Ok(v) => v,
                Err(e) => {
                    return Err(e);
                },
            };
            let text_chars: Vec<char> = match &val {
                Value::Text(s) => if *case_insensitive {
                    chars_of(to_lowercase(s.as_str()).as_str())
                } else {
                    chars_of(s.as_str())
                },
                Value::Null => {
                    return Ok(Value::Null);
                },
                _ => Vec::new(),
            };
            let pat_chars = if *case_insensitive {
                chars_of(to_lowercase(pattern.as_str()).as_str())
            } else {
                chars_of(pattern.as_str())
            };
            let is_match = like_match_chars(text_chars.as_slice(), pat_chars.as_slice(), 0, 0);
            Ok(Value::Boolean(if *negated { !is_match } else { is_match }))
        },
        Expr::Aggregate(_) => Err(
            PlanError::InvalidExpression(
                String::from_str("aggregate functions cannot be evaluated directly in row context"),
            ),
        ),
        Expr::FtsMatch { expr: inner, query } => {
            let val = match eval_with_context(inner, schema, row, ctx) {
                Ok(v) => v,
                Err(e) => {
                    return Err(e);
                },
            };
            match &val {
                Value::Text(s) => Ok(Value::Boolean(fts_matches(s.as_str(), query.as_str()))),
                Value::Json(s) => Ok(Value::Boolean(fts_matches(s.as_str(), query.as_str()))),
                _ => Ok(Value::Boolean(false)),
            }
        },
        Expr::FtsSnippet { expr: inner, query } => {
            let val = match eval_with_context(inner, schema, row, ctx) {
                Ok(v) => v,
                Err(e) => {
                    return Err(e);
                },
            };
            match &val {
                Value::Text(s) => Ok(Value::Text(fts_snippet(s.as_str(), query.as_str()))),
                Value::Json(s) => Ok(Value::Text(fts_snippet(s.as_str(), query.as_str()))),
                _ => Ok(Value::Text(String::new())),
            }
        },
    }
}

/// Evaluates an expression over a row of the table `schema` with no user attached.
pub fn eval(expr: &Expr, schema: &TableSchema, row: &[Value]) -> (r: Result<Value, PlanError>)
    requires
        spec_eval(*expr, schema@.columns, row_view(row@), None) is Some,
    ensures
        outcome_matches(r, spec_eval(*expr, schema@.columns, row_view(row@), None).unwrap()),
{
    let ctx = ExecutionContext::anonymous();
    eval_with_context(expr, schema, row, &ctx)
}

/// Over a row that has a value for every column, evaluation never runs off the row.
pub proof fn lemma_eval_defined(e: Expr, cols: Seq<ColumnView>, row: Seq<ValueView>, uid: Option<i64>)
    requires
        row.len() >= cols.len(),
    ensures
        spec_eval(e, cols, row, uid) is Some,
    decreases e, 0int,
{
    match e {
        Expr::Column(name) => {
            lemma_column_index_bound(cols, name@);
        },
        Expr::QualifiedColumn { table, column } => {
            lemma_column_index_bound(cols, table@ + seq!['.'] + column@);
            lemma_column_index_bound(cols, column@);
        },
        Expr::IsNull { expr, negated: _ } => {
            lemma_eval_defined(*expr, cols, row, uid);
        },
        Expr::BinaryOp { op: _, left, right } => {
            lemma_eval_defined(*left, cols, row, uid);
            lemma_eval_defined(*right, cols, row, uid);
        },
        Expr::InList { expr, list, negated: _ } => {
            lemma_eval_defined(*expr, cols, row, uid);
            if let Some(Ok(t)) = spec_eval(*expr, cols, row, uid) {
                lemma_in_list_defined(t, list@, 0, cols, row, uid);
            }
        },
        Expr::Like { expr, .. } => {
            lemma_eval_defined(*expr, cols, row, uid);
        },
        Expr::FtsMatch { expr, query: _ } => {
            lemma_eval_defined(*expr, cols, row, uid);
        },
        Expr::FtsSnippet { expr, query: _ } => {
            lemma_eval_defined(*expr, cols, row, uid);
        },
        _ => {},
    }
}

/// Over a row that has a value for every column, a list search never runs off the row.
pub proof fn lemma_in_list_defined(
    target: ValueView,
    items: Seq<Expr>,
    i: int,
    cols: Seq<ColumnView>,
    row: Seq<ValueView>,
    uid: Option<i64>,
)
    requires
        row.len() >= cols.len(),
    ensures
        spec_in_list(target, items, i, cols, row, uid) is Some,
    decreases items, items.len() - i,
{
    if 0 <= i < items.len() {
        lemma_eval_defined(items[i], cols, row, uid);
        lemma_in_list_defined(target, items, i + 1, cols, row, uid);
    }
}

/// Comparisons of integers follow their signed order.
pub proof fn lemma_integer_comparisons(a: i64, b: i64)
    ensures
        spec_eval_binop(BinOp::Eq, ValueView::Integer(a), ValueView::Integer(b)) == ValueView::Boolean(a == b),
        spec_eval_binop(BinOp::NotEq, ValueView::Integer(a), ValueView::Integer(b)) == ValueView::Boolean(a != b),
        spec_eval_binop(BinOp::Lt, ValueView::Integer(a), ValueView::Integer(b)) == ValueView::Boolean(a < b),
        spec_eval_binop(BinOp::LtEq, ValueView::Integer(a), ValueView::Integer(b)) == ValueView::Boolean(a <= b),
        spec_eval_binop(BinOp::Gt, ValueView::Integer(a), ValueView::Integer(b)) == ValueView::Boolean(a > b),
        spec_eval_binop(BinOp::GtEq, ValueView::Integer(a), ValueView::Integer(b)) == ValueView::Boolean(a >= b),
{
    lemma_integer_order(a, b);
}

/// Against itself, a non-NULL value is `=`, `<=` and `>=`, and neither `<`, `>` nor `<>`.
pub proof fn lemma_comparison_reflexive(x: ValueView)
    requires
        !(x is Null),
    ensures
        spec_eval_binop(BinOp::Eq, x, x) == ValueView::Boolean(true),
        spec_eval_binop(BinOp::LtEq, x, x) == ValueView::Boolean(true),
        spec_eval_binop(BinOp::GtEq, x, x) == ValueView::Boolean(true),
        spec_eval_binop(BinOp::Lt, x, x) == ValueView::Boolean(false),
        spec_eval_binop(BinOp::Gt, x, x) == ValueView::Boolean(false),
        spec_eval_binop(BinOp::NotEq, x, x) == ValueView::Boolean(false),
{
    lemma_sql_cmp_refl(x);
}

/// `a >= b` holds exactly when `b <= a`, and `a > b` exactly when `b < a`: the comparisons
/// read the same whichever side the operands stand on.
pub proof fn lemma_comparison_converse(l: ValueView, r: ValueView)
    ensures
        spec_eval_binop(BinOp::GtEq, l, r) == spec_eval_binop(BinOp::LtEq, r, l),
        spec_eval_binop(BinOp::Gt, l, r) == spec_eval_binop(BinOp::Lt, r, l),
{
    lemma_sql_cmp_flip(l, r);
}

/// On a non-NULL operand, `NOT LIKE` answers the opposite of `LIKE` with the same pattern
/// and case rule; on NULL both answer NULL.
pub proof fn lemma_not_like_is_negation(
    inner: Expr,
    pattern: String,
    case_insensitive: bool,
    cols: Seq<ColumnView>,
    row: Seq<ValueView>,
    uid: Option<i64>,
)
    ensures
        ({
            let pos = spec_eval(
                Expr::Like { expr: Box::new(inner), pattern, negated: false, case_insensitive },
                cols,
                row,
                uid,
            );
            let neg = spec_eval(
                Expr::Like { expr: Box::new(inner), pattern, negated: true, case_insensitive },
                cols,
                row,
                uid,
            );
            match spec_eval(inner, cols, row, uid) {
                Some(Ok(v)) => if v is Null {
                    pos == Some(Ok::<ValueView, EvalError>(ValueView::Null)) && neg == pos
                } else {
                    pos matches Some(Ok(ValueView::Boolean(b))) && neg == Some(
                        Ok::<ValueView, EvalError>(ValueView::Boolean(!b)),
                    )
                },
                other => pos == other && neg == other,
            }
        }),
{
}

} // verus!
