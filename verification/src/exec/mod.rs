pub mod aggregate;
pub mod database;
pub mod filter;
pub mod join;
pub mod limit;
pub mod mutate;
pub mod project;
pub mod sort;
pub mod table;



use vstd::prelude::*;

use crate::error::{plan_error_text, ExecError, PlanError};
use crate::plan::expr::{spec_eval, EvalError};
use crate::sql::ast::Expr;
use crate::types::schema::ColumnView;
use crate::plan::expr::eval;
use crate::types::schema::TableSchema;
use crate::types::value::{copy_value, row_view, values_equal, Value, ValueView};

verus! {

/// A producer of rows, pulled one at a time.
pub trait Operator {
    /// The next row, or `None` once the rows have run out.
    fn next(&mut self) -> Result<Option<Vec<Value>>, ExecError>;
}

/// The views of a sequence of rows.
pub open spec fn rows_view(rows: Seq<Vec<Value>>) -> Seq<Seq<ValueView>> {
    Seq::new(rows.len(), |i: int| row_view(rows[i]@))
}

/// A copy of a row.
pub fn copy_row(row: &[Value]) -> (r: Vec<Value>)
    ensures
        row_view(r@) == row_view(row@),
{
    let mut out: Vec<Value> = Vec::new();
    let mut i: usize = 0;
    while i < row.len()
        invariant
            i <= row@.len(),
            out@.len() == i,
            forall|k: int| 0 <= k < i ==> (#[trigger] out@[k])@ == row@[k]@,
        decreases row@.len() - i,
    {
        out.push(copy_value(&row[i]));
        i = i + 1;
    }
    assert(row_view(out@) =~= row_view(row@));
    out
}

/// The text reported when evaluating an expression fails.
pub open spec fn eval_error_text(e: EvalError) -> Seq<char> {
    match e {
        EvalError::NoSuchColumn(n) => "no such column: "@ + n,
        EvalError::InvalidExpression(m) => "invalid expression: "@ + m,
    }
}

/// An evaluation failure as an execution failure carrying its text.
pub fn eval_failure(e: &PlanError) -> (r: ExecError)
    ensures
        r matches ExecError::InvalidValue(m) && m@ == plan_error_text(*e),
{
    ExecError::InvalidValue(e.message())
}


/// The values of a list of expressions on a row, in order, or the first failure among them.
pub open spec fn eval_all(exprs: Seq<Expr>, cols: Seq<ColumnView>, row: Seq<ValueView>, uid: Option<i64>) -> Result<
    Seq<ValueView>,
    EvalError,
>
    decreases exprs.len(),
{
    if exprs.len() == 0 {
        Ok(Seq::empty())
    } else {
        match eval_all(exprs.drop_last(), cols, row, uid) {
            Ok(vs) => match spec_eval(exprs.last(), cols, row, uid) {
                Some(Ok(v)) => Ok(vs.push(v)),
                Some(Err(e)) => Err(e),
                None => Ok(vs),
            },
            Err(e) => Err(e),
        }
    }
}

/// Once a prefix of the list fails, the whole list fails the same way.
pub proof fn lemma_eval_all_prefix_error(
    exprs: Seq<Expr>,
    cols: Seq<ColumnView>,
    row: Seq<ValueView>,
    uid: Option<i64>,
    k: int,
)
    requires
        0 <= k <= exprs.len(),
        eval_all(exprs.take(k), cols, row, uid) is Err,
    ensures
        eval_all(exprs, cols, row, uid) == eval_all(exprs.take(k), cols, row, uid),
    decreases exprs.len() - k,
{
    if k < exprs.len() {
        assert(exprs.take(k + 1).drop_last() =~= exprs.take(k));
        lemma_eval_all_prefix_error(exprs, cols, row, uid, k + 1);
    } else {
        assert(exprs.take(k) =~= exprs);
    }
}


/// Whether two rows hold the same values.
pub fn rows_equal(a: &[Value], b: &[Value]) -> (r: bool)
    ensures
        r == (row_view(a@) == row_view(b@)),
{
    if a.len() != b.len() {
        assert(row_view(a@).len() != row_view(b@).len());
        return false;
    }
    let mut i: usize = 0;
    while i < a.len()
        invariant
            a@.len() == b@.len(),
            i <= a@.len(),
            forall|k: int| 0 <= k < i ==> (#[trigger] a@[k])@ == b@[k]@,
        decreases a@.len() - i,
    {
        if !values_equal(&a[i], &b[i]) {
            assert(row_view(a@)[i as int] != row_view(b@)[i as int]);
            return false;
        }
        i = i + 1;
    }
    assert(row_view(a@) =~= row_view(b@));
    true
}

/// The values of `exprs` on a row with no user attached, or the first failure.
pub fn eval_exprs(exprs: &[Expr], schema: &TableSchema, row: &[Value]) -> (r: Result<Vec<Value>, PlanError>)
    requires
        forall|k: int| 0 <= k < exprs@.len() ==> (#[trigger] spec_eval(exprs@[k], schema@.columns, row_view(row@), None)) is Some,
    ensures
        match eval_all(exprs@, schema@.columns, row_view(row@), None) {
            Ok(vs) => r matches Ok(out) && row_view(out@) == vs,
            Err(e) => r matches Err(pe) && plan_error_text(pe) == eval_error_text(e),
        },
{
    let ghost cols = schema@.columns;
    let ghost rv = row_view(row@);
    let mut out: Vec<Value> = Vec::new();
    let mut k: usize = 0;
    assert(exprs@.take(0) =~= Seq::<Expr>::empty());
    assert(row_view(out@) =~= Seq::<ValueView>::empty());
    while k < exprs.len()
        invariant
            k <= exprs@.len(),
            out@.len() == k,
            cols == schema@.columns,
            rv == row_view(row@),
            forall|j: int| 0 <= j < exprs@.len() ==> (#[trigger] spec_eval(exprs@[j], cols, rv, None)) is Some,
            eval_all(exprs@.take(k as int), cols, rv, None) matches Ok(vs) && row_view(out@) == vs,
        decreases exprs@.len() - k,
    {
        assert(exprs@.take(k + 1).drop_last() =~= exprs@.take(k as int));
        assert(spec_eval(exprs@[k as int], cols, rv, None) is Some);
        match eval(&exprs[k], schema, row) {
            Ok(v) => {
                let ghost before = out@;
                out.push(v);
                assert(row_view(out@) =~= row_view(before).push(out@[k as int]@));
            },
            Err(e) => {
                proof {
                    lemma_eval_all_prefix_error(exprs@, cols, rv, None, k as int + 1);
                }
                return Err(e);
            },
        }
        k = k + 1;
    }
    assert(exprs@.take(exprs@.len() as int) =~= exprs@);
    Ok(out)
}


/// When every expression can be evaluated, a successful list has one value per expression.
pub proof fn lemma_eval_all_len(exprs: Seq<Expr>, cols: Seq<ColumnView>, row: Seq<ValueView>, uid: Option<i64>)
    requires
        forall|k: int| 0 <= k < exprs.len() ==> (#[trigger] spec_eval(exprs[k], cols, row, uid)) is Some,
    ensures
        eval_all(exprs, cols, row, uid) matches Ok(vs) ==> vs.len() == exprs.len(),
    decreases exprs.len(),
{
    if exprs.len() > 0 {
        let init = exprs.drop_last();
        assert forall|k: int| 0 <= k < init.len() implies (#[trigger] spec_eval(init[k], cols, row, uid)) is Some by {
            assert(init[k] == exprs[k]);
        }
        lemma_eval_all_len(init, cols, row, uid);
        assert(spec_eval(exprs[exprs.len() - 1], cols, row, uid) is Some);
    }
}

} // verus!
