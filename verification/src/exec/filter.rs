use vstd::prelude::*;

use crate::auth::ExecutionContext;
use crate::error::{ExecError};
use crate::exec::{copy_row, eval_error_text, eval_failure, rows_view, Operator};
use crate::plan::expr::{eval_with_context, is_truthy, spec_eval, spec_is_truthy, EvalError};
use crate::sql::ast::Expr;
use crate::types::schema::{ColumnView, TableSchema};
use crate::types::value::{row_view, Value, ValueView};

verus! {

/// What a filter yields next.
pub enum FilterStep {
    /// The input row at this position.
    Row(int),
    /// Nothing: the input has run out.
    Done,
    /// The predicate could not be evaluated on a row.
    Failed(EvalError),
}

/// The filter's next outcome from input position `pos`, and the position after it:
/// rows on which the predicate is not true are skipped; the first on which it is true is
/// yielded; a row on which the predicate cannot be evaluated stops the pull with an error.
pub open spec fn filter_step(
    rows: Seq<Seq<ValueView>>,
    pos: int,
    pred: Expr,
    cols: Seq<ColumnView>,
    uid: Option<i64>,
) -> (FilterStep, int)
    decreases rows.len() - pos,
{
    if pos < 0 || pos >= rows.len() {
        (FilterStep::Done, pos)
    } else {
        match spec_eval(pred, cols, rows[pos], uid) {
            Some(Ok(v)) => if spec_is_truthy(v) {
                (FilterStep::Row(pos), pos + 1)
            } else {
                filter_step(rows, pos + 1, pred, cols, uid)
            },
            Some(Err(e)) => (FilterStep::Failed(e), pos + 1),
            None => (FilterStep::Done, pos),
        }
    }
}

/// Passes on the input rows on which a predicate evaluates to true.
pub struct Filter {
    input: Vec<Vec<Value>>,
    pos: usize,
    schema: TableSchema,
    predicate: Expr,
    context: ExecutionContext,
}

impl Filter {
    /// The predicate can be evaluated on every input row, and the position is within them.
    #[verifier::type_invariant]
    spec fn inv(self) -> bool {
        &&& self.pos <= self.input@.len()
        &&& forall|i: int|
            0 <= i < self.input@.len() ==> (#[trigger] spec_eval(
                self.predicate,
                self.schema@.columns,
                row_view(self.input@[i]@),
                self.context.user_id,
            )) is Some
    }

    /// The input rows.
    pub closed spec fn rows(&self) -> Seq<Seq<ValueView>> {
        rows_view(self.input@)
    }

    /// How many input rows have been consumed.
    pub closed spec fn position(&self) -> int {
        self.pos as int
    }

    /// The predicate.
    pub closed spec fn condition(&self) -> Expr {
        self.predicate
    }

    /// The columns the predicate refers to.
    pub closed spec fn columns(&self) -> Seq<ColumnView> {
        self.schema@.columns
    }

    /// The user the predicate is evaluated for.
    pub closed spec fn user(&self) -> Option<i64> {
        self.context.user_id
    }

    /// The filter's next outcome and the position after it.
    pub open spec fn step(&self) -> (FilterStep, int) {
        filter_step(self.rows(), self.position(), self.condition(), self.columns(), self.user())
    }

    /// A filter over `input`; the predicate must be evaluable on every input row
    /// (each row holds a value for every column it names).
    pub fn new(input: Vec<Vec<Value>>, schema: TableSchema, predicate: Expr, context: ExecutionContext) -> (f: Self)
        requires
            forall|i: int|
                0 <= i < input@.len() ==> (#[trigger] spec_eval(
                    predicate,
                    schema@.columns,
                    row_view(input@[i]@),
                    context.user_id,
                )) is Some,
        ensures
            f.rows() == rows_view(input@),
            f.position() == 0,
            f.condition() == predicate,
            f.columns() == schema@.columns,
            f.user() == context.user_id,
    {
        Filter { input, pos: 0, schema, predicate, context }
    }
}

impl Operator for Filter {
    fn next(&mut self) -> (r: Result<Option<Vec<Value>>, ExecError>)
        ensures
            final(self).rows() == old(self).rows(),
            final(self).condition() == old(self).condition(),
            final(self).columns() == old(self).columns(),
            final(self).user() == old(self).user(),
            final(self).position() == old(self).step().1,
            match old(self).step().0 {
                FilterStep::Row(i) => r matches Ok(Some(row)) && row_view(row@) == old(self).rows()[i],
                FilterStep::Done => r matches Ok(None),
                FilterStep::Failed(e) => r matches Err(ExecError::InvalidValue(m)) && m@ == eval_error_text(e),
            },
    {
        proof {
            use_type_invariant(&*self);
        }
        let ghost rows = self.rows();
        let ghost pred = self.predicate;
        let ghost cols = self.schema@.columns;
        let ghost uid = self.context.user_id;
        let ghost start = self.pos as int;
        let n = self.input.len();
        while self.pos < n
            invariant
                n == self.input@.len(),
                self.pos <= n,
                rows == rows_view(self.input@),
                rows == old(self).rows(),
                pred == self.predicate,
                pred == old(self).condition(),
                cols == self.schema@.columns,
                cols == old(self).columns(),
                uid == self.context.user_id,
                uid == old(self).user(),
                start == old(self).position(),
                filter_step(rows, start, pred, cols, uid) == filter_step(rows, self.pos as int, pred, cols, uid),
            decreases n - self.pos,
        {
            proof {
                use_type_invariant(&*self);
            }
            let i = self.pos;
            assert(spec_eval(pred, cols, row_view(self.input@[i as int]@), uid) is Some);
            assert(rows[i as int] == row_view(self.input@[i as int]@));
            self.pos = i + 1;
            match eval_with_context(&self.predicate, &self.schema, self.input[i].as_slice(), &self.context) {
                Ok(v) => {
                    if is_truthy(&v) {
                        return Ok(Some(copy_row(self.input[i].as_slice())));
                    }
                },
                Err(e) => {
                    return Err(eval_failure(&e));
                },
            }
        }
        Ok(None)
    }
}


/// The rows on which the predicate holds, in order, from position `pos` on; a row on
/// which the predicate fails to evaluate ends them.
pub open spec fn filter_rest(
    rows: Seq<Seq<ValueView>>,
    pos: int,
    pred: Expr,
    cols: Seq<ColumnView>,
    uid: Option<i64>,
) -> Seq<Seq<ValueView>>
    decreases rows.len() - pos,
{
    if pos < 0 || pos >= rows.len() {
        Seq::empty()
    } else {
        match spec_eval(pred, cols, rows[pos], uid) {
            Some(Ok(v)) => if spec_is_truthy(v) {
                seq![rows[pos]] + filter_rest(rows, pos + 1, pred, cols, uid)
            } else {
                filter_rest(rows, pos + 1, pred, cols, uid)
            },
            _ => Seq::empty(),
        }
    }
}

/// Each pull of a filter gives the first of the rows still to come, and leaves the rest
/// to come; when a pull gives no row, none are left.
pub proof fn lemma_filter_pull(rows: Seq<Seq<ValueView>>, pos: int, pred: Expr, cols: Seq<ColumnView>, uid: Option<i64>)
    requires
        0 <= pos,
    ensures
        match filter_step(rows, pos, pred, cols, uid).0 {
            FilterStep::Row(i) => filter_rest(rows, pos, pred, cols, uid) == seq![rows[i]] + filter_rest(
                rows,
                filter_step(rows, pos, pred, cols, uid).1,
                pred,
                cols,
                uid,
            ),
            _ => filter_rest(rows, pos, pred, cols, uid) == Seq::<Seq<ValueView>>::empty(),
        },
    decreases rows.len() - pos,
{
    if pos < rows.len() {
        match spec_eval(pred, cols, rows[pos], uid) {
            Some(Ok(v)) => if !spec_is_truthy(v) {
                lemma_filter_pull(rows, pos + 1, pred, cols, uid);
            },
            _ => {},
        }
    }
}

/// Whether the predicate holds on a row.
pub open spec fn holds_on(row: Seq<ValueView>, pred: Expr, cols: Seq<ColumnView>, uid: Option<i64>) -> bool {
    spec_eval(pred, cols, row, uid) matches Some(Ok(v)) && spec_is_truthy(v)
}

/// When the predicate evaluates on every row, a filter pulled until it stops yields
/// exactly the rows on which the predicate holds, in input order.
pub proof fn lemma_filter_yields_matching_rows(
    rows: Seq<Seq<ValueView>>,
    pred: Expr,
    cols: Seq<ColumnView>,
    uid: Option<i64>,
)
    requires
        forall|i: int| 0 <= i < rows.len() ==> (#[trigger] spec_eval(pred, cols, rows[i], uid)) matches Some(Ok(_)),
    ensures
        filter_rest(rows, 0, pred, cols, uid) == rows.filter(|r: Seq<ValueView>| holds_on(r, pred, cols, uid)),
{
    lemma_filter_rest_suffix(rows, 0, pred, cols, uid);
    assert(rows.skip(0) =~= rows);
}

proof fn lemma_filter_rest_suffix(rows: Seq<Seq<ValueView>>, pos: int, pred: Expr, cols: Seq<ColumnView>, uid: Option<i64>)
    requires
        0 <= pos <= rows.len(),
        forall|i: int| 0 <= i < rows.len() ==> (#[trigger] spec_eval(pred, cols, rows[i], uid)) matches Some(Ok(_)),
    ensures
        filter_rest(rows, pos, pred, cols, uid) == rows.skip(pos).filter(|r: Seq<ValueView>| holds_on(r, pred, cols, uid)),
    decreases rows.len() - pos,
{
    let f = |r: Seq<ValueView>| holds_on(r, pred, cols, uid);
    if pos == rows.len() {
        assert(rows.skip(pos) =~= Seq::<Seq<ValueView>>::empty());
        assert(Seq::<Seq<ValueView>>::empty().filter(f) =~= Seq::<Seq<ValueView>>::empty()) by {
            reveal(Seq::filter);
        }
    } else {
        lemma_filter_rest_suffix(rows, pos + 1, pred, cols, uid);
        let s = rows.skip(pos);
        assert(s =~= seq![rows[pos]] + rows.skip(pos + 1));
        assert(spec_eval(pred, cols, rows[pos], uid) matches Some(Ok(_)));
        rows.skip(pos + 1).lemma_filter_prepend(rows[pos], f);
    }
}

} // verus!
