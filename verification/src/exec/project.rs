use vstd::prelude::*;

use crate::auth::ExecutionContext;
use crate::error::ExecError;
use crate::exec::{eval_all, eval_error_text, eval_failure, rows_view, Operator};
use crate::plan::expr::{eval_with_context, spec_eval};
use crate::sql::ast::Expr;
use crate::types::schema::{ColumnView, TableSchema};
use crate::types::value::{copy_value, row_view, Value, ValueView};

verus! {

/// The values of a row at the given positions, in the order given.
pub open spec fn pick(row: Seq<ValueView>, indices: Seq<usize>) -> Seq<ValueView> {
    Seq::new(indices.len(), |k: int| row[indices[k] as int])
}

/// Passes on chosen columns of each input row.
pub struct Project {
    input: Vec<Vec<Value>>,
    pos: usize,
    indices: Vec<usize>,
}

impl Project {
    /// Every chosen position lies within every input row.
    #[verifier::type_invariant]
    spec fn inv(self) -> bool {
        &&& self.pos <= self.input@.len()
        &&& forall|i: int, k: int|
            #![trigger self.input@[i], self.indices@[k]]
            0 <= i < self.input@.len() && 0 <= k < self.indices@.len() ==> self.indices@[k] < self.input@[i]@.len()
    }

    /// The input rows.
    pub closed spec fn rows(&self) -> Seq<Seq<ValueView>> {
        rows_view(self.input@)
    }

    /// How many input rows have been consumed.
    pub closed spec fn position(&self) -> int {
        self.pos as int
    }

    /// The chosen column positions.
    pub closed spec fn chosen(&self) -> Seq<usize> {
        self.indices@
    }

    /// A projection of `input` onto the columns at `indices`, each of which lies within
    /// every input row.
    pub fn new(input: Vec<Vec<Value>>, indices: Vec<usize>) -> (p: Self)
        requires
            forall|i: int, k: int|
                #![trigger input@[i], indices@[k]]
                0 <= i < input@.len() && 0 <= k < indices@.len() ==> indices@[k] < input@[i]@.len(),
        ensures
            p.rows() == rows_view(input@),
            p.position() == 0,
            p.chosen() == indices@,
    {
        Project { input, pos: 0, indices }
    }
}

impl Operator for Project {
    fn next(&mut self) -> (r: Result<Option<Vec<Value>>, ExecError>)
        ensures
            final(self).rows() == old(self).rows(),
            final(self).chosen() == old(self).chosen(),
            old(self).position() < old(self).rows().len() ==> (r matches Ok(Some(row)) && row_view(row@) == pick(
                old(self).rows()[old(self).position()],
                old(self).chosen(),
            ) && final(self).position() == old(self).position() + 1),
            old(self).position() >= old(self).rows().len() ==> (r matches Ok(None) && final(self).position()
                == old(self).position()),
    {
        proof {
            use_type_invariant(&*self);
        }
        if self.pos >= self.input.len() {
            return Ok(None);
        }
        let i = self.pos;
        self.pos = i + 1;
        let row = &self.input[i];
        let ghost rv = row_view(row@);
        let mut out: Vec<Value> = Vec::new();
        let mut k: usize = 0;
        while k < self.indices.len()
            invariant
                k <= self.indices@.len(),
                out@.len() == k,
                rv == row_view(row@),
                forall|j: int| 0 <= j < self.indices@.len() ==> self.indices@[j] < row@.len(),
                forall|j: int| 0 <= j < k ==> (#[trigger] out@[j])@ == rv[self.indices@[j] as int],
            decreases self.indices@.len() - k,
        {
            assert(self.indices@[k as int] < row@.len());
            out.push(copy_value(&row[self.indices[k]]));
            k = k + 1;
        }
        assert(row_view(out@) =~= pick(rv, self.indices@));
        Ok(Some(out))
    }
}

/// Passes on, for each input row, the values of a list of expressions evaluated on it.
pub struct ProjectExpr {
    input: Vec<Vec<Value>>,
    pos: usize,
    schema: TableSchema,
    exprs: Vec<Expr>,
    context: ExecutionContext,
}

impl ProjectExpr {
    /// Every expression can be evaluated on every input row.
    #[verifier::type_invariant]
    spec fn inv(self) -> bool {
        &&& self.pos <= self.input@.len()
        &&& forall|i: int, k: int|
            0 <= i < self.input@.len() && 0 <= k < self.exprs@.len() ==> (#[trigger] spec_eval(
                self.exprs@[k],
                self.schema@.columns,
                row_view(self.input@[i]@),
                self.context.user_id,
            )) is Some
    }

    /// The input rows.
    pub closed spec fn rows(&self) -> Seq<Seq<ValueView>> {
        rows_view(self.input@)
    }

    /// How many input rows have been consumed.
    pub closed spec fn position(&self) -> int {
        self.pos as int
    }

    /// The expressions.
    pub closed spec fn expressions(&self) -> Seq<Expr> {
        self.exprs@
    }

    /// The columns the expressions refer to.
    pub closed spec fn columns(&self) -> Seq<ColumnView> {
        self.schema@.columns
    }

    /// The user the expressions are evaluated for.
    pub closed spec fn user(&self) -> Option<i64> {
        self.context.user_id
    }

    /// A projection of `input` onto `exprs`, each evaluable on every input row.
    pub fn new(input: Vec<Vec<Value>>, schema: TableSchema, exprs: Vec<Expr>, context: ExecutionContext) -> (p: Self)
        requires
            forall|i: int, k: int|
                0 <= i < input@.len() && 0 <= k < exprs@.len() ==> (#[trigger] spec_eval(
                    exprs@[k],
                    schema@.columns,
                    row_view(input@[i]@),
                    context.user_id,
                )) is Some,
        ensures
            p.rows() == rows_view(input@),
            p.position() == 0,
            p.expressions() == exprs@,
            p.columns() == schema@.columns,
            p.user() == context.user_id,
    {
        ProjectExpr { input, pos: 0, schema, exprs, context }
    }
}

impl Operator for ProjectExpr {
    fn next(&mut self) -> (r: Result<Option<Vec<Value>>, ExecError>)
        ensures
            final(self).rows() == old(self).rows(),
            final(self).expressions() == old(self).expressions(),
            final(self).columns() == old(self).columns(),
            final(self).user() == old(self).user(),
            old(self).position() >= old(self).rows().len() ==> (r matches Ok(None) && final(self).position()
                == old(self).position()),
            old(self).position() < old(self).rows().len() ==> final(self).position() == old(self).position() + 1
                && match eval_all(
                old(self).expressions(),
                old(self).columns(),
                old(self).rows()[old(self).position()],
                old(self).user(),
            ) {
                Ok(vs) => r matches Ok(Some(row)) && row_view(row@) == vs,
                Err(e) => r matches Err(ExecError::InvalidValue(m)) && m@ == eval_error_text(e),
            },
    {
        proof {
            use_type_invariant(&*self);
        }
        if self.pos >= self.input.len() {
            return Ok(None);
        }
        let i = self.pos;
        self.pos = i + 1;
        let row = &self.input[i];
        let ghost rv = row_view(row@);
        let ghost exprs = self.exprs@;
        let ghost cols = self.schema@.columns;
        let ghost uid = self.context.user_id;
        let mut out: Vec<Value> = Vec::new();
        let mut k: usize = 0;
        while k < self.exprs.len()
            invariant
                self.input == old(self).input,
                self.exprs == old(self).exprs,
                self.schema == old(self).schema,
                self.context == old(self).context,
                self.pos == old(self).pos + 1,
                old(self).pos < old(self).input@.len(),
                row == &old(self).input@[old(self).pos as int],
                k <= exprs.len(),
                out@.len() == k,
                exprs == self.exprs@,
                cols == self.schema@.columns,
                uid == self.context.user_id,
                rv == row_view(row@),
                forall|j: int| 0 <= j < exprs.len() ==> (#[trigger] spec_eval(exprs[j], cols, rv, uid)) is Some,
                eval_all(exprs.take(k as int), cols, rv, uid) matches Ok(vs) && row_view(out@) == vs,
            decreases exprs.len() - k,
        {
            assert(exprs.take(k + 1).drop_last() =~= exprs.take(k as int));
            assert(spec_eval(exprs[k as int], cols, rv, uid) is Some);
            match eval_with_context(&self.exprs[k], &self.schema, row.as_slice(), &self.context) {
                Ok(v) => {
                    let ghost before = out@;
                    out.push(v);
                    assert(row_view(out@) =~= row_view(before).push(out@[k as int]@));
                },
                Err(e) => {
                    proof {
                        crate::exec::lemma_eval_all_prefix_error(exprs, cols, rv, uid, k as int + 1);
                    }
                    return Err(eval_failure(&e));
                },
            }
            k = k + 1;
        }
        assert(exprs.take(exprs.len() as int) =~= exprs);
        Ok(Some(out))
    }
}

} // verus!
