use vstd::prelude::*;

use crate::error::ExecError;
use crate::exec::{copy_row, rows_view, Operator};
use crate::plan::expr::{eval, is_truthy, spec_eval, spec_is_truthy};
use crate::sql::ast::{Expr, JoinType};
use crate::types::schema::{ColumnView, TableSchema};
use crate::types::value::{copy_value, row_view, Value, ValueView};

verus! {

/// Whether a left and a right row are joined: always without a condition; with one, when
/// it evaluates to true on the two rows side by side (a failing evaluation is no match).
pub open spec fn join_matches(
    l: Seq<ValueView>,
    r: Seq<ValueView>,
    cond: Option<Expr>,
    cols: Seq<ColumnView>,
) -> bool {
    match cond {
        None => true,
        Some(c) => match spec_eval(c, cols, l + r, None) {
            Some(Ok(v)) => spec_is_truthy(v),
            _ => false,
        },
    }
}

/// The left row joined with each matching right row, in right-row order.
pub open spec fn joined_with(
    l: Seq<ValueView>,
    rights: Seq<Seq<ValueView>>,
    cond: Option<Expr>,
    cols: Seq<ColumnView>,
) -> Seq<Seq<ValueView>>
    decreases rights.len(),
{
    if rights.len() == 0 {
        Seq::empty()
    } else {
        let prev = joined_with(l, rights.drop_last(), cond, cols);
        if join_matches(l, rights.last(), cond, cols) {
            prev.push(l + rights.last())
        } else {
            prev
        }
    }
}

/// The rows a left row contributes: its matches, or, in a left join when there are none,
/// the row padded with `pad` NULLs.
pub open spec fn left_output(
    l: Seq<ValueView>,
    rights: Seq<Seq<ValueView>>,
    cond: Option<Expr>,
    cols: Seq<ColumnView>,
    kind: JoinType,
    pad: nat,
) -> Seq<Seq<ValueView>> {
    let m = joined_with(l, rights, cond, cols);
    if kind == JoinType::Left && m.len() == 0 {
        seq![l + Seq::new(pad, |i: int| ValueView::Null)]
    } else {
        m
    }
}

/// The rows of a nested-loop join: each left row's contribution, in left-row order.
pub open spec fn join_output(
    lefts: Seq<Seq<ValueView>>,
    rights: Seq<Seq<ValueView>>,
    cond: Option<Expr>,
    cols: Seq<ColumnView>,
    kind: JoinType,
    pad: nat,
) -> Seq<Seq<ValueView>>
    decreases lefts.len(),
{
    if lefts.len() == 0 {
        Seq::empty()
    } else {
        join_output(lefts.drop_last(), rights, cond, cols, kind, pad) + left_output(
            lefts.last(),
            rights,
            cond,
            cols,
            kind,
            pad,
        )
    }
}

/// A row followed by another.
fn concat_rows(a: &[Value], b: &[Value]) -> (r: Vec<Value>)
    ensures
        row_view(r@) == row_view(a@) + row_view(b@),
{
    let mut out = copy_row(a);
    let ghost start = out@;
    let mut i: usize = 0;
    while i < b.len()
        invariant
            i <= b@.len(),
            out@.len() == start.len() + i,
            row_view(start) == row_view(a@),
            forall|k: int| 0 <= k < start.len() ==> (#[trigger] out@[k]) == start[k],
            forall|k: int| 0 <= k < i ==> (#[trigger] out@[start.len() + k])@ == b@[k]@,
        decreases b@.len() - i,
    {
        out.push(copy_value(&b[i]));
        i = i + 1;
    }
    assert(row_view(out@) =~= row_view(a@) + row_view(b@)) by {
        assert forall|k: int| 0 <= k < out@.len() implies row_view(out@)[k] == (row_view(a@) + row_view(b@))[k] by {
            if k < start.len() {
                assert(out@[k] == start[k]);
                assert(row_view(start)[k] == start[k]@);
            } else {
                assert(out@[start.len() + (k - start.len())]@ == b@[k - start.len()]@);
            }
        }
    }
    out
}

/// A row followed by `n` NULLs.
fn pad_nulls(a: &[Value], n: usize) -> (r: Vec<Value>)
    ensures
        row_view(r@) == row_view(a@) + Seq::new(n as nat, |i: int| ValueView::Null),
{
    let mut nulls: Vec<Value> = Vec::new();
    let mut i: usize = 0;
    while i < n
        invariant
            i <= n,
            nulls@.len() == i,
            forall|k: int| 0 <= k < i ==> (#[trigger] nulls@[k])@ == ValueView::Null,
        decreases n - i,
    {
        nulls.push(Value::Null);
        i = i + 1;
    }
    assert(row_view(nulls@) =~= Seq::new(n as nat, |i: int| ValueView::Null));
    concat_rows(a, nulls.as_slice())
}

/// Joins each left row with the right rows, by nested loops.
pub struct NestedLoopJoin {
    output: Vec<Vec<Value>>,
    pos: usize,
}

impl NestedLoopJoin {
    #[verifier::type_invariant]
    spec fn inv(self) -> bool {
        self.pos <= self.output@.len()
    }

    /// The joined rows.
    pub closed spec fn joined(&self) -> Seq<Seq<ValueView>> {
        rows_view(self.output@)
    }

    /// How many joined rows have been passed on.
    pub closed spec fn position(&self) -> int {
        self.pos as int
    }

    /// The join of `left` and `right`: for each left row in order, each right row in order
    /// for which `condition` holds on the two rows side by side (evaluated over
    /// `combined_schema`); in a left join, a left row with no match comes out once, padded
    /// with `right_schema_len` NULLs.
    pub fn new(
        left: Vec<Vec<Value>>,
        right: Vec<Vec<Value>>,
        right_schema_len: usize,
        join_type: JoinType,
        condition: Option<Expr>,
        combined_schema: TableSchema,
    ) -> (j: Self)
        requires
            forall|a: int, b: int|
                #![trigger left@[a], right@[b]]
                0 <= a < left@.len() && 0 <= b < right@.len() && condition is Some ==> spec_eval(
                    condition.unwrap(),
                    combined_schema@.columns,
                    row_view(left@[a]@) + row_view(right@[b]@),
                    None,
                ) is Some,
        ensures
            j.joined() == join_output(
                rows_view(left@),
                rows_view(right@),
                condition,
                combined_schema@.columns,
                join_type,
                right_schema_len as nat,
            ),
            j.position() == 0,
    {
        let ghost lefts = rows_view(left@);
        let ghost rights = rows_view(right@);
        let ghost cols = combined_schema@.columns;
        let ghost pad = right_schema_len as nat;
        let mut out: Vec<Vec<Value>> = Vec::new();
        let mut li: usize = 0;
        assert(lefts.take(0) =~= Seq::<Seq<ValueView>>::empty());
        assert(rows_view(out@) =~= Seq::<Seq<ValueView>>::empty());
        while li < left.len()
            invariant
                li <= left@.len(),
                lefts == rows_view(left@),
                rights == rows_view(right@),
                cols == combined_schema@.columns,
                pad == right_schema_len as nat,
                forall|a: int, b: int|
                    #![trigger left@[a], right@[b]]
                    0 <= a < left@.len() && 0 <= b < right@.len() && condition is Some ==> spec_eval(
                        condition.unwrap(),
                        cols,
                        row_view(left@[a]@) + row_view(right@[b]@),
                        None,
                    ) is Some,
                rows_view(out@) == join_output(lefts.take(li as int), rights, condition, cols, join_type, pad),
            decreases left@.len() - li,
        {
            let l = &left[li];
            let ghost lv = row_view(l@);
            let ghost before = rows_view(out@);
            assert(lefts[li as int] == lv);
            let mut matched = false;
            let mut ri: usize = 0;
            assert(rights.take(0) =~= Seq::<Seq<ValueView>>::empty());
            while ri < right.len()
                invariant
                    ri <= right@.len(),
                    li < left@.len(),
                    l == &left@[li as int],
                    lv == row_view(l@),
                    rights == rows_view(right@),
                    cols == combined_schema@.columns,
                    forall|a: int, b: int|
                        #![trigger left@[a], right@[b]]
                        0 <= a < left@.len() && 0 <= b < right@.len() && condition is Some ==> spec_eval(
                            condition.unwrap(),
                            cols,
                            row_view(left@[a]@) + row_view(right@[b]@),
                            None,
                        ) is Some,
                    rows_view(out@) == before + joined_with(lv, rights.take(ri as int), condition, cols),
                    matched == (joined_with(lv, rights.take(ri as int), condition, cols).len() > 0),
                decreases right@.len() - ri,
            {
                let r = &right[ri];
                assert(rights.take(ri + 1).drop_last() =~= rights.take(ri as int));
                assert(rights[ri as int] == row_view(r@));
                let combined = concat_rows(l.as_slice(), r.as_slice());
                let is_match = match &condition {
                    Some(c) => {
                        assert(spec_eval(*c, cols, row_view(left@[li as int]@) + row_view(right@[ri as int]@), None) is Some);
                        match eval(c, &combined_schema, combined.as_slice()) {
                            Ok(v) => is_truthy(&v),
                            Err(_) => false,
                        }
                    },
                    None => true,
                };
                let ghost prev = rows_view(out@);
                if is_match {
                    out.push(combined);
                    matched = true;
                    assert(rows_view(out@) =~= prev.push(lv + rights[ri as int]));
                }
                ri = ri + 1;
            }
            assert(rights.take(right@.len() as int) =~= rights);
            if join_type == JoinType::Left && !matched {
                let padded = pad_nulls(l.as_slice(), right_schema_len);
                let ghost prev = rows_view(out@);
                out.push(padded);
                assert(rows_view(out@) =~= prev.push(lv + Seq::new(pad, |i: int| ValueView::Null)));
            }
            assert(lefts.take(li + 1).drop_last() =~= lefts.take(li as int));
            assert(rows_view(out@) =~= join_output(lefts.take(li + 1), rights, condition, cols, join_type, pad));
            li = li + 1;
        }
        assert(lefts.take(left@.len() as int) =~= lefts);
        NestedLoopJoin { output: out, pos: 0 }
    }
}

impl Operator for NestedLoopJoin {
    fn next(&mut self) -> (r: Result<Option<Vec<Value>>, ExecError>)
        ensures
            final(self).joined() == old(self).joined(),
            old(self).position() < old(self).joined().len() ==> (r matches Ok(Some(row)) && row_view(row@)
                == old(self).joined()[old(self).position()] && final(self).position() == old(self).position() + 1),
            old(self).position() >= old(self).joined().len() ==> (r matches Ok(None) && final(self).position()
                == old(self).position()),
    {
        proof {
            use_type_invariant(&*self);
        }
        if self.pos < self.output.len() {
            let i = self.pos;
            self.pos = i + 1;
            Ok(Some(copy_row(self.output[i].as_slice())))
        } else {
            Ok(None)
        }
    }
}

} // verus!
