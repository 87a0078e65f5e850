use vstd::prelude::*;

use crate::error::ExecError;
use crate::exec::{copy_row, rows_view, Operator};
use crate::types::value::{row_view, Value, ValueView};

verus! {

/// Passes on at most a given number of input rows.
pub struct Limit {
    input: Vec<Vec<Value>>,
    pos: usize,
    remaining: i64,
}

impl Limit {
    #[verifier::type_invariant]
    spec fn inv(self) -> bool {
        self.pos <= self.input@.len()
    }

    /// The input rows.
    pub closed spec fn rows(&self) -> Seq<Seq<ValueView>> {
        rows_view(self.input@)
    }

    /// How many input rows have been consumed.
    pub closed spec fn position(&self) -> int {
        self.pos as int
    }

    /// How many more rows may be passed on (none once it is zero or less).
    pub closed spec fn allowance(&self) -> int {
        self.remaining as int
    }

    /// A limit of `n` rows over `input`.
    pub fn new(input: Vec<Vec<Value>>, n: i64) -> (l: Self)
        ensures
            l.rows() == rows_view(input@),
            l.position() == 0,
            l.allowance() == n,
    {
        Limit { input, pos: 0, remaining: n }
    }
}

impl Operator for Limit {
    fn next(&mut self) -> (r: Result<Option<Vec<Value>>, ExecError>)
        ensures
            final(self).rows() == old(self).rows(),
            old(self).allowance() <= 0 ==> (r matches Ok(None) && final(self).position() == old(self).position()
                && final(self).allowance() == old(self).allowance()),
            old(self).allowance() > 0 ==> final(self).allowance() == old(self).allowance() - 1,
            old(self).allowance() > 0 && old(self).position() < old(self).rows().len() ==> (r matches Ok(Some(row))
                && row_view(row@) == old(self).rows()[old(self).position()] && final(self).position()
                == old(self).position() + 1),
            old(self).allowance() > 0 && old(self).position() >= old(self).rows().len() ==> (r matches Ok(None)
                && final(self).position() == old(self).position()),
    {
        proof {
            use_type_invariant(&*self);
        }
        if self.remaining <= 0 {
            return Ok(None);
        }
        self.remaining = self.remaining - 1;
        if self.pos < self.input.len() {
            let i = self.pos;
            self.pos = i + 1;
            Ok(Some(copy_row(self.input[i].as_slice())))
        } else {
            Ok(None)
        }
    }
}


/// The rows a limit still passes on: the next `n` input rows from `pos`, or fewer
/// when the input runs out first.
pub open spec fn limit_rest(rows: Seq<Seq<ValueView>>, pos: int, n: int) -> Seq<Seq<ValueView>> {
    if n <= 0 || pos >= rows.len() {
        Seq::empty()
    } else if pos + n >= rows.len() {
        rows.subrange(pos, rows.len() as int)
    } else {
        rows.subrange(pos, pos + n)
    }
}

/// Each pull of a limit gives the first of the rows still to pass on and leaves the others;
/// a pull that gives no row leaves none. So a fresh limit of `n` passes on the first `n`
/// input rows, or all of them when there are fewer.
pub proof fn lemma_limit_pull(rows: Seq<Seq<ValueView>>, pos: int, n: int)
    requires
        0 <= pos <= rows.len(),
    ensures
        n > 0 && pos < rows.len() ==> limit_rest(rows, pos, n) == seq![rows[pos]] + limit_rest(rows, pos + 1, n - 1),
        n <= 0 || pos >= rows.len() ==> limit_rest(rows, pos, n) == Seq::<Seq<ValueView>>::empty(),
        limit_rest(rows, 0, n) == rows.take(if n <= 0 {
            0
        } else if n >= rows.len() {
            rows.len() as int
        } else {
            n
        }),
{
    if n > 0 && pos < rows.len() {
        assert(limit_rest(rows, pos, n) =~= seq![rows[pos]] + limit_rest(rows, pos + 1, n - 1));
    }
    assert(limit_rest(rows, 0, n) =~= rows.take(if n <= 0 {
        0
    } else if n >= rows.len() {
        rows.len() as int
    } else {
        n
    }));
}

} // verus!
