use vstd::prelude::*;

use crate::auth::ExecutionContext;
use crate::error::{ExecError, PlanError};
use crate::exec::sort::{is_stable_sort, Sort};
use crate::exec::project::pick;
use crate::exec::{copy_row, eval_error_text, eval_failure, rows_view, Operator};
use crate::plan::expr::{eval_with_context, is_truthy, spec_eval, spec_is_truthy, EvalError};
use crate::sql::ast::Expr;
use crate::types::schema::{spec_column_index, ColumnView, TableSchema};
use crate::types::value::{copy_value, row_view, Value, ValueView};

verus! {

/// Whether a row passes the optional condition, or the failure evaluating it.
pub open spec fn passes(row: Seq<ValueView>, pred: Option<Expr>, cols: Seq<ColumnView>, uid: Option<i64>) -> Result<bool, EvalError> {
    match pred {
        None => Ok(true),
        Some(p) => match spec_eval(p, cols, row, uid) {
            Some(Ok(v)) => Ok(spec_is_truthy(v)),
            Some(Err(e)) => Err(e),
            None => Ok(false),
        },
    }
}

/// The rows passing the condition, in order, or the first failure evaluating it.
pub open spec fn matching(rows: Seq<Seq<ValueView>>, pred: Option<Expr>, cols: Seq<ColumnView>, uid: Option<i64>) -> Result<
    Seq<Seq<ValueView>>,
    EvalError,
>
    decreases rows.len(),
{
    if rows.len() == 0 {
        Ok(Seq::empty())
    } else {
        match matching(rows.drop_last(), pred, cols, uid) {
            Err(e) => Err(e),
            Ok(ms) => match passes(rows.last(), pred, cols, uid) {
                Err(e) => Err(e),
                Ok(b) => Ok(
                    if b {
                        ms.push(rows.last())
                    } else {
                        ms
                    },
                ),
            },
        }
    }
}

/// The first `n` rows from position `i` on that pass the condition, read in order and no
/// further than needed; or the failure evaluating it on a row read before then.
pub open spec fn first_matching(
    rows: Seq<Seq<ValueView>>,
    i: int,
    pred: Option<Expr>,
    cols: Seq<ColumnView>,
    uid: Option<i64>,
    n: int,
) -> Result<Seq<Seq<ValueView>>, EvalError>
    decreases rows.len() - i,
{
    if n <= 0 || i < 0 || i >= rows.len() {
        Ok(Seq::empty())
    } else {
        match passes(rows[i], pred, cols, uid) {
            Err(e) => Err(e),
            Ok(true) => match first_matching(rows, i + 1, pred, cols, uid, n - 1) {
                Ok(rest) => Ok(seq![rows[i]] + rest),
                Err(e) => Err(e),
            },
            Ok(false) => first_matching(rows, i + 1, pred, cols, uid, n),
        }
    }
}

/// Whether the ORDER BY column is not a column of the table.
pub open spec fn unknown_order(cols: Seq<ColumnView>, order_by: Option<(String, bool)>) -> bool {
    order_by is Some && spec_column_index(cols, order_by.unwrap().0@) is None
}

/// Whether the limit lets no row through.
pub open spec fn limit_blocks(limit: Option<i64>) -> bool {
    limit matches Some(n) && n <= 0
}

/// The rows of a successful outcome (none for a failure).
pub open spec fn ok_rows(r: Result<Seq<Seq<ValueView>>, EvalError>) -> Seq<Seq<ValueView>> {
    match r {
        Ok(x) => x,
        Err(_) => Seq::empty(),
    }
}

/// Whether a row has every column and every chosen position.
pub open spec fn fits(row: Seq<ValueView>, proj: Seq<usize>, ncols: nat) -> bool {
    row.len() >= ncols && forall|k: int| 0 <= k < proj.len() ==> proj[k] < row.len()
}

/// Each row cut down to the chosen columns.
pub open spec fn pick_all(rows: Seq<Seq<ValueView>>, indices: Seq<usize>) -> Seq<Seq<ValueView>> {
    Seq::new(rows.len(), |i: int| pick(rows[i], indices))
}

/// Whether `out` is a stable ordering of `rows` on column `key` (reversed when
/// descending), each row cut down to `proj`, with `limit` rows let through.
pub open spec fn sorted_outcome(
    rows: Seq<Seq<ValueView>>,
    out: Seq<Seq<ValueView>>,
    key: int,
    desc: bool,
    proj: Seq<usize>,
    limit: Option<i64>,
) -> bool {
    exists|s: Seq<Seq<ValueView>>|
        #[trigger] is_stable_sort(rows, s, key, desc) && out == pick_all(s, proj).take(limit_count(limit, s.len() as int))
}

/// What a single-table query over `all` (the table's rows in key order) gives: an unknown
/// ORDER BY column is refused; a limit of zero or less gives no row; without ORDER BY the
/// first matching rows up to the limit, read in order; with it the matching rows ordered
/// stably on that column; each cut down to `proj`. A condition that fails to evaluate on
/// a row that is read refuses the query.
pub open spec fn select_outcome(
    all: Seq<Seq<ValueView>>,
    cols: Seq<ColumnView>,
    where_clause: Option<Expr>,
    proj: Seq<usize>,
    order_by: Option<(String, bool)>,
    limit: Option<i64>,
    uid: Option<i64>,
    r: Result<Vec<Vec<Value>>, ExecError>,
) -> bool {
    &&& unknown_order(cols, order_by) ==> (r matches Err(ExecError::Plan(PlanError::NoSuchColumn(n))) && n@
        == order_by.unwrap().0@)
    &&& !unknown_order(cols, order_by) && limit_blocks(limit) ==> (r matches Ok(v) && v@.len() == 0)
    &&& !unknown_order(cols, order_by) && !limit_blocks(limit) && order_by is None ==> match first_matching(
        all,
        0,
        where_clause,
        cols,
        uid,
        limit_count(limit, all.len() as int),
    ) {
        Ok(ms) => r matches Ok(v) && rows_view(v@) == pick_all(ms, proj),
        Err(e) => r matches Err(ExecError::InvalidValue(m)) && m@ == eval_error_text(e),
    }
    &&& !unknown_order(cols, order_by) && !limit_blocks(limit) && order_by is Some ==> match matching(
        all,
        where_clause,
        cols,
        uid,
    ) {
        Ok(ms) => r matches Ok(v) && sorted_outcome(
            ms,
            rows_view(v@),
            spec_column_index(cols, order_by.unwrap().0@).unwrap(),
            order_by.unwrap().1,
            proj,
            limit,
        ),
        Err(e) => r matches Err(ExecError::InvalidValue(m)) && m@ == eval_error_text(e),
    }
}

/// How many rows a limit lets through out of `len`.
pub open spec fn limit_count(limit: Option<i64>, len: int) -> int {
    match limit {
        None => len,
        Some(n) => if n <= 0 {
            0
        } else if n >= len {
            len
        } else {
            n as int
        },
    }
}

fn pick_row(row: &[Value], indices: &[usize]) -> (r: Vec<Value>)
    requires
        forall|k: int| 0 <= k < indices@.len() ==> indices@[k] < row@.len(),
    ensures
        row_view(r@) == pick(row_view(row@), indices@),
{
    let mut out: Vec<Value> = Vec::new();
    let mut k: usize = 0;
    while k < indices.len()
        invariant
            k <= indices@.len(),
            out@.len() == k,
            forall|j: int| 0 <= j < indices@.len() ==> indices@[j] < row@.len(),
            forall|j: int| 0 <= j < k ==> (#[trigger] out@[j])@ == row@[indices@[j] as int]@,
        decreases indices@.len() - k,
    {
        out.push(copy_value(&row[indices[k]]));
        k = k + 1;
    }
    assert(row_view(out@) =~= pick(row_view(row@), indices@));
    out
}

pub(crate) fn row_passes(row: &[Value], pred: &Option<Expr>, schema: &TableSchema, ctx: &ExecutionContext) -> (r: Result<bool, ExecError>)
    requires
        row@.len() >= schema@.columns.len(),
    ensures
        match passes(row_view(row@), *pred, schema@.columns, ctx.user_id) {
            Ok(b) => r == Ok::<bool, ExecError>(b),
            Err(e) => r matches Err(ExecError::InvalidValue(m)) && m@ == eval_error_text(e),
        },
{
    match pred {
        None => Ok(true),
        Some(p) => {
            proof {
                crate::plan::expr::lemma_eval_defined(*p, schema@.columns, row_view(row@), ctx.user_id);
            }
            match eval_with_context(p, schema, row, ctx) {
                Ok(v) => Ok(is_truthy(&v)),
                Err(e) => Err(eval_failure(&e)),
            }
        },
    }
}

/// Runs the plan of a single-table query over the table's rows (in key order): keep the
/// rows on which `where_clause` is true, order them on `order_by` (stably, reversed when
/// descending), cut each down to `projection`, and let `limit` rows through. An unknown
/// ORDER BY column is refused before any row is read; a limit of zero or less reads no
/// row; without ORDER BY rows are read only until the limit is reached.
#[verifier::loop_isolation(false)]
pub fn run_select(
    rows: &Vec<Vec<Value>>,
    schema: &TableSchema,
    where_clause: &Option<Expr>,
    projection: &Vec<usize>,
    order_by: &Option<(String, bool)>,
    limit: Option<i64>,
    ctx: &ExecutionContext,
) -> (r: Result<Vec<Vec<Value>>, ExecError>)
    requires
        forall|i: int| 0 <= i < rows@.len() ==> (#[trigger] rows@[i])@.len() >= schema@.columns.len(),
        forall|i: int, k: int|
            #![trigger rows@[i], projection@[k]]
            0 <= i < rows@.len() && 0 <= k < projection@.len() ==> projection@[k] < rows@[i]@.len(),
    ensures
        select_outcome(rows_view(rows@), schema@.columns, *where_clause, projection@, *order_by, limit, ctx.user_id, r),
{
    let ghost all = rows_view(rows@);
    let ghost cols = schema@.columns;
    let ghost uid = ctx.user_id;
    let key = match order_by {
        Some((c, desc)) => match schema.column_index(c.as_str()) {
            Some(i) => Some((i, *desc)),
            None => {
                return Err(ExecError::Plan(PlanError::NoSuchColumn(c.clone())));
            },
        },
        None => None,
    };
    if let Some(n) = limit {
        if n <= 0 {
            return Ok(Vec::new());
        }
    }
    match key {
        None => {
            let want: usize = match limit {
                Some(n) => if (n as u64) < (rows.len() as u64) {
                    n as usize
                } else {
                    rows.len()
                },
                None => rows.len(),
            };
            let ghost n = limit_count(limit, all.len() as int);
            assert(want == n);
            let mut out: Vec<Vec<Value>> = Vec::new();
            let mut got: usize = 0;
            let mut i: usize = 0;
            while i < rows.len() && got < want
                invariant
                    i <= rows@.len(),
                    got <= want,
                    want == n,
                    all == rows_view(rows@),
                    cols == schema@.columns,
                    uid == ctx.user_id,
                    forall|j: int| 0 <= j < rows@.len() ==> (#[trigger] rows@[j])@.len() >= schema@.columns.len(),
                    forall|j: int, k: int|
                        #![trigger rows@[j], projection@[k]]
                        0 <= j < rows@.len() && 0 <= k < projection@.len() ==> projection@[k] < rows@[j]@.len(),
                    out@.len() == got,
                    match first_matching(all, 0, *where_clause, cols, uid, n) {
                        Ok(ms) => match first_matching(all, i as int, *where_clause, cols, uid, n - got) {
                            Ok(rest) => ms == Seq::new(got as nat, |j: int| ms[j]) + rest && rows_view(out@)
                                == pick_all(Seq::new(got as nat, |j: int| ms[j]), projection@),
                            Err(_) => false,
                        },
                        Err(e) => first_matching(all, i as int, *where_clause, cols, uid, n - got) == Err::<
                            Seq<Seq<ValueView>>,
                            EvalError,
                        >(e) && got <= n,
                    },
                decreases rows@.len() - i,
            {
                assert(all[i as int] == row_view(rows@[i as int]@));
                let ok = row_passes(rows[i].as_slice(), where_clause, schema, ctx);
                match ok {
                    Err(e) => {
                        return Err(e);
                    },
                    Ok(true) => {
                        let ghost before = rows_view(out@);
                        out.push(pick_row(rows[i].as_slice(), projection.as_slice()));
                        proof {
                            if let Ok(ms) = first_matching(all, 0, *where_clause, cols, uid, n) {
                                let rest = ok_rows(first_matching(all, i as int, *where_clause, cols, uid, n - got));
                                let rest2 = ok_rows(first_matching(all, i + 1, *where_clause, cols, uid, n - got - 1));
                                assert(rest == seq![all[i as int]] + rest2);
                                assert(ms[got as int] == all[i as int]);
                                assert(ms =~= Seq::new((got + 1) as nat, |j: int| ms[j]) + rest2);
                                assert(rows_view(out@) =~= before.push(pick(all[i as int], projection@)));
                                assert(pick_all(Seq::new((got + 1) as nat, |j: int| ms[j]), projection@) =~= pick_all(
                                    Seq::new(got as nat, |j: int| ms[j]),
                                    projection@,
                                ).push(pick(ms[got as int], projection@)));
                                assert(rows_view(out@) =~= pick_all(Seq::new((got + 1) as nat, |j: int| ms[j]), projection@));
                            }
                        }
                        got = got + 1;
                    },
                    Ok(false) => {},
                }
                i = i + 1;
            }
            proof {
                if let Ok(ms) = first_matching(all, 0, *where_clause, cols, uid, n) {
                    let rest = ok_rows(first_matching(all, i as int, *where_clause, cols, uid, n - got));
                    assert(rest.len() == 0);
                    assert(ms =~= Seq::new(got as nat, |j: int| ms[j]));
                }
            }
            Ok(out)
        },
        Some((idx, desc)) => {
            let mut kept: Vec<Vec<Value>> = Vec::new();
            let mut i: usize = 0;
            assert(all.take(0) =~= Seq::<Seq<ValueView>>::empty());
            assert(rows_view(kept@) =~= Seq::<Seq<ValueView>>::empty());
            while i < rows.len()
                invariant
                    i <= rows@.len(),
                    all == rows_view(rows@),
                    cols == schema@.columns,
                    uid == ctx.user_id,
                    forall|j: int| 0 <= j < rows@.len() ==> (#[trigger] rows@[j])@.len() >= schema@.columns.len(),
                    forall|j: int, k: int|
                        #![trigger rows@[j], projection@[k]]
                        0 <= j < rows@.len() && 0 <= k < projection@.len() ==> projection@[k] < rows@[j]@.len(),
                    forall|j: int| 0 <= j < kept@.len() ==> fits(#[trigger] row_view(kept@[j]@), projection@, cols.len()),
                    matching(all.take(i as int), *where_clause, cols, uid) == Ok::<Seq<Seq<ValueView>>, EvalError>(
                        rows_view(kept@),
                    ),
                decreases rows@.len() - i,
            {
                assert(all.take(i + 1).drop_last() =~= all.take(i as int));
                assert(all.take(i + 1).last() == row_view(rows@[i as int]@));
                match row_passes(rows[i].as_slice(), where_clause, schema, ctx) {
                    Err(e) => {
                        proof {
                            let p = passes(row_view(rows@[i as int]@), *where_clause, cols, uid);
                            assert(p is Err);
                            assert(matching(all.take(i + 1), *where_clause, cols, uid) == Err::<Seq<Seq<ValueView>>, EvalError>(
                                p->Err_0,
                            ));
                            lemma_matching_prefix_error(all, *where_clause, cols, uid, i + 1);
                            assert(matching(all, *where_clause, cols, uid) == Err::<Seq<Seq<ValueView>>, EvalError>(p->Err_0));
                        }
                        return Err(e);
                    },
                    Ok(b) => {
                        let ghost before = kept@;
                        if b {
                            kept.push(copy_row(rows[i].as_slice()));
                            assert(rows_view(kept@) =~= rows_view(before).push(row_view(rows@[i as int]@)));
                        }
                        proof {
                            assert forall|j: int| 0 <= j < kept@.len() implies fits(#[trigger] row_view(kept@[j]@), projection@, cols.len()) by {
                                if j < before.len() {
                                    assert(kept@[j] == before[j]);
                                } else {
                                    assert(row_view(kept@[j]@) == row_view(rows@[i as int]@));
                                    assert forall|k: int| 0 <= k < projection@.len() implies projection@[k] < row_view(kept@[j]@).len() by {
                                        assert(projection@[k] < rows@[i as int]@.len());
                                    }
                                }
                            }
                        }
                    },
                }
                i = i + 1;
            }
            assert(all.take(rows@.len() as int) =~= all);
            proof {
                assert forall|r2: int| 0 <= r2 < kept@.len() implies idx < (#[trigger] kept@[r2])@.len() by {
                    crate::types::schema::lemma_column_index_bound(cols, order_by.unwrap().0@);
                    assert(fits(row_view(kept@[r2]@), projection@, cols.len()));
                }
            }
            let ghost ms = rows_view(kept@);
            let n_kept = kept.len();
            let mut sort = Sort::new(kept, idx, desc);
            let ghost s = sort.sorted();
            proof {
                let perm = choose|perm: Seq<int>| crate::exec::sort::sorted_by_perm(ms, s, perm, idx as int, desc);
                assert(s.len() == ms.len());
                assert forall|q: int| 0 <= q < s.len() implies fits(#[trigger] s[q], projection@, cols.len()) by {
                    assert(s[q] == ms[perm[q]]);
                    assert(ms[perm[q]] == row_view(kept@[perm[q]]@));
                }
            }
            let take = limit_count_exec(limit, n_kept);
            let mut out: Vec<Vec<Value>> = Vec::new();
            let mut k: usize = 0;
            while k < take
                invariant
                    k <= take,
                    take == limit_count(limit, s.len() as int),
                    take <= s.len(),
                    sort.sorted() == s,
                    sort.position() == k,
                    is_stable_sort(ms, s, idx as int, desc),
                    rows_view(out@) == pick_all(s, projection@).take(k as int),
                    forall|q: int| 0 <= q < s.len() ==> fits(#[trigger] s[q], projection@, cols.len()),
                decreases take - k,
            {
                let row = match sort.next() {
                    Ok(Some(row)) => row,
                    _ => {
                        assert(false);
                        return Err(ExecError::InvalidValue(String::new()));
                    },
                };
                assert(row_view(row@) == s[k as int]);
                assert(fits(s[k as int], projection@, cols.len()));
                assert(row_view(row@).len() == row@.len());
                let ghost before = rows_view(out@);
                out.push(pick_row(row.as_slice(), projection.as_slice()));
                assert(rows_view(out@) =~= pick_all(s, projection@).take(k + 1));
                k = k + 1;
            }
            assert(order_by is Some);
            assert(spec_column_index(cols, order_by.unwrap().0@) == Some(idx as int));
            assert(desc == order_by.unwrap().1);
            assert(matching(all, *where_clause, cols, uid) == Ok::<Seq<Seq<ValueView>>, EvalError>(ms));
            assert(is_stable_sort(ms, s, idx as int, desc));
            assert(rows_view(out@) == pick_all(s, projection@).take(limit_count(limit, s.len() as int)));
            assert(sorted_outcome(ms, rows_view(out@), idx as int, desc, projection@, limit));
            Ok(out)
        },
    }
}

fn limit_count_exec(limit: Option<i64>, len: usize) -> (r: usize)
    ensures
        r == limit_count(limit, len as int),
{
    match limit {
        None => len,
        Some(n) => if n <= 0 {
            0
        } else if (n as u64) >= (len as u64) {
            len
        } else {
            n as usize
        },
    }
}

/// Once the rows before some point hold a failure, all the rows do.
proof fn lemma_matching_prefix_error(
    rows: Seq<Seq<ValueView>>,
    pred: Option<Expr>,
    cols: Seq<ColumnView>,
    uid: Option<i64>,
    n: int,
)
    requires
        0 <= n <= rows.len(),
        matching(rows.take(n), pred, cols, uid) is Err,
    ensures
        matching(rows, pred, cols, uid) == matching(rows.take(n), pred, cols, uid),
    decreases rows.len() - n,
{
    if n < rows.len() {
        assert(rows.take(n + 1).drop_last() =~= rows.take(n));
        lemma_matching_prefix_error(rows, pred, cols, uid, n + 1);
    } else {
        assert(rows.take(n) =~= rows);
    }
}

} // verus!
