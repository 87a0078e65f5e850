use vstd::prelude::*;

use crate::error::ExecError;
use crate::error::{plan_error_text, PlanError};
use crate::exec::{
    copy_row, eval_all, eval_error_text, eval_exprs, eval_failure, lemma_eval_all_prefix_error, rows_equal, rows_view,
    Operator,
};
use crate::plan::expr::{eval, is_truthy, spec_eval, spec_is_truthy, EvalError};
use crate::sql::ast::{AggregateFunc, Expr};
use crate::types::schema::{ColumnView, TableSchema};
use crate::types::value::{copy_value, row_view, spec_sql_cmp, sql_cmp, SqlOrder, Value, ValueView};

verus! {

/// The running state of one aggregate.
pub enum AccView {
    CountStar(int),
    Count(int),
    Sum(int),
    Avg(int, int),
    Min(Option<ValueView>),
    Max(Option<ValueView>),
}

/// The state of an aggregate before any row.
pub open spec fn acc_start(f: AggregateFunc) -> AccView {
    match f {
        AggregateFunc::CountStar => AccView::CountStar(0),
        AggregateFunc::Count(_) => AccView::Count(0),
        AggregateFunc::Sum(_) => AccView::Sum(0),
        AggregateFunc::Avg(_) => AccView::Avg(0, 0),
        AggregateFunc::Min(_) => AccView::Min(None),
        AggregateFunc::Max(_) => AccView::Max(None),
    }
}

/// The state after one more row whose argument value is `v`: `COUNT(*)` counts every row;
/// `COUNT` counts non-NULL values; `SUM` and `AVG` take integers only; `MIN` and `MAX`
/// keep the first least or greatest non-NULL value.
pub open spec fn acc_update(a: AccView, v: ValueView) -> AccView {
    match a {
        AccView::CountStar(c) => AccView::CountStar(c + 1),
        AccView::Count(c) => if v is Null {
            AccView::Count(c)
        } else {
            AccView::Count(c + 1)
        },
        AccView::Sum(s) => match v {
            ValueView::Integer(n) => AccView::Sum(s + n),
            _ => AccView::Sum(s),
        },
        AccView::Avg(s, c) => match v {
            ValueView::Integer(n) => AccView::Avg(s + n, c + 1),
            _ => AccView::Avg(s, c),
        },
        AccView::Min(cur) => if v is Null {
            AccView::Min(cur)
        } else {
            match cur {
                None => AccView::Min(Some(v)),
                Some(e) => if spec_sql_cmp(v, e) == SqlOrder::Less {
                    AccView::Min(Some(v))
                } else {
                    AccView::Min(cur)
                },
            }
        },
        AccView::Max(cur) => if v is Null {
            AccView::Max(cur)
        } else {
            match cur {
                None => AccView::Max(Some(v)),
                Some(e) => if spec_sql_cmp(v, e) == SqlOrder::Greater {
                    AccView::Max(Some(v))
                } else {
                    AccView::Max(cur)
                },
            }
        },
    }
}

/// Integer division rounding toward zero.
pub open spec fn trunc_div(a: int, b: int) -> int {
    if a >= 0 {
        a / b
    } else {
        -((-a) / b)
    }
}

/// The value an aggregate reports: the count or sum; the truncated mean, or NULL without
/// integers; the least or greatest value, or NULL without values.
pub open spec fn acc_value(a: AccView) -> ValueView {
    match a {
        AccView::CountStar(c) => ValueView::Integer(c as i64),
        AccView::Count(c) => ValueView::Integer(c as i64),
        AccView::Sum(s) => ValueView::Integer(s as i64),
        AccView::Avg(s, c) => if c == 0 {
            ValueView::Null
        } else {
            ValueView::Integer(trunc_div(s, c) as i64)
        },
        AccView::Min(o) => match o {
            Some(v) => v,
            None => ValueView::Null,
        },
        AccView::Max(o) => match o {
            Some(v) => v,
            None => ValueView::Null,
        },
    }
}

/// Whether the numbers an aggregate holds fit in 64 bits.
pub open spec fn acc_fits(a: AccView) -> bool {
    match a {
        AccView::CountStar(c) => 0 <= c <= i64::MAX,
        AccView::Count(c) => 0 <= c <= i64::MAX,
        AccView::Sum(s) => i64::MIN <= s <= i64::MAX,
        AccView::Avg(s, c) => i64::MIN <= s <= i64::MAX && 0 <= c <= i64::MAX,
        _ => true,
    }
}

/// The expression whose value an aggregate takes from each row (`COUNT(*)` takes none,
/// which is written as NULL here).
pub open spec fn agg_arg(f: AggregateFunc) -> Expr {
    match f {
        AggregateFunc::CountStar => Expr::Null,
        AggregateFunc::Count(e) => *e,
        AggregateFunc::Sum(e) => *e,
        AggregateFunc::Avg(e) => *e,
        AggregateFunc::Min(e) => *e,
        AggregateFunc::Max(e) => *e,
    }
}

/// The arguments of the aggregates on a row.
pub open spec fn agg_args(aggs: Seq<AggregateFunc>) -> Seq<Expr> {
    Seq::new(aggs.len(), |k: int| agg_arg(aggs[k]))
}

/// A row's group key (the grouping expressions' values, or nothing without grouping)
/// followed by its aggregate arguments, or the first failure evaluating them.
pub open spec fn row_eval(
    row: Seq<ValueView>,
    group_by: Option<Seq<Expr>>,
    aggs: Seq<AggregateFunc>,
    cols: Seq<ColumnView>,
) -> Result<(Seq<ValueView>, Seq<ValueView>), EvalError> {
    let key = match group_by {
        Some(exprs) => eval_all(exprs, cols, row, None),
        None => Ok(Seq::empty()),
    };
    match key {
        Err(e) => Err(e),
        Ok(k) => match eval_all(agg_args(aggs), cols, row, None) {
            Err(e) => Err(e),
            Ok(args) => Ok((k, args)),
        },
    }
}

/// The position of the group with key `key`, or the number of groups if there is none.
pub open spec fn find_group(groups: Seq<(Seq<ValueView>, Seq<AccView>)>, key: Seq<ValueView>, i: int) -> int
    decreases groups.len() - i,
{
    if i < 0 || i >= groups.len() {
        groups.len() as int
    } else if groups[i].0 == key {
        i
    } else {
        find_group(groups, key, i + 1)
    }
}

/// Every aggregate's state advanced by its argument.
pub open spec fn update_all(accs: Seq<AccView>, args: Seq<ValueView>) -> Seq<AccView> {
    Seq::new(accs.len(), |k: int| acc_update(accs[k], args[k]))
}

/// Every aggregate's starting state.
pub open spec fn start_all(aggs: Seq<AggregateFunc>) -> Seq<AccView> {
    Seq::new(aggs.len(), |k: int| acc_start(aggs[k]))
}

/// The groups after the given rows, in the order their keys first appear, each with its
/// aggregates' states; or the first failure evaluating a row.
pub open spec fn agg_groups(
    rows: Seq<Seq<ValueView>>,
    group_by: Option<Seq<Expr>>,
    aggs: Seq<AggregateFunc>,
    cols: Seq<ColumnView>,
) -> Result<Seq<(Seq<ValueView>, Seq<AccView>)>, EvalError>
    decreases rows.len(),
{
    if rows.len() == 0 {
        Ok(Seq::empty())
    } else {
        match agg_groups(rows.drop_last(), group_by, aggs, cols) {
            Err(e) => Err(e),
            Ok(gs) => match row_eval(rows.last(), group_by, aggs, cols) {
                Err(e) => Err(e),
                Ok(ka) => {
                    let i = find_group(gs, ka.0, 0);
                    if i < gs.len() {
                        Ok(gs.update(i, (ka.0, update_all(gs[i].1, ka.1))))
                    } else {
                        Ok(gs.push((ka.0, update_all(start_all(aggs), ka.1))))
                    }
                },
            },
        }
    }
}

/// The groups the aggregation reports: without grouping and without rows, one group of
/// starting states; otherwise the groups the rows form.
pub open spec fn final_groups(
    rows: Seq<Seq<ValueView>>,
    group_by: Option<Seq<Expr>>,
    aggs: Seq<AggregateFunc>,
    cols: Seq<ColumnView>,
) -> Result<Seq<(Seq<ValueView>, Seq<AccView>)>, EvalError> {
    if rows.len() == 0 && group_by is None {
        Ok(seq![(Seq::<ValueView>::empty(), start_all(aggs))])
    } else {
        agg_groups(rows, group_by, aggs, cols)
    }
}

/// A group's output row: its key followed by its aggregates' values.
pub open spec fn group_row(g: (Seq<ValueView>, Seq<AccView>)) -> Seq<ValueView> {
    g.0 + Seq::new(g.1.len(), |k: int| acc_value(g.1[k]))
}

/// Whether the HAVING condition keeps an output row: it does unless the condition
/// evaluates to something other than true (a failing evaluation keeps the row).
pub open spec fn having_keeps(row: Seq<ValueView>, having: Option<Expr>, cols: Seq<ColumnView>) -> bool {
    match having {
        None => true,
        Some(h) => match spec_eval(h, cols, row, None) {
            Some(Ok(v)) => spec_is_truthy(v),
            _ => true,
        },
    }
}

/// The output rows of the groups that HAVING keeps, in group order.
pub open spec fn kept_rows(
    groups: Seq<(Seq<ValueView>, Seq<AccView>)>,
    having: Option<Expr>,
    cols: Seq<ColumnView>,
) -> Seq<Seq<ValueView>>
    decreases groups.len(),
{
    if groups.len() == 0 {
        Seq::empty()
    } else {
        let prev = kept_rows(groups.drop_last(), having, cols);
        let r = group_row(groups.last());
        if having_keeps(r, having, cols) {
            prev.push(r)
        } else {
            prev
        }
    }
}

/// The aggregation's rows, or the first failure evaluating an input row.
pub open spec fn aggregate_output(
    rows: Seq<Seq<ValueView>>,
    group_by: Option<Seq<Expr>>,
    aggs: Seq<AggregateFunc>,
    having: Option<Expr>,
    cols: Seq<ColumnView>,
) -> Result<Seq<Seq<ValueView>>, EvalError> {
    match final_groups(rows, group_by, aggs, cols) {
        Err(e) => Err(e),
        Ok(gs) => Ok(kept_rows(gs, having, cols)),
    }
}

/// Every group's aggregates hold numbers that fit in 64 bits.
pub open spec fn groups_fit(gs: Seq<(Seq<ValueView>, Seq<AccView>)>) -> bool {
    forall|g: int, k: int| 0 <= g < gs.len() && 0 <= k < gs[g].1.len() ==> acc_fits(#[trigger] gs[g].1[k])
}

/// The running counts and sums never leave 64 bits while the rows are taken in order.
pub open spec fn sums_fit(
    rows: Seq<Seq<ValueView>>,
    group_by: Option<Seq<Expr>>,
    aggs: Seq<AggregateFunc>,
    cols: Seq<ColumnView>,
) -> bool {
    forall|n: int|
        0 <= n <= rows.len() ==> match #[trigger] agg_groups(rows.take(n), group_by, aggs, cols) {
            Ok(gs) => groups_fit(gs),
            Err(_) => true,
        }
}

/// Every grouping expression and aggregate argument can be evaluated on every row.
pub open spec fn rows_evaluable(
    rows: Seq<Seq<ValueView>>,
    group_by: Option<Seq<Expr>>,
    aggs: Seq<AggregateFunc>,
    cols: Seq<ColumnView>,
) -> bool {
    &&& forall|i: int, k: int|
        #![trigger rows[i], agg_args(aggs)[k]]
        0 <= i < rows.len() && 0 <= k < aggs.len() ==> spec_eval(agg_args(aggs)[k], cols, rows[i], None) is Some
    &&& forall|i: int, k: int|
        #![trigger rows[i], group_by.unwrap()[k]]
        0 <= i < rows.len() && group_by is Some && 0 <= k < group_by.unwrap().len() ==> spec_eval(
            group_by.unwrap()[k],
            cols,
            rows[i],
            None,
        ) is Some
}

/// HAVING can be evaluated on every group's output row.
pub open spec fn having_evaluable(
    rows: Seq<Seq<ValueView>>,
    group_by: Option<Seq<Expr>>,
    aggs: Seq<AggregateFunc>,
    having: Option<Expr>,
    cols: Seq<ColumnView>,
) -> bool {
    match final_groups(rows, group_by, aggs, cols) {
        Ok(gs) => forall|g: int|
            0 <= g < gs.len() && having is Some ==> spec_eval(having.unwrap(), cols, group_row(#[trigger] gs[g]), None)
                is Some,
        Err(_) => true,
    }
}

/// Once the groups of a prefix of the rows cannot be formed, those of all rows cannot either.
pub proof fn lemma_agg_groups_prefix_error(
    rows: Seq<Seq<ValueView>>,
    group_by: Option<Seq<Expr>>,
    aggs: Seq<AggregateFunc>,
    cols: Seq<ColumnView>,
    n: int,
)
    requires
        0 <= n <= rows.len(),
        agg_groups(rows.take(n), group_by, aggs, cols) is Err,
    ensures
        agg_groups(rows, group_by, aggs, cols) == agg_groups(rows.take(n), group_by, aggs, cols),
    decreases rows.len() - n,
{
    if n < rows.len() {
        assert(rows.take(n + 1).drop_last() =~= rows.take(n));
        lemma_agg_groups_prefix_error(rows, group_by, aggs, cols, n + 1);
    } else {
        assert(rows.take(n) =~= rows);
    }
}

/// The running state of one aggregate.
enum Accumulator {
    CountStar(i64),
    Count(i64),
    Sum(i64),
    Avg { sum: i64, count: i64 },
    Min(Option<Value>),
    Max(Option<Value>),
}

impl View for Accumulator {
    type V = AccView;

    closed spec fn view(&self) -> AccView {
        match self {
            Accumulator::CountStar(c) => AccView::CountStar(*c as int),
            Accumulator::Count(c) => AccView::Count(*c as int),
            Accumulator::Sum(s) => AccView::Sum(*s as int),
            Accumulator::Avg { sum, count } => AccView::Avg(*sum as int, *count as int),
            Accumulator::Min(o) => AccView::Min(
                match o {
                    Some(v) => Some(v@),
                    None => None,
                },
            ),
            Accumulator::Max(o) => AccView::Max(
                match o {
                    Some(v) => Some(v@),
                    None => None,
                },
            ),
        }
    }
}

fn acc_new(f: &AggregateFunc) -> (a: Accumulator)
    ensures
        a@ == acc_start(*f),
{
    match f {
        AggregateFunc::CountStar => Accumulator::CountStar(0),
        AggregateFunc::Count(_) => Accumulator::Count(0),
        AggregateFunc::Sum(_) => Accumulator::Sum(0),
        AggregateFunc::Avg(_) => Accumulator::Avg { sum: 0, count: 0 },
        AggregateFunc::Min(_) => Accumulator::Min(None),
        AggregateFunc::Max(_) => Accumulator::Max(None),
    }
}

fn copy_opt(o: &Option<Value>) -> (r: Option<Value>)
    ensures
        match (r, *o) {
            (Some(a), Some(b)) => a@ == b@,
            (None, None) => true,
            _ => false,
        },
{
    match o {
        Some(v) => Some(copy_value(v)),
        None => None,
    }
}

fn acc_next(a: &Accumulator, v: &Value) -> (r: Accumulator)
    requires
        acc_fits(acc_update(a@, v@)),
    ensures
        r@ == acc_update(a@, v@),
{
    match a {
        Accumulator::CountStar(c) => Accumulator::CountStar(*c + 1),
        Accumulator::Count(c) => match v {
            Value::Null => Accumulator::Count(*c),
            _ => Accumulator::Count(*c + 1),
        },
        Accumulator::Sum(s) => match v {
            Value::Integer(n) => Accumulator::Sum(*s + *n),
            _ => Accumulator::Sum(*s),
        },
        Accumulator::Avg { sum, count } => match v {
            Value::Integer(n) => Accumulator::Avg { sum: *sum + *n, count: *count + 1 },
            _ => Accumulator::Avg { sum: *sum, count: *count },
        },
        Accumulator::Min(cur) => match v {
            Value::Null => Accumulator::Min(copy_opt(cur)),
            _ => match cur {
                None => Accumulator::Min(Some(copy_value(v))),
                Some(e) => match sql_cmp(v, e) {
                    SqlOrder::Less => Accumulator::Min(Some(copy_value(v))),
                    _ => Accumulator::Min(Some(copy_value(e))),
                },
            },
        },
        Accumulator::Max(cur) => match v {
            Value::Null => Accumulator::Max(copy_opt(cur)),
            _ => match cur {
                None => Accumulator::Max(Some(copy_value(v))),
                Some(e) => match sql_cmp(v, e) {
                    SqlOrder::Greater => Accumulator::Max(Some(copy_value(v))),
                    _ => Accumulator::Max(Some(copy_value(e))),
                },
            },
        },
    }
}

/// `sum / count` rounded toward zero, for a positive count.
fn mean(sum: i64, count: i64) -> (q: i64)
    requires
        count > 0,
    ensures
        q == trunc_div(sum as int, count as int),
{
    if sum >= 0 {
        let q = (sum as u64) / (count as u64);
        q as i64
    } else {
        let m: u64 = if sum == i64::MIN {
            9223372036854775808u64
        } else {
            (-sum) as u64
        };
        let q = m / (count as u64);
        assert(q <= m);
        let neg: i128 = -(q as i128);
        neg as i64
    }
}

fn acc_finish(a: &Accumulator) -> (v: Value)
    requires
        acc_fits(a@),
    ensures
        v@ == acc_value(a@),
{
    match a {
        Accumulator::CountStar(c) => Value::Integer(*c),
        Accumulator::Count(c) => Value::Integer(*c),
        Accumulator::Sum(s) => Value::Integer(*s),
        Accumulator::Avg { sum, count } => if *count == 0 {
            Value::Null
        } else {
            Value::Integer(mean(*sum, *count))
        },
        Accumulator::Min(o) => match o {
            Some(v) => copy_value(v),
            None => Value::Null,
        },
        Accumulator::Max(o) => match o {
            Some(v) => copy_value(v),
            None => Value::Null,
        },
    }
}

/// The aggregates' argument values on a row, or the first failure.
fn agg_arg_values(aggs: &[AggregateFunc], schema: &TableSchema, row: &[Value]) -> (r: Result<Vec<Value>, PlanError>)
    requires
        forall|k: int|
            0 <= k < aggs@.len() ==> (#[trigger] spec_eval(agg_args(aggs@)[k], schema@.columns, row_view(row@), None))
                is Some,
    ensures
        match eval_all(agg_args(aggs@), schema@.columns, row_view(row@), None) {
            Ok(vs) => r matches Ok(out) && row_view(out@) == vs,
            Err(e) => r matches Err(pe) && plan_error_text(pe) == eval_error_text(e),
        },
{
    let ghost cols = schema@.columns;
    let ghost rv = row_view(row@);
    let ghost args = agg_args(aggs@);
    let mut out: Vec<Value> = Vec::new();
    let mut k: usize = 0;
    assert(args.take(0) =~= Seq::<Expr>::empty());
    assert(row_view(out@) =~= Seq::<ValueView>::empty());
    while k < aggs.len()
        invariant
            k <= aggs@.len(),
            out@.len() == k,
            cols == schema@.columns,
            rv == row_view(row@),
            args == agg_args(aggs@),
            forall|j: int| 0 <= j < aggs@.len() ==> (#[trigger] spec_eval(args[j], cols, rv, None)) is Some,
            eval_all(args.take(k as int), cols, rv, None) matches Ok(vs) && row_view(out@) == vs,
        decreases aggs@.len() - k,
    {
        assert(args.take(k + 1).drop_last() =~= args.take(k as int));
        assert(args.take(k + 1).last() == agg_arg(aggs@[k as int]));
        assert(spec_eval(args[k as int], cols, rv, None) is Some);
        let res = match &aggs[k] {
            AggregateFunc::CountStar => Ok(Value::Null),
            AggregateFunc::Count(e) => eval(e, schema, row),
            AggregateFunc::Sum(e) => eval(e, schema, row),
            AggregateFunc::Avg(e) => eval(e, schema, row),
            AggregateFunc::Min(e) => eval(e, schema, row),
            AggregateFunc::Max(e) => eval(e, schema, row),
        };
        match res {
            Ok(v) => {
                let ghost before = out@;
                out.push(v);
                assert(row_view(out@) =~= row_view(before).push(out@[k as int]@));
            },
            Err(e) => {
                proof {
                    lemma_eval_all_prefix_error(args, cols, rv, None, k as int + 1);
                }
                return Err(e);
            },
        }
        k = k + 1;
    }
    assert(args.take(aggs@.len() as int) =~= args);
    Ok(out)
}

/// The states of a list of accumulators.
spec fn accs_view(a: Seq<Accumulator>) -> Seq<AccView> {
    Seq::new(a.len(), |k: int| a[k]@)
}

/// The groups held as parallel lists of keys and accumulators.
spec fn groups_view(keys: Seq<Vec<Value>>, accs: Seq<Vec<Accumulator>>) -> Seq<(Seq<ValueView>, Seq<AccView>)> {
    Seq::new(keys.len(), |g: int| (row_view(keys[g]@), accs_view(accs[g]@)))
}

/// The position of the key among the keys, or their number.
fn find_key(keys: &Vec<Vec<Value>>, key: &[Value], Ghost(gs): Ghost<Seq<(Seq<ValueView>, Seq<AccView>)>>) -> (r: usize)
    requires
        gs.len() == keys@.len(),
        forall|g: int| 0 <= g < gs.len() ==> (#[trigger] gs[g]).0 == row_view(keys@[g]@),
    ensures
        r == find_group(gs, row_view(key@), 0),
{
    let mut i: usize = 0;
    while i < keys.len()
        invariant
            i <= keys@.len(),
            gs.len() == keys@.len(),
            forall|g: int| 0 <= g < gs.len() ==> (#[trigger] gs[g]).0 == row_view(keys@[g]@),
            find_group(gs, row_view(key@), 0) == find_group(gs, row_view(key@), i as int),
        decreases keys@.len() - i,
    {
        assert(gs[i as int].0 == row_view(keys@[i as int]@));
        if rows_equal(keys[i].as_slice(), key) {
            return i;
        }
        i = i + 1;
    }
    i
}

/// Each accumulator advanced by its argument.
fn update_accs(accs: &Vec<Accumulator>, args: &[Value]) -> (r: Vec<Accumulator>)
    requires
        accs@.len() == args@.len(),
        forall|k: int| 0 <= k < accs@.len() ==> acc_fits(#[trigger] update_all(accs_view(accs@), row_view(args@))[k]),
    ensures
        accs_view(r@) == update_all(accs_view(accs@), row_view(args@)),
        r@.len() == accs@.len(),
{
    let ghost want = update_all(accs_view(accs@), row_view(args@));
    let mut out: Vec<Accumulator> = Vec::new();
    let mut k: usize = 0;
    while k < accs.len()
        invariant
            k <= accs@.len(),
            accs@.len() == args@.len(),
            out@.len() == k,
            want == update_all(accs_view(accs@), row_view(args@)),
            forall|j: int| 0 <= j < accs@.len() ==> acc_fits(#[trigger] want[j]),
            forall|j: int| 0 <= j < k ==> (#[trigger] out@[j])@ == want[j],
        decreases accs@.len() - k,
    {
        assert(want[k as int] == acc_update(accs@[k as int]@, args@[k as int]@));
        out.push(acc_next(&accs[k], &args[k]));
        k = k + 1;
    }
    assert(accs_view(out@) =~= want);
    out
}

/// Starting accumulators for the aggregates.
fn start_accs(aggs: &[AggregateFunc]) -> (r: Vec<Accumulator>)
    ensures
        accs_view(r@) == start_all(aggs@),
        r@.len() == aggs@.len(),
{
    let mut out: Vec<Accumulator> = Vec::new();
    let mut k: usize = 0;
    while k < aggs.len()
        invariant
            k <= aggs@.len(),
            out@.len() == k,
            forall|j: int| 0 <= j < k ==> (#[trigger] out@[j])@ == acc_start(aggs@[j]),
        decreases aggs@.len() - k,
    {
        out.push(acc_new(&aggs[k]));
        k = k + 1;
    }
    assert(accs_view(out@) =~= start_all(aggs@));
    out
}

/// A found group has the key looked for.
proof fn lemma_find_group(gs: Seq<(Seq<ValueView>, Seq<AccView>)>, key: Seq<ValueView>, i: int)
    requires
        0 <= i <= gs.len(),
    ensures
        i <= find_group(gs, key, i) <= gs.len(),
        find_group(gs, key, i) < gs.len() ==> gs[find_group(gs, key, i)].0 == key,
    decreases gs.len() - i,
{
    if i < gs.len() && gs[i].0 != key {
        lemma_find_group(gs, key, i + 1);
    }
}

/// The grouping expressions, if any.
pub open spec fn exprs_of(group_by: Option<Vec<Expr>>) -> Option<Seq<Expr>> {
    match group_by {
        Some(v) => Some(v@),
        None => None,
    }
}

/// Forms the groups of the rows, in the order their keys first appear.
fn form_groups(
    rows: &Vec<Vec<Value>>,
    schema: &TableSchema,
    group_by: &Option<Vec<Expr>>,
    aggs: &Vec<AggregateFunc>,
) -> (r: Result<(Vec<Vec<Value>>, Vec<Vec<Accumulator>>), PlanError>)
    requires
        rows_evaluable(rows_view(rows@), exprs_of(*group_by), aggs@, schema@.columns),
        sums_fit(rows_view(rows@), exprs_of(*group_by), aggs@, schema@.columns),
    ensures
        match agg_groups(rows_view(rows@), exprs_of(*group_by), aggs@, schema@.columns) {
            Ok(gs) => r matches Ok((keys, accs)) && groups_view(keys@, accs@) == gs && keys@.len() == accs@.len(),
            Err(e) => r matches Err(pe) && plan_error_text(pe) == eval_error_text(e),
        },
{
    let ghost all = rows_view(rows@);
    let ghost gb = exprs_of(*group_by);
    let ghost cols = schema@.columns;
    let mut keys: Vec<Vec<Value>> = Vec::new();
    let mut accs: Vec<Vec<Accumulator>> = Vec::new();
    let mut i: usize = 0;
    assert(all.take(0) =~= Seq::<Seq<ValueView>>::empty());
    assert(groups_view(keys@, accs@) =~= Seq::<(Seq<ValueView>, Seq<AccView>)>::empty());
    while i < rows.len()
        invariant
            i <= rows@.len(),
            all == rows_view(rows@),
            gb == exprs_of(*group_by),
            cols == schema@.columns,
            rows_evaluable(all, gb, aggs@, cols),
            sums_fit(all, gb, aggs@, cols),
            keys@.len() == accs@.len(),
            forall|g: int| 0 <= g < accs@.len() ==> (#[trigger] accs@[g])@.len() == aggs@.len(),
            agg_groups(all.take(i as int), gb, aggs@, cols) == Ok::<Seq<(Seq<ValueView>, Seq<AccView>)>, EvalError>(
                groups_view(keys@, accs@),
            ),
        decreases rows@.len() - i,
    {
        let row = &rows[i];
        let ghost rv = row_view(row@);
        let ghost gs = groups_view(keys@, accs@);
        assert(all[i as int] == rv);
        assert(all.take(i + 1).drop_last() =~= all.take(i as int));
        assert(all.take(i + 1).last() == rv);
        let key = match group_by {
            Some(exprs) => {
                assert forall|k: int| 0 <= k < exprs@.len() implies (#[trigger] spec_eval(exprs@[k], cols, rv, None))
                    is Some by {
                    assert(gb.unwrap()[k] == exprs@[k]);
                    assert(all[i as int] == rv);
                }
                match eval_exprs(exprs.as_slice(), schema, row.as_slice()) {
                    Ok(k) => k,
                    Err(e) => {
                        proof {
                            lemma_agg_groups_prefix_error(all, gb, aggs@, cols, i as int + 1);
                        }
                        return Err(e);
                    },
                }
            },
            None => {
                let k: Vec<Value> = Vec::new();
                assert(row_view(k@) =~= Seq::<ValueView>::empty());
                k
            },
        };
        assert forall|k: int| 0 <= k < aggs@.len() implies (#[trigger] spec_eval(agg_args(aggs@)[k], cols, rv, None))
            is Some by {
            assert(all[i as int] == rv);
        }
        let args = match agg_arg_values(aggs.as_slice(), schema, row.as_slice()) {
            Ok(a) => a,
            Err(e) => {
                proof {
                    lemma_agg_groups_prefix_error(all, gb, aggs@, cols, i as int + 1);
                }
                return Err(e);
            },
        };
        proof {
            crate::exec::lemma_eval_all_len(agg_args(aggs@), cols, rv, None);
        }
        assert(row_view(args@).len() == args@.len());
        assert(args@.len() == aggs@.len());
        assert(row_eval(rv, gb, aggs@, cols) == Ok::<(Seq<ValueView>, Seq<ValueView>), EvalError>(
            (row_view(key@), row_view(args@)),
        ));
        assert forall|g: int| 0 <= g < gs.len() implies (#[trigger] gs[g]).0 == row_view(keys@[g]@) by {}
        let gi = find_key(&keys, key.as_slice(), Ghost(gs));
        proof {
            lemma_find_group(gs, row_view(key@), 0);
            assert(0 <= i + 1 <= all.len());
            assert(match agg_groups(all.take(i + 1), gb, aggs@, cols) {
                Ok(gs2) => groups_fit(gs2),
                Err(_) => true,
            });
        }
        if gi < keys.len() {
            let ghost next = update_all(gs[gi as int].1, row_view(args@));
            assert(agg_groups(all.take(i + 1), gb, aggs@, cols) == Ok::<Seq<(Seq<ValueView>, Seq<AccView>)>, EvalError>(
                gs.update(gi as int, (row_view(key@), next)),
            ));
            assert forall|k: int| 0 <= k < accs@[gi as int]@.len() implies acc_fits(
                #[trigger] update_all(accs_view(accs@[gi as int]@), row_view(args@))[k],
            ) by {
                assert(gs.update(gi as int, (row_view(key@), next))[gi as int].1[k] == next[k]);
            }
            let updated = update_accs(&accs[gi], args.as_slice());
            accs.set(gi, updated);
            assert(groups_view(keys@, accs@) =~= gs.update(gi as int, (row_view(key@), next)));
        } else {
            let fresh = start_accs(aggs.as_slice());
            let ghost next = update_all(start_all(aggs@), row_view(args@));
            assert(agg_groups(all.take(i + 1), gb, aggs@, cols) == Ok::<Seq<(Seq<ValueView>, Seq<AccView>)>, EvalError>(
                gs.push((row_view(key@), next)),
            ));
            assert forall|k: int| 0 <= k < fresh@.len() implies acc_fits(
                #[trigger] update_all(accs_view(fresh@), row_view(args@))[k],
            ) by {
                assert(gs.push((row_view(key@), next))[gs.len() as int].1[k] == next[k]);
            }
            let updated = update_accs(&fresh, args.as_slice());
            keys.push(key);
            accs.push(updated);
            assert(groups_view(keys@, accs@) =~= gs.push((row_view(key@), next)));
        }
        i = i + 1;
    }
    assert(all.take(rows@.len() as int) =~= all);
    Ok((keys, accs))
}

/// A group's output row.
fn group_output(key: &[Value], accs: &Vec<Accumulator>) -> (r: Vec<Value>)
    requires
        forall|k: int| 0 <= k < accs@.len() ==> acc_fits(#[trigger] accs@[k]@),
    ensures
        row_view(r@) == group_row((row_view(key@), accs_view(accs@))),
{
    let mut out = copy_row(key);
    let ghost start = row_view(out@);
    let mut k: usize = 0;
    while k < accs.len()
        invariant
            k <= accs@.len(),
            start == row_view(key@),
            forall|j: int| 0 <= j < accs@.len() ==> acc_fits(#[trigger] accs@[j]@),
            row_view(out@) == start + Seq::new(k as nat, |j: int| acc_value(accs@[j]@)),
        decreases accs@.len() - k,
    {
        let ghost before = row_view(out@);
        out.push(acc_finish(&accs[k]));
        assert(row_view(out@) =~= before.push(acc_value(accs@[k as int]@)));
        assert(start + Seq::new((k + 1) as nat, |j: int| acc_value(accs@[j]@)) =~= (start + Seq::new(
            k as nat,
            |j: int| acc_value(accs@[j]@),
        )).push(acc_value(accs@[k as int]@)));
        k = k + 1;
    }
    assert(Seq::new(accs@.len() as nat, |j: int| acc_value(accs@[j]@)) =~= Seq::new(
        accs_view(accs@).len(),
        |j: int| acc_value(accs_view(accs@)[j]),
    ));
    out
}

/// The aggregation's output rows, or the first failure evaluating an input row.
fn aggregate_rows(
    rows: &Vec<Vec<Value>>,
    schema: &TableSchema,
    group_by: &Option<Vec<Expr>>,
    aggs: &Vec<AggregateFunc>,
    having: &Option<Expr>,
) -> (r: Result<Vec<Vec<Value>>, ExecError>)
    requires
        rows_evaluable(rows_view(rows@), exprs_of(*group_by), aggs@, schema@.columns),
        sums_fit(rows_view(rows@), exprs_of(*group_by), aggs@, schema@.columns),
        having_evaluable(rows_view(rows@), exprs_of(*group_by), aggs@, *having, schema@.columns),
    ensures
        match aggregate_output(rows_view(rows@), exprs_of(*group_by), aggs@, *having, schema@.columns) {
            Ok(rs) => r matches Ok(out) && rows_view(out@) == rs,
            Err(e) => r matches Err(ExecError::InvalidValue(m)) && m@ == eval_error_text(e),
        },
{
    let ghost all = rows_view(rows@);
    let ghost gb = exprs_of(*group_by);
    let ghost cols = schema@.columns;
    let (keys, accs) = if rows.len() == 0 && group_by.is_none() {
        let mut keys: Vec<Vec<Value>> = Vec::new();
        let mut accs: Vec<Vec<Accumulator>> = Vec::new();
        let k0: Vec<Value> = Vec::new();
        assert(row_view(k0@) =~= Seq::<ValueView>::empty());
        keys.push(k0);
        accs.push(start_accs(aggs.as_slice()));
        assert(groups_view(keys@, accs@)[0] == (Seq::<ValueView>::empty(), start_all(aggs@)));
        assert(groups_view(keys@, accs@) =~= seq![(Seq::<ValueView>::empty(), start_all(aggs@))]);
        (keys, accs)
    } else {
        match form_groups(rows, schema, group_by, aggs) {
            Ok(ka) => ka,
            Err(e) => {
                return Err(eval_failure(&e));
            },
        }
    };
    let ghost gs = groups_view(keys@, accs@);
    assert(final_groups(all, gb, aggs@, cols) == Ok::<Seq<(Seq<ValueView>, Seq<AccView>)>, EvalError>(gs));
    proof {
        if !(all.len() == 0 && gb is None) {
            assert(all.take(all.len() as int) =~= all);
            assert(match agg_groups(all.take(all.len() as int), gb, aggs@, cols) {
                Ok(g2) => groups_fit(g2),
                Err(_) => true,
            });
        }
    }
    assert(groups_fit(gs));
    let mut out: Vec<Vec<Value>> = Vec::new();
    let mut g: usize = 0;
    assert(gs.take(0) =~= Seq::<(Seq<ValueView>, Seq<AccView>)>::empty());
    assert(rows_view(out@) =~= Seq::<Seq<ValueView>>::empty());
    while g < keys.len()
        invariant
            g <= keys@.len(),
            keys@.len() == accs@.len(),
            gs == groups_view(keys@, accs@),
            cols == schema@.columns,
            groups_fit(gs),
            forall|j: int| 0 <= j < gs.len() && having is Some ==> spec_eval(having.unwrap(), cols, group_row(#[trigger] gs[j]), None) is Some,
            rows_view(out@) == kept_rows(gs.take(g as int), *having, cols),
        decreases keys@.len() - g,
    {
        assert forall|k: int| 0 <= k < accs@[g as int]@.len() implies acc_fits(#[trigger] accs@[g as int]@[k]@) by {
            assert(gs[g as int].1[k] == accs@[g as int]@[k]@);
        }
        let row = group_output(keys[g].as_slice(), &accs[g]);
        assert(row_view(row@) == group_row(gs[g as int]));
        let keep = match having {
            Some(h) => {
                assert(spec_eval(*h, cols, group_row(gs[g as int]), None) is Some);
                match eval(h, schema, row.as_slice()) {
                    Ok(v) => is_truthy(&v),
                    Err(_) => true,
                }
            },
            None => true,
        };
        assert(gs.take(g + 1).drop_last() =~= gs.take(g as int));
        let ghost before = rows_view(out@);
        if keep {
            out.push(row);
            assert(rows_view(out@) =~= before.push(group_row(gs[g as int])));
        }
        g = g + 1;
    }
    assert(gs.take(gs.len() as int) =~= gs);
    Ok(out)
}

/// Groups the input rows and passes on one row per group kept by HAVING: the group's key
/// followed by its aggregates' values.
pub struct AggregateOperator {
    input: Vec<Vec<Value>>,
    input_schema: TableSchema,
    group_by: Option<Vec<Expr>>,
    aggregates: Vec<AggregateFunc>,
    having: Option<Expr>,
    output_rows: Option<Vec<Vec<Value>>>,
    cursor: usize,
}

impl AggregateOperator {
    #[verifier::type_invariant]
    spec fn inv(self) -> bool {
        &&& rows_evaluable(rows_view(self.input@), exprs_of(self.group_by), self.aggregates@, self.input_schema@.columns)
        &&& sums_fit(rows_view(self.input@), exprs_of(self.group_by), self.aggregates@, self.input_schema@.columns)
        &&& having_evaluable(
            rows_view(self.input@),
            exprs_of(self.group_by),
            self.aggregates@,
            self.having,
            self.input_schema@.columns,
        )
        &&& match self.output_rows {
            Some(v) => aggregate_output(
                rows_view(self.input@),
                exprs_of(self.group_by),
                self.aggregates@,
                self.having,
                self.input_schema@.columns,
            ) == Ok::<Seq<Seq<ValueView>>, EvalError>(rows_view(v@)) && self.cursor <= v@.len(),
            None => self.cursor == 0,
        }
    }

    /// The input rows.
    pub closed spec fn rows(&self) -> Seq<Seq<ValueView>> {
        rows_view(self.input@)
    }

    /// The grouping expressions, if any.
    pub closed spec fn grouping(&self) -> Option<Seq<Expr>> {
        exprs_of(self.group_by)
    }

    /// The aggregates.
    pub closed spec fn funcs(&self) -> Seq<AggregateFunc> {
        self.aggregates@
    }

    /// The HAVING condition, if any.
    pub closed spec fn having_cond(&self) -> Option<Expr> {
        self.having
    }

    /// The columns of the input rows.
    pub closed spec fn columns(&self) -> Seq<ColumnView> {
        self.input_schema@.columns
    }

    /// How many output rows have been passed on.
    pub closed spec fn position(&self) -> int {
        self.cursor as int
    }

    /// The rows this operator produces, or the failure it reports.
    pub open spec fn outcome(&self) -> Result<Seq<Seq<ValueView>>, EvalError> {
        aggregate_output(self.rows(), self.grouping(), self.funcs(), self.having_cond(), self.columns())
    }

    /// An aggregation of `child_rows`. Every grouping expression and argument must be
    /// evaluable on every row, the running counts and sums must stay within 64 bits, and
    /// HAVING must be evaluable on every group's output row.
    pub fn new(
        child_rows: Vec<Vec<Value>>,
        input_schema: TableSchema,
        group_by: Option<Vec<Expr>>,
        aggregates: Vec<AggregateFunc>,
        having: Option<Expr>,
    ) -> (a: Self)
        requires
            rows_evaluable(rows_view(child_rows@), exprs_of(group_by), aggregates@, input_schema@.columns),
            sums_fit(rows_view(child_rows@), exprs_of(group_by), aggregates@, input_schema@.columns),
            having_evaluable(rows_view(child_rows@), exprs_of(group_by), aggregates@, having, input_schema@.columns),
        ensures
            a.rows() == rows_view(child_rows@),
            a.grouping() == exprs_of(group_by),
            a.funcs() == aggregates@,
            a.having_cond() == having,
            a.columns() == input_schema@.columns,
            a.position() == 0,
    {
        AggregateOperator {
            input: child_rows,
            input_schema,
            group_by,
            aggregates,
            having,
            output_rows: None,
            cursor: 0,
        }
    }
}

impl Operator for AggregateOperator {
    fn next(&mut self) -> (r: Result<Option<Vec<Value>>, ExecError>)
        ensures
            final(self).rows() == old(self).rows(),
            final(self).grouping() == old(self).grouping(),
            final(self).funcs() == old(self).funcs(),
            final(self).having_cond() == old(self).having_cond(),
            final(self).columns() == old(self).columns(),
            match old(self).outcome() {
                Err(e) => r matches Err(ExecError::InvalidValue(m)) && m@ == eval_error_text(e)
                    && final(self).position() == old(self).position(),
                Ok(rs) => (old(self).position() < rs.len() ==> (r matches Ok(Some(row)) && row_view(row@)
                    == rs[old(self).position()] && final(self).position() == old(self).position() + 1)) && (
                old(self).position() >= rs.len() ==> (r matches Ok(None) && final(self).position()
                    == old(self).position())),
            },
    {
        proof {
            use_type_invariant(&*self);
        }
        if self.output_rows.is_none() {
            match aggregate_rows(&self.input, &self.input_schema, &self.group_by, &self.aggregates, &self.having) {
                Ok(out) => {
                    self.output_rows = Some(out);
                },
                Err(e) => {
                    return Err(e);
                },
            }
        }
        let c = self.cursor;
        match &self.output_rows {
            Some(v) => {
                if c < v.len() {
                    let row = copy_row(v[c].as_slice());
                    self.cursor = c + 1;
                    Ok(Some(row))
                } else {
                    Ok(None)
                }
            },
            None => Ok(None),
        }
    }
}


/// Without input rows: with no grouping the aggregation gives one row of starting values
/// (counts and sums 0, means, least and greatest NULL), kept unless HAVING evaluates to
/// something other than true on it; with grouping it gives no rows.
pub proof fn lemma_aggregate_without_rows(
    group_by: Option<Seq<Expr>>,
    aggs: Seq<AggregateFunc>,
    having: Option<Expr>,
    cols: Seq<ColumnView>,
)
    ensures
        group_by is Some ==> aggregate_output(Seq::empty(), group_by, aggs, having, cols) == Ok::<
            Seq<Seq<ValueView>>,
            EvalError,
        >(Seq::empty()),
        group_by is None ==> aggregate_output(Seq::empty(), group_by, aggs, having, cols) == Ok::<
            Seq<Seq<ValueView>>,
            EvalError,
        >(
            if having_keeps(group_row((Seq::empty(), start_all(aggs))), having, cols) {
                seq![group_row((Seq::<ValueView>::empty(), start_all(aggs)))]
            } else {
                Seq::empty()
            },
        ),
        forall|k: int|
            0 <= k < aggs.len() ==> (#[trigger] acc_value(acc_start(aggs[k]))) == match aggs[k] {
                AggregateFunc::CountStar | AggregateFunc::Count(_) | AggregateFunc::Sum(_) => ValueView::Integer(0),
                _ => ValueView::Null,
            },
{
    let gs = seq![(Seq::<ValueView>::empty(), start_all(aggs))];
    if group_by is None {
        let e = Seq::<Seq<ValueView>>::empty();
        assert(final_groups(e, group_by, aggs, cols) == Ok::<Seq<(Seq<ValueView>, Seq<AccView>)>, EvalError>(gs));
        assert(gs.drop_last() =~= Seq::<(Seq<ValueView>, Seq<AccView>)>::empty());
        assert(gs.last() == (Seq::<ValueView>::empty(), start_all(aggs)));
        assert(kept_rows(gs.drop_last(), having, cols) == Seq::<Seq<ValueView>>::empty());
        let r = group_row((Seq::<ValueView>::empty(), start_all(aggs)));
        assert(kept_rows(gs, having, cols) == if having_keeps(r, having, cols) {
            Seq::<Seq<ValueView>>::empty().push(r)
        } else {
            Seq::<Seq<ValueView>>::empty()
        });
        assert(Seq::<Seq<ValueView>>::empty().push(r) =~= seq![r]);
    }
}

/// Groups come out in the order their keys first appear among the rows, each key once.
pub proof fn lemma_groups_in_first_seen_order(
    rows: Seq<Seq<ValueView>>,
    group_by: Option<Seq<Expr>>,
    aggs: Seq<AggregateFunc>,
    cols: Seq<ColumnView>,
)
    ensures
        agg_groups(rows, group_by, aggs, cols) matches Ok(gs) ==> forall|a: int, b: int|
            0 <= a < b < gs.len() ==> (#[trigger] gs[a]).0 != (#[trigger] gs[b]).0,
    decreases rows.len(),
{
    if rows.len() > 0 {
        lemma_groups_in_first_seen_order(rows.drop_last(), group_by, aggs, cols);
        if let Ok(gs) = agg_groups(rows.drop_last(), group_by, aggs, cols) {
            if let Ok(ka) = row_eval(rows.last(), group_by, aggs, cols) {
                lemma_find_group(gs, ka.0, 0);
                let i = find_group(gs, ka.0, 0);
                if i >= gs.len() {
                    let t = gs.push((ka.0, update_all(start_all(aggs), ka.1)));
                    assert forall|a: int, b: int| 0 <= a < b < t.len() implies (#[trigger] t[a]).0 != (#[trigger] t[b]).0 by {
                        if b == gs.len() {
                            assert(t[a] == gs[a]);
                            lemma_find_group_absent(gs, ka.0, 0, a);
                        } else {
                            assert(t[a] == gs[a] && t[b] == gs[b]);
                        }
                    }
                } else {
                    let t = gs.update(i, (ka.0, update_all(gs[i].1, ka.1)));
                    assert forall|a: int, b: int| 0 <= a < b < t.len() implies (#[trigger] t[a]).0 != (#[trigger] t[b]).0 by {
                        assert(t[a].0 == gs[a].0 && t[b].0 == gs[b].0);
                    }
                }
            }
        }
    }
}

proof fn lemma_find_group_absent(gs: Seq<(Seq<ValueView>, Seq<AccView>)>, key: Seq<ValueView>, i: int, a: int)
    requires
        0 <= i <= a < gs.len(),
        find_group(gs, key, i) >= gs.len(),
    ensures
        gs[a].0 != key,
    decreases a - i,
{
    if gs[i].0 != key && i < a {
        lemma_find_group_absent(gs, key, i + 1, a);
    }
}

} // verus!
