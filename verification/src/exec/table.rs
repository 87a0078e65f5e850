use vstd::prelude::*;

use crate::error::{DbError, ExecError, PlanError};
use crate::exec::mutate::{check_row, nul_message, row_fault, RowFault};
use crate::exec::{copy_row, rows_view};
use crate::auth::session::ExecutionContext;
use crate::exec::eval_error_text;
use crate::plan::expr::{eval_with_context, outcome_matches, spec_eval, EvalError};
use crate::plan::select::{passes, row_passes, run_select, select_outcome};
use crate::engine::ExecResult;
use crate::sql::ast::Expr;
use crate::types::schema::{spec_column_index, spec_primary_key_index, ColumnView, TableSchema};
use crate::types::value::{copy_value, lemma_sql_cmp_flip, lemma_sql_cmp_refl, lemma_sql_cmp_trans, row_view, spec_sql_cmp, sql_cmp, SqlOrder, Value, ValueView};

verus! {

/// The column that keys the rows of a table with columns `cols`: the primary key, or the
/// first column when none is marked.
pub open spec fn key_column(cols: Seq<ColumnView>) -> int {
    match spec_primary_key_index(cols) {
        Some(i) => i,
        None => 0,
    }
}

/// The order in which keys are stored.
pub open spec fn key_order(a: ValueView, b: ValueView) -> SqlOrder {
    spec_sql_cmp(a, b)
}

proof fn lemma_key_flip(a: ValueView, b: ValueView)
    ensures
        key_order(a, b) == SqlOrder::Less <==> key_order(b, a) == SqlOrder::Greater,
        key_order(a, b) == SqlOrder::Equal <==> key_order(b, a) == SqlOrder::Equal,
{
    lemma_sql_cmp_flip(a, b);
}

proof fn lemma_key_trans(a: ValueView, b: ValueView, c: ValueView)
    requires
        key_order(a, b) == SqlOrder::Less,
        key_order(b, c) == SqlOrder::Less,
    ensures
        key_order(a, c) == SqlOrder::Less,
{
    lemma_sql_cmp_trans(a, b, c);
}

/// After a row is stored, a read finds a row with its key, the table has grown by one
/// row, and every row it held before is still there.
pub proof fn lemma_stored_row_is_found(old: Seq<Seq<ValueView>>, new: Seq<Seq<ValueView>>, pk: int, row: Seq<ValueView>)
    requires
        inserted_in_key_order(old, new, pk, row),
    ensures
        new.len() == old.len() + 1,
        new.contains(row),
        holds_key(new, pk, row[pk]),
        forall|i: int| 0 <= i < old.len() ==> new.contains(#[trigger] old[i]),
{
    let p = choose|p: int|
        0 <= p <= old.len() && #[trigger] old.insert(p, row) == new && (forall|j: int|
            0 <= j < p ==> key_order(#[trigger] old[j][pk], row[pk]) == SqlOrder::Less) && (forall|j: int|
            p <= j < old.len() ==> key_order(row[pk], #[trigger] old[j][pk]) == SqlOrder::Less);
    assert(new[p] == row);
    lemma_sql_cmp_refl(row[pk]);
    assert(key_order(new[p][pk], row[pk]) == SqlOrder::Equal);
    assert forall|i: int| 0 <= i < old.len() implies new.contains(#[trigger] old[i]) by {
        if i < p {
            assert(new[i] == old[i]);
        } else {
            assert(new[i + 1] == old[i]);
        }
    }
}

/// After the row with a key is removed, the table has shrunk by one row and every other
/// row it held is still there.
pub proof fn lemma_removal_keeps_the_rest(old: Seq<Seq<ValueView>>, new: Seq<Seq<ValueView>>, pk: int, k: ValueView)
    requires
        removed_key(old, new, pk, k),
    ensures
        new.len() + 1 == old.len(),
        forall|i: int| 0 <= i < old.len() && key_order(old[i][pk], k) != SqlOrder::Equal ==> new.contains(#[trigger] old[i]),
{
    let p = choose|p: int| 0 <= p < old.len() && key_order(old[p][pk], k) == SqlOrder::Equal && #[trigger] old.remove(p) == new;
    assert forall|i: int| 0 <= i < old.len() && key_order(old[i][pk], k) != SqlOrder::Equal implies new.contains(#[trigger] old[i]) by {
        if i < p {
            assert(new[i] == old[i]);
        } else {
            assert(i != p);
            assert(new[i - 1] == old[i]);
        }
    }
}

fn compare_keys(a: &Value, b: &Value) -> (r: SqlOrder)
    ensures
        r == key_order(a@, b@),
{
    sql_cmp(a, b)
}

/// Whether the rows come in strictly ascending order of their key column.
pub open spec fn key_sorted(rows: Seq<Seq<ValueView>>, pk: int) -> bool {
    forall|i: int, j: int|
        #![trigger rows[i], rows[j]]
        0 <= i < j < rows.len() ==> key_order(rows[i][pk], rows[j][pk]) == SqlOrder::Less
}

/// Whether some row has a key equal to `k`.
pub open spec fn holds_key(rows: Seq<Seq<ValueView>>, pk: int, k: ValueView) -> bool {
    exists|i: int| 0 <= i < rows.len() && key_order(#[trigger] rows[i][pk], k) == SqlOrder::Equal
}

/// How many of the leading rows have a key below `k`: where a row with key `k` goes.
pub open spec fn key_place(rows: Seq<Seq<ValueView>>, pk: int, k: ValueView) -> int
    decreases rows.len(),
{
    if rows.len() == 0 {
        0
    } else if key_order(rows[0][pk], k) == SqlOrder::Less {
        1 + key_place(rows.drop_first(), pk, k)
    } else {
        0
    }
}

proof fn lemma_key_place_bound(rows: Seq<Seq<ValueView>>, pk: int, k: ValueView)
    ensures
        0 <= key_place(rows, pk, k) <= rows.len(),
    decreases rows.len(),
{
    if rows.len() > 0 {
        lemma_key_place_bound(rows.drop_first(), pk, k);
    }
}

/// Whether `new` is `old` with `row` put at the place its key takes among theirs: after
/// every row with a smaller key and before every row with a larger one.
pub open spec fn inserted_in_key_order(old: Seq<Seq<ValueView>>, new: Seq<Seq<ValueView>>, pk: int, row: Seq<ValueView>) -> bool {
    exists|p: int|
        0 <= p <= old.len() && #[trigger] old.insert(p, row) == new && (forall|j: int|
            0 <= j < p ==> key_order(#[trigger] old[j][pk], row[pk]) == SqlOrder::Less) && (forall|j: int|
            p <= j < old.len() ==> key_order(row[pk], #[trigger] old[j][pk]) == SqlOrder::Less)
}

/// Whether `new` is `old` without the row whose key equals `k`.
pub open spec fn removed_key(old: Seq<Seq<ValueView>>, new: Seq<Seq<ValueView>>, pk: int, k: ValueView) -> bool {
    exists|p: int| 0 <= p < old.len() && key_order(old[p][pk], k) == SqlOrder::Equal && #[trigger] old.remove(p) == new
}

/// The row of a table with columns `cols` that an INSERT builds from `vals` given for
/// the columns `names`, in order (NULL where no value is given, the last value given
/// for a column winning), or the first name that is no column.
pub open spec fn assign_named(cols: Seq<ColumnView>, names: Seq<Seq<char>>, vals: Seq<ValueView>) -> Result<
    Seq<ValueView>,
    Seq<char>,
>
    decreases names.len(),
{
    if names.len() == 0 {
        Ok(Seq::new(cols.len(), |i: int| ValueView::Null))
    } else {
        match assign_named(cols, names.drop_last(), vals.take(names.len() - 1)) {
            Err(n) => Err(n),
            Ok(row) => match spec_column_index(cols, names.last()) {
                None => Err(names.last()),
                Some(i) => Ok(row.update(i, vals[names.len() - 1])),
            },
        }
    }
}

/// The names of the listed columns.
pub open spec fn names_view(names: Seq<String>) -> Seq<Seq<char>> {
    Seq::new(names.len(), |i: int| names[i]@)
}

/// Builds the full row an INSERT stores from the values of one VALUES tuple: with no
/// column list the values must be one per column, in order; with one, one per listed
/// column, each of which must exist, and the columns not listed are NULL.
#[verifier::loop_isolation(false)]
pub fn full_row(schema: &TableSchema, columns: &Option<Vec<String>>, values: &Vec<Value>) -> (r: Result<Vec<Value>, PlanError>)
    ensures
        match columns {
            None => if values@.len() != schema@.columns.len() {
                r matches Err(PlanError::ColumnCountMismatch { expected, found }) && expected == schema@.columns.len()
                    && found == values@.len()
            } else {
                r matches Ok(row) && row_view(row@) == row_view(values@)
            },
            Some(names) => if names@.len() != values@.len() {
                r matches Err(PlanError::ColumnCountMismatch { expected, found }) && expected == names@.len() && found
                    == values@.len()
            } else {
                match assign_named(schema@.columns, names_view(names@), row_view(values@)) {
                    Ok(row) => r matches Ok(v) && row_view(v@) == row,
                    Err(n) => r matches Err(PlanError::NoSuchColumn(m)) && m@ == n,
                }
            },
        },
{
    match columns {
        None => {
            if values.len() != schema.columns.len() {
                return Err(PlanError::ColumnCountMismatch { expected: schema.columns.len(), found: values.len() });
            }
            Ok(copy_row(values.as_slice()))
        },
        Some(names) => {
            if names.len() != values.len() {
                return Err(PlanError::ColumnCountMismatch { expected: names.len(), found: values.len() });
            }
            let ghost cols = schema@.columns;
            let ghost nv = names_view(names@);
            let ghost vv = row_view(values@);
            let mut row: Vec<Value> = Vec::new();
            let mut c: usize = 0;
            while c < schema.columns.len()
                invariant
                    c <= schema.columns@.len(),
                    row@.len() == c,
                    forall|j: int| 0 <= j < c ==> (#[trigger] row@[j])@ == ValueView::Null,
                decreases schema.columns@.len() - c,
            {
                row.push(Value::Null);
                c = c + 1;
            }
            assert(row_view(row@) =~= Seq::new(cols.len(), |i: int| ValueView::Null));
            assert(nv.take(0) =~= Seq::<Seq<char>>::empty());
            let mut k: usize = 0;
            while k < names.len()
                invariant
                    k <= names@.len(),
                    names@.len() == values@.len(),
                    cols == schema@.columns,
                    nv == names_view(names@),
                    vv == row_view(values@),
                    row@.len() == cols.len(),
                    assign_named(cols, nv.take(k as int), vv.take(k as int)) == Ok::<Seq<ValueView>, Seq<char>>(row_view(row@)),
                decreases names@.len() - k,
            {
                assert(nv.take(k + 1).drop_last() =~= nv.take(k as int));
                assert(vv.take(k + 1).take(k as int) =~= vv.take(k as int));
                assert(nv.take(k + 1).last() == names@[k as int]@);
                assert(vv.take(k + 1)[k as int] == values@[k as int]@);
                match schema.column_index(names[k].as_str()) {
                    None => {
                        proof {
                            lemma_assign_prefix_error(cols, nv, vv, k + 1);
                            assert(nv.take(nv.len() as int) =~= nv);
                            assert(vv.take(vv.len() as int) =~= vv);
                        }
                        return Err(PlanError::NoSuchColumn(names[k].clone()));
                    },
                    Some(i) => {
                        proof {
                            crate::types::schema::lemma_column_index_bound(cols, names@[k as int]@);
                        }
                        let ghost before = row_view(row@);
                        row.set(i, copy_value(&values[k]));
                        assert(row_view(row@) =~= before.update(i as int, vv[k as int]));
                    },
                }
                k = k + 1;
            }
            assert(nv.take(names@.len() as int) =~= nv);
            assert(vv.take(names@.len() as int) =~= vv);
            Ok(row)
        },
    }
}

proof fn lemma_insert_all_prefix_error(
    rows: Seq<Seq<ValueView>>,
    cols: Seq<ColumnView>,
    pk: int,
    columns: Option<Seq<Seq<char>>>,
    tuples: Seq<Seq<ValueView>>,
    n: int,
)
    requires
        0 <= n <= tuples.len(),
        insert_all(rows, cols, pk, columns, tuples.take(n)) is Err,
    ensures
        insert_all(rows, cols, pk, columns, tuples) == insert_all(rows, cols, pk, columns, tuples.take(n)),
    decreases tuples.len() - n,
{
    if n < tuples.len() {
        assert(tuples.take(n + 1).drop_last() =~= tuples.take(n));
        lemma_insert_all_prefix_error(rows, cols, pk, columns, tuples, n + 1);
    } else {
        assert(tuples.take(n) =~= tuples);
    }
}

proof fn lemma_assign_prefix_error(cols: Seq<ColumnView>, names: Seq<Seq<char>>, vals: Seq<ValueView>, n: int)
    requires
        0 <= n <= names.len(),
        names.len() == vals.len(),
        assign_named(cols, names.take(n), vals.take(n)) is Err,
    ensures
        assign_named(cols, names, vals) == assign_named(cols, names.take(n), vals.take(n)),
    decreases names.len() - n,
{
    if n < names.len() {
        assert(names.take(n + 1).drop_last() =~= names.take(n));
        assert(vals.take(n + 1).take(n) =~= vals.take(n));
        lemma_assign_prefix_error(cols, names, vals, n + 1);
    } else {
        assert(names.take(n) =~= names);
        assert(vals.take(n) =~= vals);
    }
}

/// Why an INSERT statement is refused.
pub enum InsertRefusal {
    /// A VALUES tuple of the wrong length: how many values were expected and found.
    CountMismatch(int, int),
    /// A listed column that the table does not have.
    NoSuchColumn(Seq<char>),
    /// A row with a NULL in a NOT NULL column or text holding a NUL character.
    Fault(RowFault),
    /// A row whose key is already stored (or was given earlier in the statement).
    Duplicate,
}

/// The row one VALUES tuple gives, or why it is refused.
pub open spec fn built_row(cols: Seq<ColumnView>, columns: Option<Seq<Seq<char>>>, vals: Seq<ValueView>) -> Result<
    Seq<ValueView>,
    InsertRefusal,
> {
    match columns {
        None => if vals.len() != cols.len() {
            Err(InsertRefusal::CountMismatch(cols.len() as int, vals.len() as int))
        } else {
            Ok(vals)
        },
        Some(ns) => if ns.len() != vals.len() {
            Err(InsertRefusal::CountMismatch(ns.len() as int, vals.len() as int))
        } else {
            match assign_named(cols, ns, vals) {
                Ok(r) => Ok(r),
                Err(n) => Err(InsertRefusal::NoSuchColumn(n)),
            }
        },
    }
}

/// The first NOT NULL column, from column `i` on, that holds NULL in `row`.
pub open spec fn null_fault(cols: Seq<ColumnView>, row: Seq<ValueView>, i: int) -> Option<Seq<char>>
    decreases cols.len() - i,
{
    if i < 0 || i >= cols.len() || i >= row.len() {
        None
    } else if cols[i].2 && row[i] is Null {
        Some(cols[i].0)
    } else {
        null_fault(cols, row, i + 1)
    }
}

fn check_not_null(schema: &TableSchema, row: &[Value]) -> (r: Result<(), ExecError>)
    ensures
        match null_fault(schema@.columns, row_view(row@), 0) {
            None => r is Ok,
            Some(n) => r matches Err(ExecError::NotNullViolation(m)) && m@ == n,
        },
{
    let ghost cols = schema@.columns;
    let ghost rv = row_view(row@);
    let mut i: usize = 0;
    while i < schema.columns.len() && i < row.len()
        invariant
            cols == schema@.columns,
            rv == row_view(row@),
            i <= schema.columns@.len(),
            null_fault(cols, rv, 0) == null_fault(cols, rv, i as int),
        decreases schema.columns@.len() - i,
    {
        assert(cols[i as int] == schema.columns@[i as int]@);
        assert(rv[i as int] == row@[i as int]@);
        if schema.columns[i].not_null {
            if let Value::Null = &row[i] {
                return Err(ExecError::NotNullViolation(schema.columns[i].name.clone()));
            }
        }
        i = i + 1;
    }
    Ok(())
}

/// The rows after an INSERT of `tuples`, stored one after the other, or why the
/// statement is refused (the first refused tuple decides; a refused statement stores
/// nothing). Every NOT NULL column is checked before the rest of a row.
pub open spec fn insert_all(
    rows: Seq<Seq<ValueView>>,
    cols: Seq<ColumnView>,
    pk: int,
    columns: Option<Seq<Seq<char>>>,
    tuples: Seq<Seq<ValueView>>,
) -> Result<Seq<Seq<ValueView>>, InsertRefusal>
    decreases tuples.len(),
{
    if tuples.len() == 0 {
        Ok(rows)
    } else {
        match insert_all(rows, cols, pk, columns, tuples.drop_last()) {
            Err(e) => Err(e),
            Ok(cur) => match built_row(cols, columns, tuples.last()) {
                Err(e) => Err(e),
                Ok(full) => match null_fault(cols, full, 0) {
                    Some(n) => Err(InsertRefusal::Fault(RowFault::NotNull(n))),
                    None => match row_fault(cols, full, 0) {
                        Some(f) => Err(InsertRefusal::Fault(f)),
                        None => if holds_key(cur, pk, full[pk]) {
                            Err(InsertRefusal::Duplicate)
                        } else {
                            Ok(cur.insert(key_place(cur, pk, full[pk]), full))
                        },
                    },
                },
            },
        }
    }
}

/// An INSERT that is not refused adds exactly one row per tuple and keeps every row
/// the table held.
pub proof fn lemma_insert_keeps_rows(
    rows: Seq<Seq<ValueView>>,
    cols: Seq<ColumnView>,
    pk: int,
    columns: Option<Seq<Seq<char>>>,
    tuples: Seq<Seq<ValueView>>,
)
    requires
        insert_all(rows, cols, pk, columns, tuples) is Ok,
    ensures
        insert_all(rows, cols, pk, columns, tuples)->Ok_0.len() == rows.len() + tuples.len(),
        forall|i: int| 0 <= i < rows.len() ==> insert_all(rows, cols, pk, columns, tuples)->Ok_0.contains(#[trigger] rows[i]),
    decreases tuples.len(),
{
    if tuples.len() > 0 {
        lemma_insert_keeps_rows(rows, cols, pk, columns, tuples.drop_last());
        let cur = insert_all(rows, cols, pk, columns, tuples.drop_last())->Ok_0;
        let full = built_row(cols, columns, tuples.last())->Ok_0;
        let p = key_place(cur, pk, full[pk]);
        lemma_key_place_bound(cur, pk, full[pk]);
        let new = cur.insert(p, full);
        assert forall|i: int| 0 <= i < rows.len() implies new.contains(#[trigger] rows[i]) by {
            assert(cur.contains(rows[i]));
            let q = choose|q: int| 0 <= q < cur.len() && cur[q] == rows[i];
            if q < p {
                assert(new[q] == rows[i]);
            } else {
                assert(new[q + 1] == rows[i]);
            }
        }
    }
}

/// Whether `e` is the error reported for refusal `f`.
pub open spec fn reports(f: InsertRefusal, e: ExecError) -> bool {
    match f {
        InsertRefusal::CountMismatch(a, b) => e matches ExecError::Plan(PlanError::ColumnCountMismatch { expected, found })
            && expected == a && found == b,
        InsertRefusal::NoSuchColumn(n) => e matches ExecError::Plan(PlanError::NoSuchColumn(m)) && m@ == n,
        InsertRefusal::Fault(RowFault::NotNull(n)) => e matches ExecError::NotNullViolation(m) && m@ == n,
        InsertRefusal::Fault(RowFault::InteriorNul(n)) => e matches ExecError::InvalidValue(m) && m@ == nul_message(n),
        InsertRefusal::Duplicate => e is DuplicatePrimaryKey,
    }
}

/// The listed columns of an INSERT, as text.
pub open spec fn columns_view(columns: Option<Vec<String>>) -> Option<Seq<Seq<char>>> {
    match columns {
        Some(ns) => Some(names_view(ns@)),
        None => None,
    }
}

proof fn lemma_assign_len(cols: Seq<ColumnView>, names: Seq<Seq<char>>, vals: Seq<ValueView>)
    ensures
        assign_named(cols, names, vals) matches Ok(r) ==> r.len() == cols.len(),
    decreases names.len(),
{
    if names.len() > 0 {
        lemma_assign_len(cols, names.drop_last(), vals.take(names.len() - 1));
        crate::types::schema::lemma_column_index_bound(cols, names.last());
    }
}

/// The rows a DELETE with condition `pred` leaves, in order, or the first failure
/// evaluating the condition.
pub open spec fn kept_rows(rows: Seq<Seq<ValueView>>, pred: Option<Expr>, cols: Seq<ColumnView>, uid: Option<i64>) -> Result<
    Seq<Seq<ValueView>>,
    EvalError,
>
    decreases rows.len(),
{
    if rows.len() == 0 {
        Ok(Seq::empty())
    } else {
        match kept_rows(rows.drop_last(), pred, cols, uid) {
            Err(e) => Err(e),
            Ok(ks) => match passes(rows.last(), pred, cols, uid) {
                Err(e) => Err(e),
                Ok(b) => Ok(
                    if b {
                        ks
                    } else {
                        ks.push(rows.last())
                    },
                ),
            },
        }
    }
}

proof fn lemma_kept_prefix_error(rows: Seq<Seq<ValueView>>, pred: Option<Expr>, cols: Seq<ColumnView>, uid: Option<i64>, n: int)
    requires
        0 <= n <= rows.len(),
        kept_rows(rows.take(n), pred, cols, uid) is Err,
    ensures
        kept_rows(rows, pred, cols, uid) == kept_rows(rows.take(n), pred, cols, uid),
    decreases rows.len() - n,
{
    if n < rows.len() {
        assert(rows.take(n + 1).drop_last() =~= rows.take(n));
        lemma_kept_prefix_error(rows, pred, cols, uid, n + 1);
    } else {
        assert(rows.take(n) =~= rows);
    }
}

/// What is wrong with the columns an UPDATE assigns, checked in order.
pub enum TargetFault {
    /// A column the table does not have.
    NoSuchColumn(Seq<char>),
    /// The primary-key column.
    PrimaryKey,
}

/// The first fault among the assigned columns `names` from position `k` on.
pub open spec fn target_fault(cols: Seq<ColumnView>, names: Seq<Seq<char>>, k: int) -> Option<TargetFault>
    decreases names.len() - k,
{
    if k < 0 || k >= names.len() {
        None
    } else {
        match spec_column_index(cols, names[k]) {
            None => Some(TargetFault::NoSuchColumn(names[k])),
            Some(i) => if cols[i].3 {
                Some(TargetFault::PrimaryKey)
            } else {
                target_fault(cols, names, k + 1)
            },
        }
    }
}

/// The assigned columns' names.
pub open spec fn assigned_names(asg: Seq<(String, Expr)>) -> Seq<Seq<char>> {
    Seq::new(asg.len(), |k: int| asg[k].0@)
}

/// A row after the assignments, each value computed on the row as it was (a later
/// assignment to the same column wins), or the first failure computing one.
pub open spec fn updated_row(row: Seq<ValueView>, asg: Seq<(String, Expr)>, cols: Seq<ColumnView>, uid: Option<i64>) -> Result<
    Seq<ValueView>,
    EvalError,
>
    decreases asg.len(),
{
    if asg.len() == 0 {
        Ok(row)
    } else {
        match updated_row(row, asg.drop_last(), cols, uid) {
            Err(e) => Err(e),
            Ok(r) => match spec_eval(asg.last().1, cols, row, uid) {
                Some(Ok(v)) => Ok(r.update(spec_column_index(cols, asg.last().0@).unwrap(), v)),
                Some(Err(e)) => Err(e),
                None => Ok(r),
            },
        }
    }
}

/// Which rows an UPDATE's condition selects, or the first failure evaluating it.
pub open spec fn where_flags(rows: Seq<Seq<ValueView>>, pred: Option<Expr>, cols: Seq<ColumnView>, uid: Option<i64>) -> Result<
    Seq<bool>,
    EvalError,
>
    decreases rows.len(),
{
    if rows.len() == 0 {
        Ok(Seq::empty())
    } else {
        match where_flags(rows.drop_last(), pred, cols, uid) {
            Err(e) => Err(e),
            Ok(fs) => match passes(rows.last(), pred, cols, uid) {
                Err(e) => Err(e),
                Ok(b) => Ok(fs.push(b)),
            },
        }
    }
}

/// The rows after an UPDATE of the flagged rows, in order, or the first failure.
pub open spec fn apply_updates(
    rows: Seq<Seq<ValueView>>,
    flags: Seq<bool>,
    asg: Seq<(String, Expr)>,
    cols: Seq<ColumnView>,
    uid: Option<i64>,
) -> Result<Seq<Seq<ValueView>>, EvalError>
    decreases rows.len(),
{
    if rows.len() == 0 {
        Ok(Seq::empty())
    } else {
        match apply_updates(rows.drop_last(), flags, asg, cols, uid) {
            Err(e) => Err(e),
            Ok(ps) => if flags[rows.len() - 1] {
                match updated_row(rows.last(), asg, cols, uid) {
                    Ok(r) => Ok(ps.push(r)),
                    Err(e) => Err(e),
                }
            } else {
                Ok(ps.push(rows.last()))
            },
        }
    }
}

/// How many flags are set.
pub open spec fn count_set(flags: Seq<bool>) -> nat
    decreases flags.len(),
{
    if flags.len() == 0 {
        0
    } else {
        count_set(flags.drop_last()) + if flags.last() {
            1nat
        } else {
            0nat
        }
    }
}

proof fn lemma_where_prefix_error(rows: Seq<Seq<ValueView>>, pred: Option<Expr>, cols: Seq<ColumnView>, uid: Option<i64>, n: int)
    requires
        0 <= n <= rows.len(),
        where_flags(rows.take(n), pred, cols, uid) is Err,
    ensures
        where_flags(rows, pred, cols, uid) == where_flags(rows.take(n), pred, cols, uid),
    decreases rows.len() - n,
{
    if n < rows.len() {
        assert(rows.take(n + 1).drop_last() =~= rows.take(n));
        lemma_where_prefix_error(rows, pred, cols, uid, n + 1);
    } else {
        assert(rows.take(n) =~= rows);
    }
}

proof fn lemma_apply_prefix_error(
    rows: Seq<Seq<ValueView>>,
    flags: Seq<bool>,
    asg: Seq<(String, Expr)>,
    cols: Seq<ColumnView>,
    uid: Option<i64>,
    n: int,
)
    requires
        0 <= n <= rows.len(),
        apply_updates(rows.take(n), flags, asg, cols, uid) is Err,
    ensures
        apply_updates(rows, flags, asg, cols, uid) == apply_updates(rows.take(n), flags, asg, cols, uid),
    decreases rows.len() - n,
{
    if n < rows.len() {
        assert(rows.take(n + 1).drop_last() =~= rows.take(n));
        lemma_apply_prefix_error(rows, flags, asg, cols, uid, n + 1);
    } else {
        assert(rows.take(n) =~= rows);
    }
}

proof fn lemma_updated_prefix_error(row: Seq<ValueView>, asg: Seq<(String, Expr)>, cols: Seq<ColumnView>, uid: Option<i64>, n: int)
    requires
        0 <= n <= asg.len(),
        updated_row(row, asg.take(n), cols, uid) is Err,
    ensures
        updated_row(row, asg, cols, uid) == updated_row(row, asg.take(n), cols, uid),
    decreases asg.len() - n,
{
    if n < asg.len() {
        assert(asg.take(n + 1).drop_last() =~= asg.take(n));
        lemma_updated_prefix_error(row, asg, cols, uid, n + 1);
    } else {
        assert(asg.take(n) =~= asg);
    }
}

/// Whether `tg` are the positions of the assigned columns, each valid.
pub open spec fn targets_ok(tg: Seq<usize>, asg: Seq<(String, Expr)>, cols: Seq<ColumnView>, pk: int, n: nat) -> bool {
    tg.len() == asg.len() && forall|j: int|
        0 <= j < asg.len() ==> spec_column_index(cols, asg[j].0@) == Some(#[trigger] tg[j] as int) && valid_target(
            spec_column_index(cols, asg[j].0@),
            pk,
            n,
        )
}

/// Whether an assigned column exists, lies within a row of `n` values and is not the key.
pub open spec fn valid_target(o: Option<int>, pk: int, n: nat) -> bool {
    o matches Some(i) && i != pk && 0 <= i < n
}

proof fn lemma_updated_keeps(row: Seq<ValueView>, asg: Seq<(String, Expr)>, cols: Seq<ColumnView>, uid: Option<i64>, pk: int)
    requires
        0 <= pk < row.len(),
        forall|k: int| 0 <= k < asg.len() ==> valid_target(#[trigger] spec_column_index(cols, asg[k].0@), pk, row.len()),
    ensures
        updated_row(row, asg, cols, uid) matches Ok(r) ==> r.len() == row.len() && r[pk] == row[pk],
    decreases asg.len(),
{
    if asg.len() > 0 {
        assert forall|k: int| 0 <= k < asg.drop_last().len() implies valid_target(
            #[trigger] spec_column_index(cols, asg.drop_last()[k].0@),
            pk,
            row.len(),
        ) by {
            assert(asg.drop_last()[k] == asg[k]);
        }
        lemma_updated_keeps(row, asg.drop_last(), cols, uid, pk);
        assert(valid_target(spec_column_index(cols, asg[asg.len() - 1].0@), pk, row.len()));
    }
}

/// The rows of one table held in memory, in ascending order of their key column.
pub struct TableRows {
    rows: Vec<Vec<Value>>,
    width: usize,
    pk: usize,
}

impl TableRows {
    #[verifier::type_invariant]
    spec fn inv(self) -> bool {
        &&& self.pk < self.width
        &&& forall|i: int| 0 <= i < self.rows@.len() ==> (#[trigger] self.rows@[i])@.len() == self.width
        &&& key_sorted(rows_view(self.rows@), self.pk as int)
    }

    /// The rows, in key order.
    pub closed spec fn rows(&self) -> Seq<Seq<ValueView>> {
        rows_view(self.rows@)
    }

    /// How many columns each row has.
    pub closed spec fn width(&self) -> nat {
        self.width as nat
    }

    /// The position of the key column.
    pub closed spec fn key_index(&self) -> int {
        self.pk as int
    }

    /// An empty table for `schema`, keyed by its primary-key column.
    pub fn new(schema: &TableSchema) -> (t: Self)
        requires
            schema@.columns.len() > 0,
        ensures
            t.rows() == Seq::<Seq<ValueView>>::empty(),
            t.width() == schema@.columns.len(),
            t.key_index() == key_column(schema@.columns),
    {
        let pk = schema.primary_key_index();
        proof {
            if let Some(i) = spec_primary_key_index(schema@.columns) {
                crate::types::schema::lemma_pk_index_bound(schema@.columns);
            }
        }
        let t = TableRows { rows: Vec::new(), width: schema.columns.len(), pk };
        assert(t.rows() =~= Seq::<Seq<ValueView>>::empty());
        t
    }

    /// The rows in key order.
    pub fn scan(&self) -> (r: Vec<Vec<Value>>)
        ensures
            rows_view(r@) == self.rows(),
    {
        let mut out: Vec<Vec<Value>> = Vec::new();
        let mut i: usize = 0;
        while i < self.rows.len()
            invariant
                i <= self.rows@.len(),
                out@.len() == i,
                forall|j: int| 0 <= j < i ==> row_view((#[trigger] out@[j])@) == row_view(self.rows@[j]@),
            decreases self.rows@.len() - i,
        {
            out.push(copy_row(self.rows[i].as_slice()));
            i = i + 1;
        }
        assert(rows_view(out@) =~= rows_view(self.rows@));
        out
    }

    /// Stores a row: a NULL in a NOT NULL column or text holding a NUL character refuses
    /// it (the first such column decides), as does a key equal to one already stored;
    /// otherwise the row takes its place in key order. A refused row changes nothing.
    #[verifier::spinoff_prover]
    #[verifier::rlimit(40)]
    pub fn insert_row(&mut self, schema: &TableSchema, row: &[Value]) -> (r: Result<(), ExecError>)
        requires
            schema@.columns.len() == old(self).width(),
            key_column(schema@.columns) == old(self).key_index(),
            row@.len() == old(self).width(),
        ensures
            final(self).width() == old(self).width(),
            final(self).key_index() == old(self).key_index(),
            key_sorted(final(self).rows(), final(self).key_index()),
            match row_fault(schema@.columns, row_view(row@), 0) {
                Some(RowFault::NotNull(n)) => r matches Err(ExecError::NotNullViolation(m)) && m@ == n
                    && final(self).rows() == old(self).rows(),
                Some(RowFault::InteriorNul(n)) => r matches Err(ExecError::InvalidValue(m)) && m@ == nul_message(n)
                    && final(self).rows() == old(self).rows(),
                None => if holds_key(old(self).rows(), old(self).key_index(), row_view(row@)[old(self).key_index()]) {
                    r matches Err(ExecError::DuplicatePrimaryKey) && final(self).rows() == old(self).rows()
                } else {
                    r is Ok && inserted_in_key_order(old(self).rows(), final(self).rows(), old(self).key_index(), row_view(row@))
                        && final(self).rows() == old(self).rows().insert(
                        key_place(old(self).rows(), old(self).key_index(), row_view(row@)[old(self).key_index()]),
                        row_view(row@),
                    )
                },
            },
    {
        proof {
            use_type_invariant(&*self);
        }
        match check_row(schema, row) {
            Err(e) => {
                return Err(e);
            },
            Ok(()) => {},
        }
        let pk = self.pk;
        let ghost old_rows = rows_view(self.rows@);
        let ghost rv = row_view(row@);
        let ghost k = rv[pk as int];
        let mut i: usize = 0;
        assert(old_rows.skip(0) =~= old_rows);
        while i < self.rows.len() && compare_keys(&self.rows[i][pk], &row[pk]) == SqlOrder::Less
            invariant
                i <= self.rows@.len(),
                pk == self.pk,
                pk < self.width,
                row@.len() == self.width,
                old_rows == rows_view(self.rows@),
                rv == row_view(row@),
                k == rv[pk as int],
                forall|j: int| 0 <= j < self.rows@.len() ==> (#[trigger] self.rows@[j])@.len() == self.width,
                forall|j: int| 0 <= j < i ==> key_order(#[trigger] old_rows[j][pk as int], k) == SqlOrder::Less,
                key_place(old_rows, pk as int, k) == i + key_place(old_rows.skip(i as int), pk as int, k),
            decreases self.rows@.len() - i,
        {
            assert(old_rows[i as int][pk as int] == self.rows@[i as int]@[pk as int]@);
            assert(old_rows.skip(i as int)[0] == old_rows[i as int]);
            assert(old_rows.skip(i as int).drop_first() =~= old_rows.skip(i + 1));
            i = i + 1;
        }
        let n = self.rows.len();
        if i < n {
            assert(old_rows[i as int][pk as int] == self.rows@[i as int]@[pk as int]@);
            if compare_keys(&self.rows[i][pk], &row[pk]) == SqlOrder::Equal {
                return Err(ExecError::DuplicatePrimaryKey);
            }
        }
        proof {
            if i < n {
                lemma_key_flip(old_rows[i as int][pk as int], k);
                assert(key_order(k, old_rows[i as int][pk as int]) == SqlOrder::Less);
            }
            assert forall|j: int| i <= j < old_rows.len() implies key_order(k, #[trigger] old_rows[j][pk as int])
                == SqlOrder::Less by {
                if j > i {
                    assert(key_order(old_rows[i as int][pk as int], old_rows[j][pk as int]) == SqlOrder::Less);
                    lemma_key_trans(k, old_rows[i as int][pk as int], old_rows[j][pk as int]);
                }
            }
            assert forall|j: int| 0 <= j < old_rows.len() implies key_order(#[trigger] old_rows[j][pk as int], k)
                != SqlOrder::Equal by {
                if j >= i {
                    lemma_key_flip(old_rows[j][pk as int], k);
                }
            }
        }
        proof {
            if i < n {
                assert(old_rows.skip(i as int)[0] == old_rows[i as int]);
            }
            assert(key_place(old_rows, pk as int, k) == i);
        }
        let ghost before = self.rows@;
        let copy = copy_row(row);
        let mut rows: Vec<Vec<Value>> = Vec::new();
        std::mem::swap(&mut rows, &mut self.rows);
        rows.insert(i, copy);
        proof {
            let new_rows = rows_view(rows@);
            assert(new_rows =~= old_rows.insert(i as int, rv));
            assert forall|a: int, b: int|
                #![trigger new_rows[a], new_rows[b]]
                0 <= a < b < new_rows.len() implies key_order(new_rows[a][pk as int], new_rows[b][pk as int])
                == SqlOrder::Less by {
                if b < i {
                    assert(new_rows[a] == old_rows[a] && new_rows[b] == old_rows[b]);
                } else if b == i {
                    assert(new_rows[a] == old_rows[a]);
                } else if a == i {
                    assert(new_rows[b] == old_rows[b - 1]);
                } else if a < i {
                    assert(new_rows[a] == old_rows[a] && new_rows[b] == old_rows[b - 1]);
                    lemma_key_trans(old_rows[a][pk as int], k, old_rows[b - 1][pk as int]);
                } else {
                    assert(new_rows[a] == old_rows[a - 1] && new_rows[b] == old_rows[b - 1]);
                }
            }
            assert forall|j: int| 0 <= j < rows@.len() implies (#[trigger] rows@[j])@.len() == self.width by {
                if j < i {
                    assert(rows@[j] == before[j]);
                } else if j > i {
                    assert(rows@[j] == before[j - 1]);
                } else {
                    assert(row_view(rows@[j]@) == rv);
                }
            }
            assert(old_rows.insert(i as int, rv) == new_rows);
        }
        self.rows = rows;
        Ok(())
    }

    /// Removes the row whose key equals the key of `row`, if there is one, and says
    /// whether there was.
    pub fn delete_row(&mut self, row: &[Value]) -> (r: bool)
        requires
            row@.len() == old(self).width(),
        ensures
            final(self).width() == old(self).width(),
            final(self).key_index() == old(self).key_index(),
            r == holds_key(old(self).rows(), old(self).key_index(), row_view(row@)[old(self).key_index()]),
            r ==> removed_key(old(self).rows(), final(self).rows(), old(self).key_index(), row_view(row@)[old(self).key_index()]),
            !r ==> final(self).rows() == old(self).rows(),
    {
        proof {
            use_type_invariant(&*self);
        }
        let pk = self.pk;
        let ghost old_rows = rows_view(self.rows@);
        let ghost k = row@[pk as int]@;
        let mut i: usize = 0;
        while i < self.rows.len()
            invariant
                i <= self.rows@.len(),
                pk == self.pk,
                pk < self.width,
                row@.len() == self.width,
                old_rows == rows_view(self.rows@),
                k == row@[pk as int]@,
                self.rows@ == old(self).rows@,
                self.width == old(self).width,
                self.pk == old(self).pk,
                key_sorted(old_rows, pk as int),
                forall|j: int| 0 <= j < self.rows@.len() ==> (#[trigger] self.rows@[j])@.len() == self.width,
                forall|j: int| 0 <= j < i ==> key_order(#[trigger] old_rows[j][pk as int], k) != SqlOrder::Equal,
            decreases self.rows@.len() - i,
        {
            assert(old_rows[i as int][pk as int] == self.rows@[i as int]@[pk as int]@);
            if compare_keys(&self.rows[i][pk], &row[pk]) == SqlOrder::Equal {
                let ghost before = self.rows@;
                let mut rows: Vec<Vec<Value>> = Vec::new();
                std::mem::swap(&mut rows, &mut self.rows);
                let _gone = rows.remove(i);
                proof {
                    let new_rows = rows_view(rows@);
                    assert(new_rows =~= old_rows.remove(i as int));
                    assert forall|a: int, b: int|
                        #![trigger new_rows[a], new_rows[b]]
                        0 <= a < b < new_rows.len() implies key_order(new_rows[a][pk as int], new_rows[b][pk as int])
                        == SqlOrder::Less by {
                        if b < i {
                            assert(new_rows[a] == old_rows[a] && new_rows[b] == old_rows[b]);
                        } else if a < i {
                            assert(new_rows[a] == old_rows[a] && new_rows[b] == old_rows[b + 1]);
                        } else {
                            assert(new_rows[a] == old_rows[a + 1] && new_rows[b] == old_rows[b + 1]);
                        }
                    }
                    assert forall|j: int| 0 <= j < rows@.len() implies (#[trigger] rows@[j])@.len() == self.width by {
                        if j < i {
                            assert(rows@[j] == before[j]);
                        } else {
                            assert(rows@[j] == before[j + 1]);
                        }
                    }
                    assert(old_rows.remove(i as int) == new_rows);
                    assert(row_view(row@)[pk as int] == k);
                }
                self.rows = rows;
                return true;
            }
            i = i + 1;
        }
        assert(row_view(row@)[pk as int] == k);
        false
    }

    /// Runs a single-table query over the stored rows, read in key order (see
    /// `select_outcome`).
    pub fn select(
        &self,
        schema: &TableSchema,
        where_clause: &Option<Expr>,
        projection: &Vec<usize>,
        order_by: &Option<(String, bool)>,
        limit: Option<i64>,
        ctx: &ExecutionContext,
    ) -> (r: Result<Vec<Vec<Value>>, ExecError>)
        requires
            schema@.columns.len() == self.width(),
            forall|k: int| 0 <= k < projection@.len() ==> projection@[k] < self.width(),
        ensures
            select_outcome(self.rows(), schema@.columns, *where_clause, projection@, *order_by, limit, ctx.user_id, r),
    {
        proof {
            use_type_invariant(self);
        }
        let rows = self.scan();
        assert(rows@.len() == self.rows@.len()) by {
            assert(rows_view(rows@).len() == rows_view(self.rows@).len());
        }
        assert forall|i: int| 0 <= i < rows@.len() implies (#[trigger] rows@[i])@.len() == self.width by {
            assert(rows_view(rows@)[i] == row_view(rows@[i]@));
            assert(rows_view(self.rows@)[i] == row_view(self.rows@[i]@));
            assert(row_view(rows@[i]@).len() == rows@[i]@.len());
            assert(self.rows@[i]@.len() == self.width);
        }
        run_select(&rows, schema, where_clause, projection, order_by, limit, ctx)
    }

    /// Runs an INSERT of `tuples` (one VALUES tuple each, for the listed `columns` or for
    /// every column in order) as one statement: the rows are built and stored one after
    /// the other, and the first refusal refuses the whole statement, which then stores
    /// nothing. Gives the number of rows stored.
    pub fn insert_statement(
        &mut self,
        schema: &TableSchema,
        columns: &Option<Vec<String>>,
        tuples: &Vec<Vec<Value>>,
    ) -> (r: Result<usize, ExecError>)
        requires
            schema@.columns.len() == old(self).width(),
            key_column(schema@.columns) == old(self).key_index(),
        ensures
            final(self).width() == old(self).width(),
            final(self).key_index() == old(self).key_index(),
            match insert_all(
                old(self).rows(),
                schema@.columns,
                old(self).key_index(),
                columns_view(*columns),
                rows_view(tuples@),
            ) {
                Ok(new) => r matches Ok(n) && n == tuples@.len() && final(self).rows() == new,
                Err(f) => r matches Err(e) && reports(f, e) && final(self).rows() == old(self).rows(),
            },
    {
        proof {
            use_type_invariant(&*self);
        }
        let ghost cols = schema@.columns;
        let ghost pk = self.pk as int;
        let ghost cv = columns_view(*columns);
        let ghost tv = rows_view(tuples@);
        let ghost start = self.rows();
        let copied = self.scan();
        proof {
            assert(copied@.len() == self.rows@.len()) by {
                assert(rows_view(copied@).len() == rows_view(self.rows@).len());
            }
            assert forall|j: int| 0 <= j < copied@.len() implies (#[trigger] copied@[j])@.len() == self.width by {
                assert(rows_view(copied@)[j] == row_view(copied@[j]@));
                assert(rows_view(self.rows@)[j] == row_view(self.rows@[j]@));
                assert(row_view(copied@[j]@).len() == copied@[j]@.len());
                assert(self.rows@[j]@.len() == self.width);
            }
            assert(rows_view(copied@) == rows_view(self.rows@));
        }
        let mut work = TableRows { rows: copied, width: self.width, pk: self.pk };
        assert(tv.take(0) =~= Seq::<Seq<ValueView>>::empty());
        let mut i: usize = 0;
        while i < tuples.len()
            invariant
                i <= tuples@.len(),
                cols == schema@.columns,
                cols.len() == work.width(),
                key_column(cols) == work.key_index(),
                work.width() == self.width(),
                work.key_index() == self.key_index(),
                pk == self.key_index(),
                start == self.rows(),
                cv == columns_view(*columns),
                tv == rows_view(tuples@),
                insert_all(start, cols, pk, cv, tv.take(i as int)) == Ok::<Seq<Seq<ValueView>>, InsertRefusal>(work.rows()),
            decreases tuples@.len() - i,
        {
            assert(tv.take(i + 1).drop_last() =~= tv.take(i as int));
            assert(tv.take(i + 1).last() == tv[i as int]);
            assert(tv[i as int] == row_view(tuples@[i as int]@));
            proof {
                if let Some(ns) = columns {
                    lemma_assign_len(cols, names_view(ns@), tv[i as int]);
                }
            }
            let full = match full_row(schema, columns, &tuples[i]) {
                Ok(v) => v,
                Err(e) => {
                    proof {
                        lemma_insert_all_prefix_error(start, cols, pk, cv, tv, i + 1);
                        assert(tv.take(tv.len() as int) =~= tv);
                    }
                    return Err(ExecError::Plan(e));
                },
            };
            assert(row_view(full@).len() == full@.len());
            match check_not_null(schema, full.as_slice()) {
                Ok(()) => {},
                Err(e) => {
                    proof {
                        lemma_insert_all_prefix_error(start, cols, pk, cv, tv, i + 1);
                        assert(tv.take(tv.len() as int) =~= tv);
                    }
                    return Err(e);
                },
            }
            match work.insert_row(schema, full.as_slice()) {
                Ok(()) => {},
                Err(e) => {
                    proof {
                        lemma_insert_all_prefix_error(start, cols, pk, cv, tv, i + 1);
                        assert(tv.take(tv.len() as int) =~= tv);
                    }
                    return Err(e);
                },
            }
            i = i + 1;
        }
        assert(tv.take(tuples@.len() as int) =~= tv);
        *self = work;
        Ok(tuples.len())
    }

    /// Runs a DELETE: removes the rows on which `where_clause` holds (every row without
    /// one) and gives how many were removed. A condition that fails to evaluate on some
    /// row refuses the statement, which then removes nothing.
    #[verifier::loop_isolation(false)]
    pub fn delete_where(&mut self, schema: &TableSchema, where_clause: &Option<Expr>, ctx: &ExecutionContext) -> (r: Result<
        usize,
        ExecError,
    >)
        requires
            schema@.columns.len() == old(self).width(),
        ensures
            final(self).width() == old(self).width(),
            final(self).key_index() == old(self).key_index(),
            match kept_rows(old(self).rows(), *where_clause, schema@.columns, ctx.user_id) {
                Ok(ks) => r matches Ok(n) && final(self).rows() == ks && n + ks.len() == old(self).rows().len(),
                Err(e) => r matches Err(ExecError::InvalidValue(m)) && m@ == eval_error_text(e) && final(self).rows()
                    == old(self).rows(),
            },
    {
        proof {
            use_type_invariant(&*self);
        }
        let ghost all = rows_view(self.rows@);
        let ghost cols = schema@.columns;
        let ghost uid = ctx.user_id;
        let pk = self.pk;
        let mut out: Vec<Vec<Value>> = Vec::new();
        let mut i: usize = 0;
        assert(all.take(0) =~= Seq::<Seq<ValueView>>::empty());
        assert(rows_view(out@) =~= Seq::<Seq<ValueView>>::empty());
        while i < self.rows.len()
            invariant
                i <= self.rows@.len(),
                all == rows_view(self.rows@),
                pk == self.pk,
                pk < self.width,
                forall|j: int| 0 <= j < self.rows@.len() ==> (#[trigger] self.rows@[j])@.len() == self.width,
                forall|j: int| 0 <= j < out@.len() ==> (#[trigger] out@[j])@.len() == self.width,
                key_sorted(all, pk as int),
                key_sorted(rows_view(out@), pk as int),
                forall|a: int, m: int|
                    #![trigger rows_view(out@)[a], all[m]]
                    0 <= a < out@.len() && i <= m < all.len() ==> key_order(rows_view(out@)[a][pk as int], all[m][pk as int])
                        == SqlOrder::Less,
                kept_rows(all.take(i as int), *where_clause, cols, uid) == Ok::<Seq<Seq<ValueView>>, EvalError>(
                    rows_view(out@),
                ),
                out@.len() <= i,
            decreases self.rows@.len() - i,
        {
            assert(all.take(i + 1).drop_last() =~= all.take(i as int));
            assert(all.take(i + 1).last() == all[i as int]);
            assert(all[i as int] == row_view(self.rows@[i as int]@));
            match row_passes(self.rows[i].as_slice(), where_clause, schema, ctx) {
                Err(e) => {
                    proof {
                        lemma_kept_prefix_error(all, *where_clause, cols, uid, i + 1);
                        assert(all.take(all.len() as int) =~= all);
                    }
                    return Err(e);
                },
                Ok(b) => {
                    if !b {
                        let ghost before = rows_view(out@);
                        out.push(copy_row(self.rows[i].as_slice()));
                        proof {
                            let now = rows_view(out@);
                            assert(now =~= before.push(all[i as int]));
                            assert forall|a: int, c: int|
                                #![trigger now[a], now[c]]
                                0 <= a < c < now.len() implies key_order(now[a][pk as int], now[c][pk as int])
                                == SqlOrder::Less by {
                                if c < before.len() {
                                    assert(now[a] == before[a] && now[c] == before[c]);
                                } else {
                                    assert(now[a] == before[a]);
                                    assert(key_order(before[a][pk as int], all[i as int][pk as int]) == SqlOrder::Less);
                                }
                            }
                            assert forall|a: int, m: int|
                                #![trigger now[a], all[m]]
                                0 <= a < now.len() && i + 1 <= m < all.len() implies key_order(now[a][pk as int], all[m][pk as int])
                                == SqlOrder::Less by {
                                if a < before.len() {
                                    assert(now[a] == before[a]);
                                    assert(key_order(before[a][pk as int], all[m][pk as int]) == SqlOrder::Less);
                                } else {
                                    assert(now[a] == all[i as int]);
                                    assert(key_order(all[i as int][pk as int], all[m][pk as int]) == SqlOrder::Less);
                                }
                            }
                            assert(row_view(out@[out@.len() - 1]@) == all[i as int]);
                            assert forall|j: int| 0 <= j < out@.len() implies (#[trigger] out@[j])@.len() == self.width by {
                                if j == out@.len() - 1 {
                                    assert(row_view(out@[j]@).len() == out@[j]@.len());
                                    assert(row_view(self.rows@[i as int]@).len() == self.rows@[i as int]@.len());
                                }
                            }
                        }
                    }
                },
            }
            i = i + 1;
        }
        assert(all.take(self.rows@.len() as int) =~= all);
        let removed = self.rows.len() - out.len();
        self.rows = out;
        Ok(removed)
    }

    /// The stored row whose key equals `key`, if there is one.
    pub fn seek(&self, key: &Value) -> (r: Option<Vec<Value>>)
        ensures
            r is Some == holds_key(self.rows(), self.key_index(), key@),
            r matches Some(row) ==> self.rows().contains(row_view(row@)) && key_order(
                row_view(row@)[self.key_index()],
                key@,
            ) == SqlOrder::Equal,
    {
        proof {
            use_type_invariant(self);
        }
        let ghost all = rows_view(self.rows@);
        let pk = self.pk;
        let mut i: usize = 0;
        while i < self.rows.len()
            invariant
                i <= self.rows@.len(),
                all == rows_view(self.rows@),
                pk == self.pk,
                pk < self.width,
                forall|j: int| 0 <= j < self.rows@.len() ==> (#[trigger] self.rows@[j])@.len() == self.width,
                forall|j: int| 0 <= j < i ==> key_order(#[trigger] all[j][pk as int], key@) != SqlOrder::Equal,
            decreases self.rows@.len() - i,
        {
            assert(all[i as int] == row_view(self.rows@[i as int]@));
            assert(all[i as int][pk as int] == self.rows@[i as int]@[pk as int]@);
            if compare_keys(&self.rows[i][pk], key) == SqlOrder::Equal {
                let row = copy_row(self.rows[i].as_slice());
                assert(row_view(row@) == all[i as int]);
                return Some(row);
            }
            i = i + 1;
        }
        None
    }

    /// Runs a single-table query and gives its result: the names of the chosen columns and
    /// the rows (see `select_outcome`).
    pub fn execute_select(
        &self,
        schema: &TableSchema,
        where_clause: &Option<Expr>,
        projection: &Vec<usize>,
        order_by: &Option<(String, bool)>,
        limit: Option<i64>,
        ctx: &ExecutionContext,
    ) -> (r: Result<ExecResult, ExecError>)
        requires
            schema@.columns.len() == self.width(),
            forall|k: int| 0 <= k < projection@.len() ==> projection@[k] < self.width(),
        ensures
            match r {
                Ok(ExecResult::Rows { columns, rows }) => columns@.len() == projection@.len() && (forall|k: int|
                    0 <= k < projection@.len() ==> (#[trigger] columns@[k])@ == schema@.columns[projection@[k] as int].0)
                    && select_outcome(
                    self.rows(),
                    schema@.columns,
                    *where_clause,
                    projection@,
                    *order_by,
                    limit,
                    ctx.user_id,
                    Ok::<Vec<Vec<Value>>, ExecError>(rows),
                ),
                Ok(_) => false,
                Err(e) => select_outcome(
                    self.rows(),
                    schema@.columns,
                    *where_clause,
                    projection@,
                    *order_by,
                    limit,
                    ctx.user_id,
                    Err::<Vec<Vec<Value>>, ExecError>(e),
                ),
            },
    {
        let rows = match self.select(schema, where_clause, projection, order_by, limit, ctx) {
            Ok(rows) => rows,
            Err(e) => {
                return Err(e);
            },
        };
        let mut columns: Vec<String> = Vec::new();
        let mut k: usize = 0;
        while k < projection.len()
            invariant
                k <= projection@.len(),
                schema@.columns.len() == self.width(),
                forall|j: int| 0 <= j < projection@.len() ==> projection@[j] < self.width(),
                columns@.len() == k,
                forall|j: int| 0 <= j < k ==> (#[trigger] columns@[j])@ == schema@.columns[projection@[j] as int].0,
            decreases projection@.len() - k,
        {
            let c = projection[k];
            assert(schema@.columns[c as int] == schema.columns@[c as int]@);
            columns.push(schema.columns[c].name.clone());
            k = k + 1;
        }
        Ok(ExecResult::Rows { columns, rows })
    }

    /// Runs an UPDATE: checks the assigned columns (each must exist and none may be the
    /// primary key), finds the rows the condition selects, then gives each of them, in
    /// order, the assigned values computed on the row as it was. Any failure refuses the
    /// whole statement, which then changes nothing. Gives the number of rows updated.
    #[verifier::rlimit(60)]
    #[verifier::loop_isolation(false)]
    pub fn update_where(
        &mut self,
        schema: &TableSchema,
        assignments: &Vec<(String, Expr)>,
        where_clause: &Option<Expr>,
        ctx: &ExecutionContext,
    ) -> (r: Result<usize, DbError>)
        requires
            schema@.columns.len() == old(self).width(),
            spec_primary_key_index(schema@.columns) is Some,
            key_column(schema@.columns) == old(self).key_index(),
        ensures
            final(self).width() == old(self).width(),
            final(self).key_index() == old(self).key_index(),
            match target_fault(schema@.columns, assigned_names(assignments@), 0) {
                Some(TargetFault::NoSuchColumn(n)) => r matches Err(DbError::Plan(PlanError::NoSuchColumn(m))) && m@ == n
                    && final(self).rows() == old(self).rows(),
                Some(TargetFault::PrimaryKey) => r matches Err(DbError::Plan(PlanError::CannotUpdatePrimaryKey))
                    && final(self).rows() == old(self).rows(),
                None => match where_flags(old(self).rows(), *where_clause, schema@.columns, ctx.user_id) {
                    Err(e) => r matches Err(DbError::Exec(ExecError::InvalidValue(m))) && m@ == eval_error_text(e)
                        && final(self).rows() == old(self).rows(),
                    Ok(flags) => match apply_updates(old(self).rows(), flags, assignments@, schema@.columns, ctx.user_id) {
                        Err(e) => r matches Err(DbError::Plan(pe)) && outcome_matches(Err(pe), Err(e))
                            && final(self).rows() == old(self).rows(),
                        Ok(new) => r matches Ok(n) && n == count_set(flags) && final(self).rows() == new,
                    },
                },
            },
    {
        proof {
            use_type_invariant(&*self);
            crate::types::schema::lemma_pk_index_bound(schema@.columns);
        }
        let ghost cols = schema@.columns;
        let ghost names = assigned_names(assignments@);
        let ghost asg = assignments@;
        let ghost uid = ctx.user_id;
        let pk = self.pk;
        let mut targets: Vec<usize> = Vec::new();
        let mut k: usize = 0;
        while k < assignments.len()
            invariant
                k <= asg.len(),
                asg == assignments@,
                names == assigned_names(asg),
                cols == schema@.columns,
                pk == self.pk,
                pk < self.width,
                cols.len() == self.width,
                cols[pk as int].3,
                target_fault(cols, names, 0) == target_fault(cols, names, k as int),
                targets@.len() == k,
                forall|j: int|
                    0 <= j < k ==> spec_column_index(cols, asg[j].0@) == Some(#[trigger] targets@[j] as int) && valid_target(
                        spec_column_index(cols, asg[j].0@),
                        pk as int,
                        self.width as nat,
                    ),
            decreases asg.len() - k,
        {
            let name = &assignments[k].0;
            assert(names[k as int] == name@);
            proof {
                crate::types::schema::lemma_column_index_bound(cols, name@);
            }
            match schema.column_index(name.as_str()) {
                None => {
                    return Err(DbError::Plan(PlanError::NoSuchColumn(name.clone())));
                },
                Some(i) => {
                    assert(cols[i as int] == schema.columns@[i as int]@);
                    if schema.columns[i].is_primary_key {
                        return Err(DbError::Plan(PlanError::CannotUpdatePrimaryKey));
                    }
                    targets.push(i);
                },
            }
            k = k + 1;
        }
        assert(targets_ok(targets@, asg, cols, pk as int, self.width as nat));
        let ghost all = rows_view(self.rows@);
        let mut flags: Vec<bool> = Vec::new();
        let mut count: usize = 0;
        let mut i: usize = 0;
        assert(all.take(0) =~= Seq::<Seq<ValueView>>::empty());
        assert(flags@ =~= Seq::<bool>::empty());
        while i < self.rows.len()
            invariant
                i <= self.rows@.len(),
                all == rows_view(self.rows@),
                cols == schema@.columns,
                uid == ctx.user_id,
                cols.len() == self.width,
                forall|j: int| 0 <= j < self.rows@.len() ==> (#[trigger] self.rows@[j])@.len() == self.width,
                where_flags(all.take(i as int), *where_clause, cols, uid) == Ok::<Seq<bool>, EvalError>(flags@),
                flags@.len() == i,
                count == count_set(flags@),
                count <= i,
                target_fault(cols, names, 0) is None,
            decreases self.rows@.len() - i,
        {
            assert(all.take(i + 1).drop_last() =~= all.take(i as int));
            assert(all.take(i + 1).last() == all[i as int]);
            assert(all[i as int] == row_view(self.rows@[i as int]@));
            match row_passes(self.rows[i].as_slice(), where_clause, schema, ctx) {
                Err(e) => {
                    proof {
                        lemma_where_prefix_error(all, *where_clause, cols, uid, i + 1);
                        assert(all.take(all.len() as int) =~= all);
                    }
                    return Err(DbError::Exec(e));
                },
                Ok(b) => {
                    let ghost before = flags@;
                    flags.push(b);
                    assert(flags@.drop_last() =~= before);
                    if b {
                        count = count + 1;
                    }
                },
            }
            i = i + 1;
        }
        assert(all.take(all.len() as int) =~= all);
        let ghost fl = flags@;
        let mut out: Vec<Vec<Value>> = Vec::new();
        let mut i: usize = 0;
        assert(rows_view(out@) =~= Seq::<Seq<ValueView>>::empty());
        while i < self.rows.len()
            invariant
                i <= self.rows@.len(),
                all == rows_view(self.rows@),
                cols == schema@.columns,
                uid == ctx.user_id,
                asg == assignments@,
                cols.len() == self.width,
                pk == self.pk,
                pk < self.width,
                fl == flags@,
                fl.len() == all.len(),
                forall|j: int| 0 <= j < self.rows@.len() ==> (#[trigger] self.rows@[j])@.len() == self.width,
                targets@.len() == asg.len(),
                targets_ok(targets@, asg, cols, pk as int, self.width as nat),
                apply_updates(all.take(i as int), fl, asg, cols, uid) == Ok::<Seq<Seq<ValueView>>, EvalError>(rows_view(out@)),
                out@.len() == i,
                forall|j: int| 0 <= j < i ==> (#[trigger] out@[j])@.len() == self.width && out@[j]@[pk as int]@ == self.rows@[j]@[pk as int]@,
                where_flags(all, *where_clause, cols, uid) == Ok::<Seq<bool>, EvalError>(fl),
                target_fault(cols, names, 0) is None,
            decreases self.rows@.len() - i,
        {
            assert(all.take(i + 1).drop_last() =~= all.take(i as int));
            assert(all.take(i + 1).last() == all[i as int]);
            assert(all[i as int] == row_view(self.rows@[i as int]@));
            let old_row = &self.rows[i];
            let mut new_row = copy_row(old_row.as_slice());
            if flags[i] {
                let ghost orow = row_view(old_row@);
                let mut k: usize = 0;
                assert(asg.take(0) =~= Seq::<(String, Expr)>::empty());
                while k < assignments.len()
                    invariant
                        k <= asg.len(),
                        asg == assignments@,
                        orow == row_view(old_row@),
                        old_row@.len() == self.width,
                        cols.len() == self.width,
                        cols == schema@.columns,
                        uid == ctx.user_id,
                        targets@.len() == asg.len(),
                        targets_ok(targets@, asg, cols, pk as int, self.width as nat),
                        updated_row(orow, asg.take(k as int), cols, uid) == Ok::<Seq<ValueView>, EvalError>(row_view(new_row@)),
                        new_row@.len() == self.width,
                    decreases asg.len() - k,
                {
                    assert(asg.take(k + 1).drop_last() =~= asg.take(k as int));
                    assert(asg.take(k + 1).last() == asg[k as int]);
                    proof {
                        crate::plan::expr::lemma_eval_defined(assignments@[k as int].1, cols, orow, uid);
                    }
                    match eval_with_context(&assignments[k].1, schema, old_row.as_slice(), ctx) {
                        Err(pe) => {
                            proof {
                                lemma_updated_prefix_error(orow, asg, cols, uid, k + 1);
                                assert(asg.take(asg.len() as int) =~= asg);
                                assert(apply_updates(all.take(i + 1), fl, asg, cols, uid) is Err);
                                lemma_apply_prefix_error(all, fl, asg, cols, uid, i + 1);
                                assert(all.take(all.len() as int) =~= all);
                            }
                            return Err(DbError::Plan(pe));
                        },
                        Ok(v) => {
                            let t = targets[k];
                            let ghost before = row_view(new_row@);
                            new_row.set(t, v);
                            assert(row_view(new_row@) =~= before.update(t as int, v@));
                        },
                    }
                    k = k + 1;
                }
                assert(asg.take(asg.len() as int) =~= asg);
                proof {
                    assert(orow.len() == self.width);
                assert forall|j: int| 0 <= j < asg.len() implies valid_target(
                    #[trigger] spec_column_index(cols, asg[j].0@),
                    pk as int,
                    orow.len(),
                ) by {
                    assert(spec_column_index(cols, asg[j].0@) == Some(targets@[j] as int));
                }
                lemma_updated_keeps(orow, asg, cols, uid, pk as int);
                }
            }
            assert(row_view(new_row@).len() == new_row@.len());
            let ghost before = rows_view(out@);
            out.push(new_row);
            assert(rows_view(out@) =~= before.push(row_view(out@[i as int]@)));
            i = i + 1;
        }
        assert(all.take(all.len() as int) =~= all);
        proof {
            let new = rows_view(out@);
            assert forall|a: int, b: int|
                #![trigger new[a], new[b]]
                0 <= a < b < new.len() implies key_order(new[a][pk as int], new[b][pk as int]) == SqlOrder::Less by {
                assert(new[a][pk as int] == out@[a]@[pk as int]@);
                assert(new[b][pk as int] == out@[b]@[pk as int]@);
                assert(all[a] == row_view(self.rows@[a]@));
                assert(all[b] == row_view(self.rows@[b]@));
                assert(all[a][pk as int] == self.rows@[a]@[pk as int]@);
                assert(all[b][pk as int] == self.rows@[b]@[pk as int]@);
            }
        }
        self.rows = out;
        Ok(count)
    }

    /// A copy of the table.
    pub fn copy(&self) -> (r: TableRows)
        ensures
            r.rows() == self.rows(),
            r.width() == self.width(),
            r.key_index() == self.key_index(),
    {
        proof {
            use_type_invariant(self);
        }
        let copied = self.scan();
        proof {
            assert(copied@.len() == self.rows@.len()) by {
                assert(rows_view(copied@).len() == rows_view(self.rows@).len());
            }
            assert forall|j: int| 0 <= j < copied@.len() implies (#[trigger] copied@[j])@.len() == self.width by {
                assert(rows_view(copied@)[j] == row_view(copied@[j]@));
                assert(rows_view(self.rows@)[j] == row_view(self.rows@[j]@));
                assert(row_view(copied@[j]@).len() == copied@[j]@.len());
                assert(self.rows@[j]@.len() == self.width);
            }
        }
        TableRows { rows: copied, width: self.width, pk: self.pk }
    }
}

} // verus!
