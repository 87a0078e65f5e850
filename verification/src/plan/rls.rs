use vstd::prelude::*;

use crate::auth::session::ExecutionContext;
use crate::error::{DbError, ExecError, PlanError};
use crate::plan::expr::{eval_with_context, is_truthy, outcome_matches, spec_eval, spec_is_truthy, EvalError};
use crate::sql::ast::{BinOp, Expr};
use crate::types::schema::{ColumnView, TableSchema};
use crate::types::value::{row_view, Value, ValueView};

verus! {

/// The statements a row-level-security policy covers.
#[derive(Debug, Clone, Copy, PartialEq, Eq, Structural)]
pub enum PolicyCmd {
    All,
    Select,
    Insert,
    Update,
    Delete,
}

/// A row-level-security policy of a table: the statements it covers, the condition rows
/// must meet to be seen (`USING`) and the one new rows must meet (`WITH CHECK`).
#[derive(Debug)]
pub struct PolicySchema {
    pub name: String,
    pub table: String,
    pub cmd: PolicyCmd,
    pub using_expr: Option<Expr>,
    pub with_check: Option<Expr>,
}

/// Whether a policy for `p` covers a statement of kind `cmd`.
pub open spec fn covers(p: PolicyCmd, cmd: PolicyCmd) -> bool {
    p == cmd || p == PolicyCmd::All
}

/// Whether some policy covers `cmd`.
pub open spec fn any_covers(ps: Seq<PolicySchema>, cmd: PolicyCmd) -> bool {
    exists|i: int| 0 <= i < ps.len() && covers(#[trigger] ps[i].cmd, cmd)
}

/// The `USING` conditions of the policies covering `cmd`, joined with OR in order.
pub open spec fn combined_using(ps: Seq<PolicySchema>, cmd: PolicyCmd) -> Option<Expr>
    decreases ps.len(),
{
    if ps.len() == 0 {
        None
    } else {
        let before = combined_using(ps.drop_last(), cmd);
        let p = ps.last();
        if covers(p.cmd, cmd) && p.using_expr is Some {
            match before {
                Some(prev) => Some(
                    Expr::BinaryOp { op: BinOp::Or, left: Box::new(prev), right: Box::new(p.using_expr.unwrap()) },
                ),
                None => p.using_expr,
            }
        } else {
            before
        }
    }
}

/// The condition that is never true.
pub open spec fn never() -> Expr {
    Expr::BinaryOp { op: BinOp::Eq, left: Box::new(Expr::IntLiteral(1)), right: Box::new(Expr::IntLiteral(0)) }
}

/// The condition a statement of kind `cmd` runs with on a table, from the statement's own
/// condition: unchanged when the table has no row-level security or the caller is the
/// administrator; never true when no policy covers the statement (deny by default);
/// otherwise the statement's condition AND the covering policies' conditions OR-ed.
pub open spec fn spec_rls_where(enabled: bool, is_admin: bool, ps: Seq<PolicySchema>, cmd: PolicyCmd, w: Option<Expr>) -> Option<Expr> {
    if !enabled || is_admin {
        w
    } else if !any_covers(ps, cmd) {
        Some(never())
    } else {
        match (w, combined_using(ps, cmd)) {
            (Some(a), Some(b)) => Some(Expr::BinaryOp { op: BinOp::And, left: Box::new(a), right: Box::new(b) }),
            (None, Some(b)) => Some(b),
            (Some(a), None) => Some(a),
            (None, None) => None,
        }
    }
}

/// The condition a statement runs with under row-level security (see `spec_rls_where`).
pub fn rls_filter(enabled: bool, is_admin: bool, policies: Vec<PolicySchema>, cmd: PolicyCmd, user_where: Option<Expr>) -> (r: Option<
    Expr,
>)
    ensures
        r == spec_rls_where(enabled, is_admin, policies@, cmd, user_where),
{
    if !enabled || is_admin {
        return user_where;
    }
    let ghost all = policies@;
    let mut rest = policies;
    let mut combined: Option<Expr> = None;
    let mut any = false;
    let mut i: usize = 0;
    let n = rest.len();
    assert(all.take(0) =~= Seq::<PolicySchema>::empty());
    assert(all.skip(0) =~= all);
    while i < n
        invariant
            n == all.len(),
            i <= n,
            rest@ == all.skip(i as int),
            combined == combined_using(all.take(i as int), cmd),
            any == (exists|j: int| 0 <= j < i && covers(#[trigger] all[j].cmd, cmd)),
        decreases n - i,
    {
        assert(all.take(i + 1).drop_last() =~= all.take(i as int));
        assert(all.take(i + 1).last() == all[i as int]);
        assert(rest@[0] == all[i as int]);
        let p = rest.remove(0);
        assert(rest@ =~= all.skip(i + 1));
        let applies = p.cmd == cmd || p.cmd == PolicyCmd::All;
        if applies {
            any = true;
            if let Some(u) = p.using_expr {
                combined = match combined {
                    Some(prev) => Some(Expr::BinaryOp { op: BinOp::Or, left: Box::new(prev), right: Box::new(u) }),
                    None => Some(u),
                };
            }
        }
        i = i + 1;
    }
    assert(all.take(n as int) =~= all);
    if !any {
        return Some(Expr::BinaryOp { op: BinOp::Eq, left: Box::new(Expr::IntLiteral(1)), right: Box::new(Expr::IntLiteral(0)) });
    }
    match (user_where, combined) {
        (Some(w), Some(p)) => Some(Expr::BinaryOp { op: BinOp::And, left: Box::new(w), right: Box::new(p) }),
        (None, Some(p)) => Some(p),
        (Some(w), None) => Some(w),
        (None, None) => None,
    }
}

/// The condition a new row must meet under a policy: its `WITH CHECK`, else its `USING`.
pub open spec fn check_of(p: PolicySchema) -> Option<Expr> {
    if p.with_check is Some {
        p.with_check
    } else {
        p.using_expr
    }
}

/// Whether a new row passes the insert policies, tried in order: a covering policy
/// without a condition, or whose condition is true on the row, lets it pass; the first
/// condition that fails to evaluate is the outcome.
pub open spec fn insert_passes(ps: Seq<PolicySchema>, cols: Seq<ColumnView>, row: Seq<ValueView>, uid: Option<i64>) -> Result<
    bool,
    EvalError,
>
    decreases ps.len(),
{
    if ps.len() == 0 {
        Ok(false)
    } else if !covers(ps[0].cmd, PolicyCmd::Insert) {
        insert_passes(ps.drop_first(), cols, row, uid)
    } else {
        match check_of(ps[0]) {
            None => Ok(true),
            Some(e) => match spec_eval(e, cols, row, uid) {
                Some(Ok(v)) => if spec_is_truthy(v) {
                    Ok(true)
                } else {
                    insert_passes(ps.drop_first(), cols, row, uid)
                },
                Some(Err(err)) => Err(err),
                None => insert_passes(ps.drop_first(), cols, row, uid),
            },
        }
    }
}

/// The message when no policy covers inserts.
pub open spec fn no_insert_policy() -> Seq<char> {
    "RLS check failed: no insert policy on table"@
}

/// The message when a new row passes no policy.
pub open spec fn row_violates() -> Seq<char> {
    "row violates row-level security policy"@
}

/// Checks a new row against the table's insert policies (when the table has row-level
/// security and the caller is not the administrator): refused when no policy covers
/// inserts, or when the row passes none; a condition that fails to evaluate is reported.
pub fn rls_insert_check(
    enabled: bool,
    is_admin: bool,
    policies: &Vec<PolicySchema>,
    schema: &TableSchema,
    row: &[Value],
    ctx: &ExecutionContext,
) -> (r: Result<(), DbError>)
    requires
        row@.len() >= schema@.columns.len(),
    ensures
        !enabled || is_admin ==> r is Ok,
        enabled && !is_admin && !any_covers(policies@, PolicyCmd::Insert) ==> (r matches Err(
            DbError::Exec(ExecError::InvalidValue(m)),
        ) && m@ == no_insert_policy()),
        enabled && !is_admin && any_covers(policies@, PolicyCmd::Insert) ==> match insert_passes(
            policies@,
            schema@.columns,
            row_view(row@),
            ctx.user_id,
        ) {
            Ok(true) => r is Ok,
            Ok(false) => r matches Err(DbError::Exec(ExecError::InvalidValue(m))) && m@ == row_violates(),
            Err(e) => r matches Err(DbError::Plan(pe)) && outcome_matches(Err(pe), Err(e)),
        },
{
    if !enabled || is_admin {
        return Ok(());
    }
    let ghost ps = policies@;
    let ghost cols = schema@.columns;
    let ghost rv = row_view(row@);
    let mut any = false;
    let mut i: usize = 0;
    assert(ps.skip(0) =~= ps);
    while i < policies.len()
        invariant
            i <= ps.len(),
            ps == policies@,
            cols == schema@.columns,
            rv == row_view(row@),
            row@.len() >= cols.len(),
            any == (exists|j: int| 0 <= j < i && covers(#[trigger] ps[j].cmd, PolicyCmd::Insert)),
        decreases ps.len() - i,
    {
        if policies[i].cmd == PolicyCmd::Insert || policies[i].cmd == PolicyCmd::All {
            any = true;
        }
        i = i + 1;
    }
    if !any {
        proof {
            reveal_strlit("RLS check failed: no insert policy on table");
        }
        return Err(DbError::Exec(ExecError::InvalidValue(String::from_str("RLS check failed: no insert policy on table"))));
    }
    let mut k: usize = 0;
    assert(ps.skip(0) =~= ps);
    while k < policies.len()
        invariant
            k <= ps.len(),
            ps == policies@,
            cols == schema@.columns,
            rv == row_view(row@),
            row@.len() >= cols.len(),
            insert_passes(ps, cols, rv, ctx.user_id) == insert_passes(ps.skip(k as int), cols, rv, ctx.user_id),
            enabled,
            !is_admin,
            any_covers(ps, PolicyCmd::Insert),
        decreases ps.len() - k,
    {
        let p = &policies[k];
        assert(ps.skip(k as int)[0] == ps[k as int]);
        assert(ps.skip(k as int).drop_first() =~= ps.skip(k + 1));
        if p.cmd == PolicyCmd::Insert || p.cmd == PolicyCmd::All {
            let check: Option<&Expr> = match &p.with_check {
                Some(e) => Some(e),
                None => match &p.using_expr {
                    Some(e) => Some(e),
                    None => None,
                },
            };
            match check {
                None => {
                    return Ok(());
                },
                Some(e) => {
                    proof {
                        crate::plan::expr::lemma_eval_defined(*e, cols, rv, ctx.user_id);
                    }
                    match eval_with_context(e, schema, row, ctx) {
                        Ok(v) => {
                            if is_truthy(&v) {
                                return Ok(());
                            }
                        },
                        Err(pe) => {
                            return Err(DbError::Plan(pe));
                        },
                    }
                },
            }
        }
        k = k + 1;
    }
    assert(ps.skip(ps.len() as int) =~= Seq::<PolicySchema>::empty());
    proof {
        reveal_strlit("row violates row-level security policy");
    }
    Err(DbError::Exec(ExecError::InvalidValue(String::from_str("row violates row-level security policy"))))
}

} // verus!
