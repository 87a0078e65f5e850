use vstd::prelude::*;

use crate::catalog::copy_table;
use crate::catalog::ddl::{create_table_schema, defs_view, plan_create_table, ColumnDef};
use crate::error::{DbError, PlanError};
use crate::auth::session::ExecutionContext;
use crate::engine::ExecResult;
use crate::exec::eval_error_text;
use crate::exec::table::{
    apply_updates, assigned_names, columns_view, count_set, insert_all, key_column, reports, target_fault, where_flags,
    TableRows, TargetFault,
};
use crate::plan::expr::outcome_matches;
use crate::plan::select::select_outcome;
use crate::sql::ast::Expr;
use crate::error::ExecError;
use crate::exec::rows_view;
use crate::text::str_equal;
use crate::types::schema::{spec_primary_key_index, TableSchema, TableSchemaView};
use crate::types::value::{Value, ValueView};

verus! {

/// A table's description and rows.
pub type TableState = (TableSchemaView, Seq<Seq<ValueView>>);

/// The position of the table named `name`, if any.
pub open spec fn table_pos(ts: Seq<TableState>, name: Seq<char>) -> Option<int>
    decreases ts.len(),
{
    if ts.len() == 0 {
        None
    } else {
        match table_pos(ts.drop_last(), name) {
            Some(i) => Some(i),
            None => if ts.last().0.name == name {
                Some(ts.len() - 1)
            } else {
                None
            },
        }
    }
}

/// The names of the tables, in order.
pub open spec fn table_names(ts: Seq<TableState>) -> Seq<Seq<char>> {
    Seq::new(ts.len(), |i: int| ts[i].0.name)
}

/// Tables held in memory, in the order they were created, with the copy taken when a
/// transaction began.
pub struct MemDatabase {
    tables: Vec<(TableSchema, TableRows)>,
    saved: Option<Vec<(TableSchema, TableRows)>>,
}

/// The descriptions and rows of a list of tables.
pub open spec fn states_of(v: Seq<(TableSchema, TableRows)>) -> Seq<TableState> {
    Seq::new(v.len(), |i: int| (v[i].0@, v[i].1.rows()))
}

/// Whether each table's rows fit its description.
pub open spec fn entries_fit(v: Seq<(TableSchema, TableRows)>) -> bool {
    forall|i: int|
        0 <= i < v.len() ==> (#[trigger] v[i]).0@.columns.len() == v[i].1.width() && key_column(v[i].0@.columns)
            == v[i].1.key_index() && spec_primary_key_index(v[i].0@.columns) is Some
}

fn copy_entries(v: &Vec<(TableSchema, TableRows)>) -> (r: Vec<(TableSchema, TableRows)>)
    requires
        entries_fit(v@),
    ensures
        states_of(r@) == states_of(v@),
        entries_fit(r@),
{
    let mut out: Vec<(TableSchema, TableRows)> = Vec::new();
    let mut i: usize = 0;
    while i < v.len()
        invariant
            i <= v@.len(),
            entries_fit(v@),
            entries_fit(out@),
            out@.len() == i,
            forall|j: int| 0 <= j < i ==> (#[trigger] out@[j]).0@ == v@[j].0@ && out@[j].1.rows() == v@[j].1.rows(),
        decreases v@.len() - i,
    {
        let s = copy_table(&v[i].0);
        let t = v[i].1.copy();
        out.push((s, t));
        i = i + 1;
    }
    assert(states_of(out@) =~= states_of(v@));
    out
}

fn find(v: &Vec<(TableSchema, TableRows)>, name: &str) -> (r: Option<usize>)
    ensures
        match table_pos(states_of(v@), name@) {
            Some(i) => r matches Some(k) && k as int == i,
            None => r is None,
        },
{
    let ghost sv = states_of(v@);
    let mut i: usize = 0;
    assert(sv.take(0) =~= Seq::<TableState>::empty());
    while i < v.len()
        invariant
            i <= v@.len(),
            sv == states_of(v@),
            table_pos(sv.take(i as int), name@) is None,
        decreases v@.len() - i,
    {
        assert(sv.take(i + 1).drop_last() =~= sv.take(i as int));
        assert(sv.take(i + 1).last() == sv[i as int]);
        if str_equal(v[i].0.name.as_str(), name) {
            proof {
                lemma_pos_prefix(sv, name@, i + 1);
            }
            return Some(i);
        }
        i = i + 1;
    }
    assert(sv.take(sv.len() as int) =~= sv);
    None
}

proof fn lemma_pos_prefix(ts: Seq<TableState>, name: Seq<char>, n: int)
    requires
        0 <= n <= ts.len(),
        table_pos(ts.take(n), name) is Some,
    ensures
        table_pos(ts, name) == table_pos(ts.take(n), name),
    decreases ts.len() - n,
{
    if n < ts.len() {
        assert(ts.take(n + 1).drop_last() =~= ts.take(n));
        lemma_pos_prefix(ts, name, n + 1);
    } else {
        assert(ts.take(n) =~= ts);
    }
}

proof fn lemma_pos_bound(ts: Seq<TableState>, name: Seq<char>)
    ensures
        table_pos(ts, name) matches Some(i) ==> 0 <= i < ts.len() && ts[i].0.name == name,
    decreases ts.len(),
{
    if ts.len() > 0 {
        lemma_pos_bound(ts.drop_last(), name);
    }
}

impl MemDatabase {
    /// Whether the tables' rows fit their descriptions.
    pub closed spec fn wf(&self) -> bool {
        &&& entries_fit(self.tables@)
        &&& (self.saved matches Some(s) ==> entries_fit(s@))
    }

    /// The tables, in order.
    pub closed spec fn tables(&self) -> Seq<TableState> {
        states_of(self.tables@)
    }

    /// The tables as they were when the running transaction began, if one runs.
    pub closed spec fn saved(&self) -> Option<Seq<TableState>> {
        match self.saved {
            Some(s) => Some(states_of(s@)),
            None => None,
        }
    }

    /// No tables and no transaction.
    pub fn new() -> (r: Self)
        ensures
            r.wf(),
            r.tables() == Seq::<TableState>::empty(),
            r.saved() is None,
    {
        let r = MemDatabase { tables: Vec::new(), saved: None };
        assert(r.tables() =~= Seq::<TableState>::empty());
        r
    }

    /// BEGIN: remembers the tables; refused while a transaction runs.
    pub fn begin(&mut self) -> (r: Result<(), DbError>)
        requires
            old(self).wf(),
        ensures
            final(self).wf(),
            final(self).tables() == old(self).tables(),
            old(self).saved() is Some ==> (r matches Err(DbError::Plan(PlanError::NestedTransactionNotSupported))
                && final(self).saved() == old(self).saved()),
            old(self).saved() is None ==> (r is Ok && final(self).saved() == Some(old(self).tables())),
    {
        if self.saved.is_some() {
            return Err(DbError::Plan(PlanError::NestedTransactionNotSupported));
        }
        let copy = copy_entries(&self.tables);
        self.saved = Some(copy);
        Ok(())
    }

    /// COMMIT: keeps the changes; refused when no transaction runs.
    pub fn commit(&mut self) -> (r: Result<(), DbError>)
        requires
            old(self).wf(),
        ensures
            final(self).wf(),
            final(self).tables() == old(self).tables(),
            final(self).saved() is None,
            old(self).saved() is None <==> r matches Err(DbError::Plan(PlanError::NoTransactionInProgress)),
            r is Ok <==> old(self).saved() is Some,
    {
        if self.saved.is_none() {
            return Err(DbError::Plan(PlanError::NoTransactionInProgress));
        }
        self.saved = None;
        Ok(())
    }

    /// ROLLBACK: gives the tables back as they were when the transaction began, their
    /// descriptions and rows alike; refused when no transaction runs.
    pub fn rollback(&mut self) -> (r: Result<(), DbError>)
        requires
            old(self).wf(),
        ensures
            final(self).wf(),
            final(self).saved() is None,
            old(self).saved() is None ==> (r matches Err(DbError::Plan(PlanError::NoTransactionInProgress))
                && final(self).tables() == old(self).tables()),
            old(self).saved() is Some ==> (r is Ok && final(self).tables() == old(self).saved().unwrap()),
    {
        match self.saved.take() {
            None => Err(DbError::Plan(PlanError::NoTransactionInProgress)),
            Some(s) => {
                self.tables = s;
                Ok(())
            },
        }
    }

    /// CREATE TABLE: refused when it declares other than one primary key, or when a table
    /// of that name exists; otherwise the new empty table comes last.
    pub fn create_table(&mut self, name: &str, defs: &Vec<ColumnDef>) -> (r: Result<(), DbError>)
        requires
            old(self).wf(),
        ensures
            final(self).wf(),
            final(self).saved() == old(self).saved(),
            match create_table_schema(name@, defs_view(defs@), 0) {
                Err(m) => r matches Err(DbError::Plan(PlanError::InvalidSchema(x))) && x@ == m && final(self).tables()
                    == old(self).tables(),
                Ok(t) => if table_pos(old(self).tables(), name@) is Some {
                    r matches Err(DbError::Plan(PlanError::TableAlreadyExists(x))) && x@ == name@ && final(self).tables()
                        == old(self).tables()
                } else {
                    r is Ok && final(self).tables() == old(self).tables().push((t, Seq::<Seq<ValueView>>::empty()))
                },
            },
    {
        let schema = match plan_create_table(name, defs, 0) {
            Ok(s) => s,
            Err(e) => {
                return Err(DbError::Plan(e));
            },
        };
        if find(&self.tables, name).is_some() {
            return Err(DbError::Plan(PlanError::TableAlreadyExists(name.to_string())));
        }
        proof {
            lemma_one_pk(defs_view(defs@));
        }
        let rows = TableRows::new(&schema);
        let ghost before = self.tables@;
        self.tables.push((schema, rows));
        assert(self.tables() =~= states_of(before).push((self.tables@[before.len() as int].0@, Seq::<Seq<ValueView>>::empty())));
        Ok(())
    }

    /// DROP TABLE: removes the named table; refused when there is none.
    pub fn drop_table(&mut self, name: &str) -> (r: Result<(), DbError>)
        requires
            old(self).wf(),
        ensures
            final(self).wf(),
            final(self).saved() == old(self).saved(),
            match table_pos(old(self).tables(), name@) {
                None => r matches Err(DbError::Plan(PlanError::NoSuchTable(x))) && x@ == name@ && final(self).tables()
                    == old(self).tables(),
                Some(i) => r is Ok && final(self).tables() == old(self).tables().remove(i),
            },
    {
        match find(&self.tables, name) {
            None => Err(DbError::Plan(PlanError::NoSuchTable(String::from_str(name)))),
            Some(i) => {
                proof {
                    lemma_pos_bound(self.tables(), name@);
                }
                let ghost before = self.tables@;
                let _gone = self.tables.remove(i);
                assert(self.tables() =~= states_of(before).remove(i as int));
                assert forall|j: int| 0 <= j < self.tables@.len() implies (#[trigger] self.tables@[j]).0@.columns.len()
                    == self.tables@[j].1.width() && key_column(self.tables@[j].0@.columns) == self.tables@[j].1.key_index()
                    && spec_primary_key_index(self.tables@[j].0@.columns) is Some by {
                    if j < i {
                        assert(self.tables@[j] == before[j]);
                    } else {
                        assert(self.tables@[j] == before[j + 1]);
                    }
                }
                assert(self.tables() == states_of(before).remove(i as int));
                assert(states_of(before) == old(self).tables());
                assert(table_pos(old(self).tables(), name@) == Some(i as int));
                Ok(())
            },
        }
    }

    /// The names of the tables, in order.
    pub fn list_tables(&self) -> (r: Vec<String>)
        ensures
            Seq::new(r@.len(), |i: int| r@[i]@) == table_names(self.tables()),
    {
        let mut out: Vec<String> = Vec::new();
        let mut i: usize = 0;
        while i < self.tables.len()
            invariant
                i <= self.tables@.len(),
                out@.len() == i,
                forall|j: int| 0 <= j < i ==> (#[trigger] out@[j])@ == self.tables@[j].0@.name,
            decreases self.tables@.len() - i,
        {
            out.push(self.tables[i].0.name.clone());
            i = i + 1;
        }
        assert(Seq::new(out@.len(), |k: int| out@[k]@) =~= table_names(self.tables()));
        out
    }

    /// INSERT into the named table (see `TableRows::insert_statement`); refused when there
    /// is no such table.
    pub fn insert(&mut self, name: &str, columns: &Option<Vec<String>>, tuples: &Vec<Vec<Value>>) -> (r: Result<usize, DbError>)
        requires
            old(self).wf(),
        ensures
            final(self).wf(),
            final(self).saved() == old(self).saved(),
            match table_pos(old(self).tables(), name@) {
                None => r matches Err(DbError::Plan(PlanError::NoSuchTable(x))) && x@ == name@ && final(self).tables()
                    == old(self).tables(),
                Some(i) => match insert_all(
                    old(self).tables()[i].1,
                    old(self).tables()[i].0.columns,
                    key_column(old(self).tables()[i].0.columns),
                    columns_view(*columns),
                    rows_view(tuples@),
                ) {
                    Ok(new) => r matches Ok(n) && n == tuples@.len() && final(self).tables() == old(self).tables().update(
                        i,
                        (old(self).tables()[i].0, new),
                    ),
                    Err(f) => r matches Err(DbError::Exec(e)) && reports(f, e) && final(self).tables() == old(self).tables(),
                },
            },
    {
        let i = match find(&self.tables, name) {
            None => {
                return Err(DbError::Plan(PlanError::NoSuchTable(String::from_str(name))));
            },
            Some(i) => i,
        };
        proof {
            lemma_pos_bound(self.tables(), name@);
        }
        let ghost before = self.tables@;
        assert(before[i as int].0@.columns.len() == before[i as int].1.width());
        let (schema, mut rows) = self.tables.remove(i);
        assert(schema@ == before[i as int].0@);
        assert(rows.rows() == before[i as int].1.rows());
        let res = rows.insert_statement(&schema, columns, tuples);
        self.tables.insert(i, (schema, rows));
        assert(self.tables@.len() == before.len());
        assert forall|j: int| 0 <= j < before.len() && j != i implies #[trigger] self.tables@[j] == before[j] by {
            if j < i {
                assert(self.tables@[j] == before[j]);
            } else {
                assert(self.tables@[j] == before[j]);
            }
        }
        assert forall|j: int| 0 <= j < self.tables@.len() implies (#[trigger] self.tables@[j]).0@.columns.len()
            == self.tables@[j].1.width() && key_column(self.tables@[j].0@.columns) == self.tables@[j].1.key_index()
            && spec_primary_key_index(self.tables@[j].0@.columns) is Some by {
            if j != i {
                assert(self.tables@[j] == before[j]);
            }
        }
        match res {
            Ok(n) => {
                assert(self.tables() =~= states_of(before).update(i as int, (states_of(before)[i as int].0, self.tables@[i as int].1.rows())));
                Ok(n)
            },
            Err(e) => {
                assert(self.tables() =~= states_of(before));
                Err(DbError::Exec(e))
            },
        }
    }

    /// A single-table query on the named table (see `TableRows::execute_select`); refused
    /// when there is no such table.
    pub fn select(
        &self,
        name: &str,
        where_clause: &Option<Expr>,
        projection: &Vec<usize>,
        order_by: &Option<(String, bool)>,
        limit: Option<i64>,
        ctx: &ExecutionContext,
    ) -> (r: Result<ExecResult, DbError>)
        requires
            self.wf(),
            table_pos(self.tables(), name@) matches Some(i) ==> forall|k: int|
                0 <= k < projection@.len() ==> projection@[k] < self.tables()[i].0.columns.len(),
        ensures
            match table_pos(self.tables(), name@) {
                None => r matches Err(DbError::Plan(PlanError::NoSuchTable(x))) && x@ == name@,
                Some(i) => match r {
                    Ok(ExecResult::Rows { columns, rows }) => columns@.len() == projection@.len() && (forall|k: int|
                        0 <= k < projection@.len() ==> (#[trigger] columns@[k])@ == self.tables()[i].0.columns[projection@[k] as int].0)
                        && select_outcome(
                        self.tables()[i].1,
                        self.tables()[i].0.columns,
                        *where_clause,
                        projection@,
                        *order_by,
                        limit,
                        ctx.user_id,
                        Ok::<Vec<Vec<Value>>, ExecError>(rows),
                    ),
                    Err(DbError::Exec(e)) => select_outcome(
                        self.tables()[i].1,
                        self.tables()[i].0.columns,
                        *where_clause,
                        projection@,
                        *order_by,
                        limit,
                        ctx.user_id,
                        Err::<Vec<Vec<Value>>, ExecError>(e),
                    ),
                    _ => false,
                },
            },
    {
        let i = match find(&self.tables, name) {
            None => {
                return Err(DbError::Plan(PlanError::NoSuchTable(String::from_str(name))));
            },
            Some(i) => i,
        };
        proof {
            lemma_pos_bound(self.tables(), name@);
            assert(self.tables@[i as int].0@.columns.len() == self.tables@[i as int].1.width());
        }
        match self.tables[i].1.execute_select(&self.tables[i].0, where_clause, projection, order_by, limit, ctx) {
            Ok(res) => Ok(res),
            Err(e) => Err(DbError::Exec(e)),
        }
    }

    /// UPDATE of the named table (see `TableRows::update_where`); refused when there is no
    /// such table.
    pub fn update(
        &mut self,
        name: &str,
        assignments: &Vec<(String, Expr)>,
        where_clause: &Option<Expr>,
        ctx: &ExecutionContext,
    ) -> (r: Result<usize, DbError>)
        requires
            old(self).wf(),
        ensures
            final(self).wf(),
            final(self).saved() == old(self).saved(),
            match table_pos(old(self).tables(), name@) {
                None => r matches Err(DbError::Plan(PlanError::NoSuchTable(x))) && x@ == name@ && final(self).tables()
                    == old(self).tables(),
                Some(i) => {
                    let cols = old(self).tables()[i].0.columns;
                    let rows = old(self).tables()[i].1;
                    match target_fault(cols, assigned_names(assignments@), 0) {
                        Some(TargetFault::NoSuchColumn(n)) => r matches Err(DbError::Plan(PlanError::NoSuchColumn(m))) && m@ == n
                            && final(self).tables() == old(self).tables(),
                        Some(TargetFault::PrimaryKey) => r matches Err(DbError::Plan(PlanError::CannotUpdatePrimaryKey))
                            && final(self).tables() == old(self).tables(),
                        None => match where_flags(rows, *where_clause, cols, ctx.user_id) {
                            Err(e) => r matches Err(DbError::Exec(ExecError::InvalidValue(m))) && m@ == eval_error_text(e)
                                && final(self).tables() == old(self).tables(),
                            Ok(flags) => match apply_updates(rows, flags, assignments@, cols, ctx.user_id) {
                                Err(e) => r matches Err(DbError::Plan(pe)) && outcome_matches(Err(pe), Err(e))
                                    && final(self).tables() == old(self).tables(),
                                Ok(new) => r matches Ok(n) && n == count_set(flags) && final(self).tables()
                                    == old(self).tables().update(i, (old(self).tables()[i].0, new)),
                            },
                        },
                    }
                },
            },
    {
        let i = match find(&self.tables, name) {
            None => {
                return Err(DbError::Plan(PlanError::NoSuchTable(String::from_str(name))));
            },
            Some(i) => i,
        };
        proof {
            lemma_pos_bound(self.tables(), name@);
        }
        let ghost before = self.tables@;
        assert(before[i as int].0@.columns.len() == before[i as int].1.width());
        let (schema, mut rows) = self.tables.remove(i);
        assert(schema@ == before[i as int].0@);
        assert(rows.rows() == before[i as int].1.rows());
        let res = rows.update_where(&schema, assignments, where_clause, ctx);
        self.tables.insert(i, (schema, rows));
        assert forall|j: int| 0 <= j < before.len() && j != i implies #[trigger] self.tables@[j] == before[j] by {}
        assert forall|j: int| 0 <= j < self.tables@.len() implies (#[trigger] self.tables@[j]).0@.columns.len()
            == self.tables@[j].1.width() && key_column(self.tables@[j].0@.columns) == self.tables@[j].1.key_index()
            && spec_primary_key_index(self.tables@[j].0@.columns) is Some by {
            if j != i {
                assert(self.tables@[j] == before[j]);
            }
        }
        match res {
            Ok(n) => {
                assert(self.tables() =~= states_of(before).update(i as int, (states_of(before)[i as int].0, self.tables@[i as int].1.rows())));
                Ok(n)
            },
            Err(e) => {
                assert(self.tables() =~= states_of(before));
                Err(e)
            },
        }
    }
}

proof fn lemma_one_pk(defs: Seq<crate::types::schema::ColumnView>)
    requires
        crate::catalog::ddl::pk_count(defs) == 1,
    ensures
        spec_primary_key_index(
            Seq::new(defs.len(), |i: int| (defs[i].0, defs[i].1, defs[i].2 || defs[i].3, defs[i].3)),
        ) is Some,
    decreases defs.len(),
{
    let cols = Seq::new(defs.len(), |i: int| (defs[i].0, defs[i].1, defs[i].2 || defs[i].3, defs[i].3));
    if defs.len() > 0 {
        if defs[0].3 {
        } else {
            lemma_pk_count_rest(defs);
            lemma_one_pk(defs.drop_first());
            assert(cols.drop_first() =~= Seq::new(
                defs.drop_first().len(),
                |i: int| (defs.drop_first()[i].0, defs.drop_first()[i].1, defs.drop_first()[i].2 || defs.drop_first()[i].3, defs.drop_first()[i].3),
            ));
        }
    }
}

proof fn lemma_pk_count_rest(defs: Seq<crate::types::schema::ColumnView>)
    requires
        defs.len() > 0,
        !defs[0].3,
    ensures
        crate::catalog::ddl::pk_count(defs.drop_first()) == crate::catalog::ddl::pk_count(defs),
    decreases defs.len(),
{
    if defs.len() > 1 {
        lemma_pk_count_rest(defs.drop_last());
        assert(defs.drop_last().drop_first() =~= defs.drop_first().drop_last());
    } else {
        assert(defs.drop_first() =~= Seq::<crate::types::schema::ColumnView>::empty());
        assert(defs.drop_last() =~= Seq::<crate::types::schema::ColumnView>::empty());
    }
}

} // verus!
