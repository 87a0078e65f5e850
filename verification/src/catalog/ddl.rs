use vstd::prelude::*;

use crate::error::PlanError;
use crate::text::{push_str, string_of};
use crate::types::schema::{spec_column_index, Column, ColumnType, ColumnView, TableSchema, TableSchemaView};

verus! {

/// A column as CREATE TABLE declares it.
#[derive(Debug, Clone)]
pub struct ColumnDef {
    pub name: String,
    pub ty: ColumnType,
    pub not_null: bool,
    pub primary_key: bool,
}

impl View for ColumnDef {
    type V = ColumnView;

    open spec fn view(&self) -> ColumnView {
        (self.name@, self.ty, self.not_null, self.primary_key)
    }
}

/// The views of declared columns.
pub open spec fn defs_view(defs: Seq<ColumnDef>) -> Seq<ColumnView> {
    Seq::new(defs.len(), |i: int| defs[i]@)
}

/// How many declared columns are primary keys.
pub open spec fn pk_count(defs: Seq<ColumnView>) -> nat
    decreases defs.len(),
{
    if defs.len() == 0 {
        0
    } else {
        pk_count(defs.drop_last()) + if defs.last().3 {
            1nat
        } else {
            0nat
        }
    }
}

/// The table a CREATE TABLE describes, stored from page `root`: it must declare exactly
/// one primary-key column, which is NOT NULL whether declared so or not.
pub open spec fn create_table_schema(name: Seq<char>, defs: Seq<ColumnView>, root: u32) -> Result<TableSchemaView, Seq<char>> {
    if pk_count(defs) != 1 {
        Err("table "@ + name + " must declare exactly one PRIMARY KEY column"@)
    } else {
        Ok(
            TableSchemaView {
                name,
                columns: Seq::new(defs.len(), |i: int| (defs[i].0, defs[i].1, defs[i].2 || defs[i].3, defs[i].3)),
                root_page: root,
                rls_enabled: false,
            },
        )
    }
}

/// The schema of a CREATE TABLE (see `create_table_schema`).
pub fn plan_create_table(name: &str, defs: &Vec<ColumnDef>, root: u32) -> (r: Result<TableSchema, PlanError>)
    ensures
        match create_table_schema(name@, defs_view(defs@), root) {
            Ok(t) => r matches Ok(s) && s@ == t,
            Err(m) => r matches Err(PlanError::InvalidSchema(x)) && x@ == m,
        },
{
    let ghost dv = defs_view(defs@);
    let mut count: usize = 0;
    let mut cols: Vec<Column> = Vec::new();
    let mut i: usize = 0;
    assert(dv.take(0) =~= Seq::<ColumnView>::empty());
    while i < defs.len()
        invariant
            i <= defs@.len(),
            dv == defs_view(defs@),
            count == pk_count(dv.take(i as int)),
            count <= i,
            cols@.len() == i,
            forall|j: int|
                0 <= j < i ==> (#[trigger] cols@[j])@ == (dv[j].0, dv[j].1, dv[j].2 || dv[j].3, dv[j].3),
        decreases defs@.len() - i,
    {
        assert(dv.take(i + 1).drop_last() =~= dv.take(i as int));
        assert(dv.take(i + 1).last() == defs@[i as int]@);
        let d = &defs[i];
        if d.primary_key {
            count = count + 1;
        }
        cols.push(Column { name: d.name.clone(), ty: d.ty, not_null: d.not_null || d.primary_key, is_primary_key: d.primary_key });
        i = i + 1;
    }
    assert(dv.take(defs@.len() as int) =~= dv);
    if count != 1 {
        let mut m: Vec<char> = Vec::new();
        push_str(&mut m, "table ");
        push_str(&mut m, name);
        push_str(&mut m, " must declare exactly one PRIMARY KEY column");
        return Err(PlanError::InvalidSchema(string_of(m.as_slice())));
    }
    let t = TableSchema { name: name.to_string(), columns: cols, root_page: root, rls_enabled: false };
    assert(t@.columns =~= Seq::new(dv.len(), |k: int| (dv[k].0, dv[k].1, dv[k].2 || dv[k].3, dv[k].3)));
    Ok(t)
}

/// The column a CREATE INDEX indexes: it must exist and be NOT NULL.
pub fn index_column(schema: &TableSchema, column: &str) -> (r: Result<usize, PlanError>)
    ensures
        match spec_column_index(schema@.columns, column@) {
            None => r matches Err(PlanError::NoSuchColumn(n)) && n@ == column@,
            Some(i) => if !schema@.columns[i].2 {
                r matches Err(PlanError::InvalidSchema(m)) && m@ == "indexed column "@ + column@ + " must be NOT NULL"@
            } else {
                r == Ok::<usize, PlanError>(i as usize)
            },
        },
{
    proof {
        crate::types::schema::lemma_column_index_bound(schema@.columns, column@);
    }
    match schema.column_index(column) {
        None => Err(PlanError::NoSuchColumn(column.to_string())),
        Some(i) => {
            assert(schema@.columns[i as int] == schema.columns@[i as int]@);
            if !schema.columns[i].not_null {
                let mut m: Vec<char> = Vec::new();
                push_str(&mut m, "indexed column ");
                push_str(&mut m, column);
                push_str(&mut m, " must be NOT NULL");
                Err(PlanError::InvalidSchema(string_of(m.as_slice())))
            } else {
                Ok(i)
            }
        },
    }
}

} // verus!
