use vstd::prelude::*;

verus! {

/// The declared type of a table column.
#[derive(Debug, Clone, Copy, PartialEq, Eq, Structural)]
pub enum ColumnType {
    Integer,
    Text,
    Boolean,
    Json,
}

/// One column of a table.
#[derive(Debug, Clone, PartialEq)]
pub struct Column {
    pub name: String,
    pub ty: ColumnType,
    pub not_null: bool,
    pub is_primary_key: bool,
}

/// A table's name, columns, B+Tree root page and row-level-security flag.
#[derive(Debug, Clone, PartialEq)]
pub struct TableSchema {
    pub name: String,
    pub columns: Vec<Column>,
    pub root_page: u32,
    pub rls_enabled: bool,
}

/// A secondary index on one column of a table.
#[derive(Debug, Clone, PartialEq)]
pub struct IndexSchema {
    pub name: String,
    pub table: String,
    pub column: String,
    pub root_page: u32,
}

/// The abstract content of a column: name, type, NOT NULL, PRIMARY KEY.
pub type ColumnView = (Seq<char>, ColumnType, bool, bool);

/// The abstract content of a table schema.
pub struct TableSchemaView {
    pub name: Seq<char>,
    pub columns: Seq<ColumnView>,
    pub root_page: u32,
    pub rls_enabled: bool,
}

/// The abstract content of an index schema.
pub struct IndexSchemaView {
    pub name: Seq<char>,
    pub table: Seq<char>,
    pub column: Seq<char>,
    pub root_page: u32,
}

impl View for Column {
    type V = ColumnView;

    open spec fn view(&self) -> ColumnView {
        (self.name@, self.ty, self.not_null, self.is_primary_key)
    }
}

impl View for TableSchema {
    type V = TableSchemaView;

    open spec fn view(&self) -> TableSchemaView {
        TableSchemaView {
            name: self.name@,
            columns: Seq::new(self.columns@.len(), |i: int| self.columns@[i]@),
            root_page: self.root_page,
            rls_enabled: self.rls_enabled,
        }
    }
}

impl View for IndexSchema {
    type V = IndexSchemaView;

    open spec fn view(&self) -> IndexSchemaView {
        IndexSchemaView {
            name: self.name@,
            table: self.table@,
            column: self.column@,
            root_page: self.root_page,
        }
    }
}

/// Position of the first column named `name`, if any.
pub open spec fn spec_column_index(cols: Seq<ColumnView>, name: Seq<char>) -> Option<int>
    decreases cols.len(),
{
    if cols.len() == 0 {
        None
    } else if cols[0].0 == name {
        Some(0)
    } else {
        match spec_column_index(cols.drop_first(), name) {
            Some(i) => Some(i + 1),
            None => None,
        }
    }
}

/// Position of the first primary-key column, if any.
pub open spec fn spec_primary_key_index(cols: Seq<ColumnView>) -> Option<int>
    decreases cols.len(),
{
    if cols.len() == 0 {
        None
    } else if cols[0].3 {
        Some(0)
    } else {
        match spec_primary_key_index(cols.drop_first()) {
            Some(i) => Some(i + 1),
            None => None,
        }
    }
}

pub proof fn lemma_column_index_bound(cols: Seq<ColumnView>, name: Seq<char>)
    ensures
        spec_column_index(cols, name) matches Some(i) ==> 0 <= i < cols.len() && cols[i].0 == name,
    decreases cols.len(),
{
    if cols.len() > 0 {
        lemma_column_index_bound(cols.drop_first(), name);
    }
}

pub proof fn lemma_pk_index_bound(cols: Seq<ColumnView>)
    ensures
        spec_primary_key_index(cols) matches Some(i) ==> 0 <= i < cols.len() && cols[i].3,
    decreases cols.len(),
{
    if cols.len() > 0 {
        lemma_pk_index_bound(cols.drop_first());
    }
}

impl TableSchema {
    /// Position of the column named `name`.
    pub fn column_index(&self, name: &str) -> (r: Option<usize>)
        ensures
            r matches Some(i) ==> Some(i as int) == spec_column_index(self@.columns, name@),
            r is None ==> spec_column_index(self@.columns, name@) is None,
    {
        let n = self.columns.len();
        let mut i: usize = 0;
        let ghost cols = self@.columns;
        assert(cols.skip(0) =~= cols);
        while i < n
            invariant
                n == self.columns@.len(),
                cols == self@.columns,
                i <= n,
                spec_column_index(cols, name@) == match spec_column_index(cols.skip(i as int), name@) {
                    Some(j) => Some(j + i),
                    None => None::<int>,
                },
            decreases n - i,
        {
            if crate::text::str_equal(self.columns[i].name.as_str(), name) {
                assert(cols.skip(i as int)[0] == cols[i as int]);
                return Some(i);
            }
            assert(cols.skip(i as int).drop_first() =~= cols.skip(i + 1));
            i = i + 1;
        }
        None
    }

    /// Position of the primary-key column (0 when none is marked).
    pub fn primary_key_index(&self) -> (r: usize)
        ensures
            spec_primary_key_index(self@.columns) matches Some(i) ==> r == i,
            spec_primary_key_index(self@.columns) is None ==> r == 0,
    {
        let n = self.columns.len();
        let mut i: usize = 0;
        let ghost cols = self@.columns;
        assert(cols.skip(0) =~= cols);
        while i < n
            invariant
                n == self.columns@.len(),
                cols == self@.columns,
                i <= n,
                spec_primary_key_index(cols) == match spec_primary_key_index(cols.skip(i as int)) {
                    Some(j) => Some(j + i),
                    None => None::<int>,
                },
            decreases n - i,
        {
            if self.columns[i].is_primary_key {
                assert(cols.skip(i as int)[0] == cols[i as int]);
                return i;
            }
            assert(cols.skip(i as int).drop_first() =~= cols.skip(i + 1));
            i = i + 1;
        }
        0
    }
}

impl IndexSchema {
    /// A copy of the index description.
    pub fn copy(&self) -> (r: Self)
        ensures
            r@ == self@,
    {
        IndexSchema {
            name: self.name.clone(),
            table: self.table.clone(),
            column: self.column.clone(),
            root_page: self.root_page,
        }
    }
}

} // verus!
