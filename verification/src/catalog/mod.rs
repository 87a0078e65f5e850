pub mod ddl;
pub mod record;

use vstd::prelude::*;

use crate::assoc::{assoc_map, has_key, keys_distinct, lemma_assoc_at, lemma_assoc_push, lemma_assoc_remove, lemma_assoc_update};
use crate::error::{DbError, PlanError};
use crate::functions::lemma_assoc_len;
use crate::text::str_equal;
use crate::types::schema::{Column, IndexSchema, IndexSchemaView, TableSchema, TableSchemaView};

verus! {

/// Tables are keyed by name.
pub open spec fn table_key() -> spec_fn(TableSchema) -> Seq<char> {
    |t: TableSchema| t@.name
}

/// Tables are mapped to their descriptions.
pub open spec fn table_val() -> spec_fn(TableSchema) -> TableSchemaView {
    |t: TableSchema| t@
}

/// Indexes are keyed by name.
pub open spec fn index_key() -> spec_fn(IndexSchema) -> Seq<char> {
    |x: IndexSchema| x@.name
}

/// Indexes are mapped to their descriptions.
pub open spec fn index_val() -> spec_fn(IndexSchema) -> IndexSchemaView {
    |x: IndexSchema| x@
}

/// The indexes of `m` that are not on table `t`.
pub open spec fn without_table_indexes(m: Map<Seq<char>, IndexSchemaView>, t: Seq<char>) -> Map<
    Seq<char>,
    IndexSchemaView,
> {
    Map::new(|k: Seq<char>| m.contains_key(k) && m[k].table != t, |k: Seq<char>| m[k])
}

/// A copy of a table description.
pub fn copy_table(t: &TableSchema) -> (r: TableSchema)
    ensures
        r@ == t@,
{
    let mut cols: Vec<Column> = Vec::new();
    let mut i: usize = 0;
    while i < t.columns.len()
        invariant
            i <= t.columns@.len(),
            cols@.len() == i,
            forall|j: int| 0 <= j < i ==> (#[trigger] cols@[j])@ == t.columns@[j]@,
        decreases t.columns@.len() - i,
    {
        let c = &t.columns[i];
        cols.push(Column { name: c.name.clone(), ty: c.ty, not_null: c.not_null, is_primary_key: c.is_primary_key });
        i = i + 1;
    }
    let r = TableSchema { name: t.name.clone(), columns: cols, root_page: t.root_page, rls_enabled: t.rls_enabled };
    assert(r@.columns =~= t@.columns);
    r
}


/// The indexes of `all` whose table is `name` (with `on`) or is not (without), each once.
fn select_indexes(all: &Vec<IndexSchema>, name: &str, on: bool) -> (kept: Vec<IndexSchema>)
    requires
        keys_distinct(all@, index_key()),
    ensures
        keys_distinct(kept@, index_key()),
        assoc_map(kept@, index_key(), index_val()) == Map::new(
            |k: Seq<char>| assoc_map(all@, index_key(), index_val()).contains_key(k) && ((assoc_map(all@, index_key(), index_val())[k].table == name@) == on),
            |k: Seq<char>| assoc_map(all@, index_key(), index_val())[k],
        ),
{
        let mut kept: Vec<IndexSchema> = Vec::new();
        let mut kept: Vec<IndexSchema> = Vec::new();
        let ghost s = all@;
        let ghost m = assoc_map(s, index_key(), index_val());
        let mut i: usize = 0;
        assert(assoc_map(kept@, index_key(), index_val()) =~= Map::<Seq<char>, IndexSchemaView>::empty());
        while i < all.len()
            invariant
                s == all@,
                m == assoc_map(s, index_key(), index_val()),
                keys_distinct(s, index_key()),
                i <= s.len(),
                keys_distinct(kept@, index_key()),
                forall|j: int| 0 <= j < kept@.len() ==> exists|a: int| 0 <= a < i && (#[trigger] kept@[j])@.name == s[a]@.name,
                assoc_map(kept@, index_key(), index_val()) == Map::new(
                    |k: Seq<char>| has_key(s.take(i as int), index_key(), k) && ((m[k].table == name@) == on),
                    |k: Seq<char>| m[k],
                ),
            decreases s.len() - i,
        {
            let ghost before = kept@;
            proof {
                lemma_assoc_at(s, index_key(), index_val(), i as int);
            }
            if str_equal(all[i].table.as_str(), name) == on {
                let x = all[i].copy();
                proof {
                    if has_key(before, index_key(), x@.name) {
                        let j = choose|j: int| 0 <= j < before.len() && index_key()(before[j]) == x@.name;
                        let a = choose|a: int| 0 <= a < i && (#[trigger] before[j])@.name == s[a]@.name;
                        assert(index_key()(s[a]) == index_key()(s[i as int]));
                    }
                    lemma_assoc_push(before, index_key(), index_val(), x);
                }
                kept.push(x);
            }
            proof {
                let t2 = s.take(i + 1);
                assert forall|k: Seq<char>| has_key(t2, index_key(), k) == (has_key(s.take(i as int), index_key(), k)
                    || k == s[i as int]@.name) by {
                    if has_key(t2, index_key(), k) {
                        let a = choose|a: int| 0 <= a < t2.len() && index_key()(t2[a]) == k;
                        if a < i {
                            assert(s.take(i as int)[a] == t2[a]);
                        }
                    }
                    if has_key(s.take(i as int), index_key(), k) {
                        let a = choose|a: int| 0 <= a < i && index_key()(s.take(i as int)[a]) == k;
                        assert(t2[a] == s.take(i as int)[a]);
                    }
                    if k == s[i as int]@.name {
                        assert(index_key()(t2[i as int]) == k);
                    }
                }
                assert forall|j: int| 0 <= j < kept@.len() implies exists|a: int|
                    0 <= a < i + 1 && (#[trigger] kept@[j])@.name == s[a]@.name by {
                    if j < before.len() {
                        assert(kept@[j] == before[j]);
                        let a = choose|a: int| 0 <= a < i && (#[trigger] before[j])@.name == s[a]@.name;
                        assert(0 <= a < i + 1 && kept@[j]@.name == s[a]@.name);
                    } else {
                        assert(kept@[j]@.name == s[i as int]@.name);
                    }
                }
                assert(assoc_map(kept@, index_key(), index_val()) =~= Map::new(
                    |k: Seq<char>| has_key(t2, index_key(), k) && ((m[k].table == name@) == on),
                    |k: Seq<char>| m[k],
                ));
            }
            i = i + 1;
        }
        proof {
            assert(s.take(s.len() as int) =~= s);
            assert(assoc_map(kept@, index_key(), index_val()) =~= Map::new(
                |k: Seq<char>| m.contains_key(k) && ((m[k].table == name@) == on),
                |k: Seq<char>| m[k],
            ));
        }
    kept
}

/// The schema catalog: the descriptions of the tables and indexes, by name.
pub struct Catalog {
    tables: Vec<TableSchema>,
    indexes: Vec<IndexSchema>,
}

impl Catalog {
    #[verifier::type_invariant]
    spec fn inv(self) -> bool {
        &&& keys_distinct(self.tables@, table_key())
        &&& keys_distinct(self.indexes@, index_key())
    }

    /// The tables, by name.
    pub closed spec fn tables(&self) -> Map<Seq<char>, TableSchemaView> {
        assoc_map(self.tables@, table_key(), table_val())
    }

    /// The indexes, by name.
    pub closed spec fn indexes(&self) -> Map<Seq<char>, IndexSchemaView> {
        assoc_map(self.indexes@, index_key(), index_val())
    }

    /// A catalog with no tables and no indexes.
    pub fn bootstrap() -> (r: Result<Catalog, DbError>)
        ensures
            r matches Ok(c) && c.tables() == Map::<Seq<char>, TableSchemaView>::empty() && c.indexes() == Map::<
                Seq<char>,
                IndexSchemaView,
            >::empty(),
    {
        let c = Catalog { tables: Vec::new(), indexes: Vec::new() };
        assert(c.tables() =~= Map::<Seq<char>, TableSchemaView>::empty());
        assert(c.indexes() =~= Map::<Seq<char>, IndexSchemaView>::empty());
        Ok(c)
    }

    fn table_pos(&self, name: &str) -> (r: Option<usize>)
        ensures
            r matches Some(i) ==> i < self.tables@.len() && self.tables@[i as int]@.name == name@,
            r is None ==> !has_key(self.tables@, table_key(), name@),
    {
        let mut i: usize = 0;
        while i < self.tables.len()
            invariant
                i <= self.tables@.len(),
                forall|j: int| 0 <= j < i ==> self.tables@[j]@.name != name@,
            decreases self.tables@.len() - i,
        {
            if str_equal(self.tables[i].name.as_str(), name) {
                return Some(i);
            }
            i = i + 1;
        }
        None
    }

    fn index_pos(&self, name: &str) -> (r: Option<usize>)
        ensures
            r matches Some(i) ==> i < self.indexes@.len() && self.indexes@[i as int]@.name == name@,
            r is None ==> !has_key(self.indexes@, index_key(), name@),
    {
        let mut i: usize = 0;
        while i < self.indexes.len()
            invariant
                i <= self.indexes@.len(),
                forall|j: int| 0 <= j < i ==> self.indexes@[j]@.name != name@,
            decreases self.indexes@.len() - i,
        {
            if str_equal(self.indexes[i].name.as_str(), name) {
                return Some(i);
            }
            i = i + 1;
        }
        None
    }

    /// Stores a table under its name, replacing one of that name.
    fn put_table(&mut self, t: TableSchema)
        ensures
            final(self).tables() == old(self).tables().insert(t@.name, t@),
            final(self).indexes() == old(self).indexes(),
    {
        proof {
            use_type_invariant(&*self);
        }
        let pos = self.table_pos(t.name.as_str());
        let mut v: Vec<TableSchema> = Vec::new();
        std::mem::swap(&mut v, &mut self.tables);
        match pos {
            Some(i) => {
                proof {
                    lemma_assoc_update(v@, table_key(), table_val(), i as int, t);
                }
                v.set(i, t);
            },
            None => {
                proof {
                    lemma_assoc_push(v@, table_key(), table_val(), t);
                }
                v.push(t);
            },
        }
        self.tables = v;
    }

    /// Stores an index under its name, replacing one of that name.
    fn put_index(&mut self, x: IndexSchema)
        ensures
            final(self).indexes() == old(self).indexes().insert(x@.name, x@),
            final(self).tables() == old(self).tables(),
    {
        proof {
            use_type_invariant(&*self);
        }
        let pos = self.index_pos(x.name.as_str());
        let mut v: Vec<IndexSchema> = Vec::new();
        std::mem::swap(&mut v, &mut self.indexes);
        match pos {
            Some(i) => {
                proof {
                    lemma_assoc_update(v@, index_key(), index_val(), i as int, x);
                }
                v.set(i, x);
            },
            None => {
                proof {
                    lemma_assoc_push(v@, index_key(), index_val(), x);
                }
                v.push(x);
            },
        }
        self.indexes = v;
    }

    /// Removes the table named `name`, which is there.
    fn take_table(&mut self, name: &str) -> (r: Option<TableSchema>)
        ensures
            r is Some == old(self).tables().contains_key(name@),
            r matches Some(t) ==> t@ == old(self).tables()[name@],
            final(self).tables() == old(self).tables().remove(name@),
            final(self).indexes() == old(self).indexes(),
    {
        proof {
            use_type_invariant(&*self);
        }
        match self.table_pos(name) {
            Some(i) => {
                let mut v: Vec<TableSchema> = Vec::new();
                std::mem::swap(&mut v, &mut self.tables);
                proof {
                    lemma_assoc_remove(v@, table_key(), table_val(), i as int);
                    lemma_assoc_at(v@, table_key(), table_val(), i as int);
                }
                let t = v.remove(i);
                self.tables = v;
                Some(t)
            },
            None => {
                assert(old(self).tables().remove(name@) =~= old(self).tables());
                None
            },
        }
    }

    /// Records a new table; refused when a table of that name exists.
    pub fn create_table(&mut self, schema: &TableSchema) -> (r: Result<(), DbError>)
        ensures
            old(self).tables().contains_key(schema@.name) ==> (r matches Err(
                DbError::Plan(PlanError::TableAlreadyExists(n)),
            ) && n@ == schema@.name && final(self).tables() == old(self).tables()),
            !old(self).tables().contains_key(schema@.name) ==> (r is Ok && final(self).tables() == old(
                self,
            ).tables().insert(schema@.name, schema@)),
            final(self).indexes() == old(self).indexes(),
    {
        proof {
            use_type_invariant(&*self);
        }
        if let Some(i) = self.table_pos(schema.name.as_str()) {
            proof {
                lemma_assoc_at(self.tables@, table_key(), table_val(), i as int);
            }
            return Err(DbError::Plan(PlanError::TableAlreadyExists(schema.name.clone())));
        }
        self.put_table(copy_table(schema));
        Ok(())
    }

    /// The table named `name`, if any.
    pub fn get_table(&self, name: &str) -> (r: Result<Option<TableSchema>, DbError>)
        ensures
            r matches Ok(o) && (o is Some == self.tables().contains_key(name@)) && (o matches Some(t) ==> t@
                == self.tables()[name@]),
    {
        proof {
            use_type_invariant(self);
        }
        match self.table_pos(name) {
            Some(i) => {
                proof {
                    lemma_assoc_at(self.tables@, table_key(), table_val(), i as int);
                }
                Ok(Some(copy_table(&self.tables[i])))
            },
            None => Ok(None),
        }
    }

    /// Sets the root page of the table named `name`; refused when there is none.
    pub fn update_table_root(&mut self, name: &str, new_root: u32) -> (r: Result<(), DbError>)
        ensures
            !old(self).tables().contains_key(name@) ==> (r matches Err(DbError::Plan(PlanError::NoSuchTable(n)))
                && n@ == name@ && final(self).tables() == old(self).tables()),
            old(self).tables().contains_key(name@) ==> (r is Ok && final(self).tables() == old(self).tables().insert(
                name@,
                TableSchemaView { root_page: new_root, ..old(self).tables()[name@] },
            )),
            final(self).indexes() == old(self).indexes(),
    {
        proof {
            use_type_invariant(&*self);
        }
        match self.table_pos(name) {
            Some(i) => {
                proof {
                    lemma_assoc_at(self.tables@, table_key(), table_val(), i as int);
                }
                let mut t = copy_table(&self.tables[i]);
                t.root_page = new_root;
                self.put_table(t);
                Ok(())
            },
            None => Err(DbError::Plan(PlanError::NoSuchTable(String::from_str(name)))),
        }
    }

    /// Stores `schema` under its name, replacing the table of that name if there is one.
    pub fn update_table_schema(&mut self, schema: &TableSchema) -> (r: Result<(), DbError>)
        ensures
            r is Ok,
            final(self).tables() == old(self).tables().insert(schema@.name, schema@),
            final(self).indexes() == old(self).indexes(),
    {
        self.put_table(copy_table(schema));
        Ok(())
    }

    /// Sets whether row-level security is on for the table `table`; refused when there is none.
    pub fn set_table_rls(&mut self, table: &str, enabled: bool) -> (r: Result<(), DbError>)
        ensures
            !old(self).tables().contains_key(table@) ==> (r matches Err(DbError::Plan(PlanError::NoSuchTable(n)))
                && n@ == table@ && final(self).tables() == old(self).tables()),
            old(self).tables().contains_key(table@) ==> (r is Ok && final(self).tables() == old(self).tables().insert(
                table@,
                TableSchemaView { rls_enabled: enabled, ..old(self).tables()[table@] },
            )),
            final(self).indexes() == old(self).indexes(),
    {
        proof {
            use_type_invariant(&*self);
        }
        match self.table_pos(table) {
            Some(i) => {
                proof {
                    lemma_assoc_at(self.tables@, table_key(), table_val(), i as int);
                }
                let mut t = copy_table(&self.tables[i]);
                t.rls_enabled = enabled;
                self.put_table(t);
                Ok(())
            },
            None => Err(DbError::Plan(PlanError::NoSuchTable(String::from_str(table)))),
        }
    }

    /// Renames a table; refused when the new name is taken or the table does not exist.
    pub fn rename_table(&mut self, old_name: &str, new_name: &str) -> (r: Result<(), DbError>)
        ensures
            final(self).indexes() == old(self).indexes(),
            old(self).tables().contains_key(new_name@) ==> (r matches Err(
                DbError::Plan(PlanError::TableAlreadyExists(n)),
            ) && n@ == new_name@ && final(self).tables() == old(self).tables()),
            !old(self).tables().contains_key(new_name@) && !old(self).tables().contains_key(old_name@) ==> (r matches Err(
                DbError::Plan(PlanError::NoSuchTable(n)),
            ) && n@ == old_name@ && final(self).tables() == old(self).tables()),
            !old(self).tables().contains_key(new_name@) && old(self).tables().contains_key(old_name@) ==> (r is Ok
                && final(self).tables() == old(self).tables().remove(old_name@).insert(
                new_name@,
                TableSchemaView { name: new_name@, ..old(self).tables()[old_name@] },
            )),
    {
        proof {
            use_type_invariant(&*self);
        }
        if let Some(i) = self.table_pos(new_name) {
            proof {
                lemma_assoc_at(self.tables@, table_key(), table_val(), i as int);
            }
            return Err(DbError::Plan(PlanError::TableAlreadyExists(String::from_str(new_name))));
        }
        match self.take_table(old_name) {
            Some(t) => {
                let mut t = t;
                t.name = String::from_str(new_name);
                self.put_table(t);
                Ok(())
            },
            None => Err(DbError::Plan(PlanError::NoSuchTable(String::from_str(old_name)))),
        }
    }

    /// Records a new index; refused when an index of that name exists.
    pub fn create_index(&mut self, schema: &IndexSchema) -> (r: Result<(), DbError>)
        ensures
            old(self).indexes().contains_key(schema@.name) ==> (r matches Err(
                DbError::Plan(PlanError::IndexAlreadyExists(n)),
            ) && n@ == schema@.name && final(self).indexes() == old(self).indexes()),
            !old(self).indexes().contains_key(schema@.name) ==> (r is Ok && final(self).indexes() == old(
                self,
            ).indexes().insert(schema@.name, schema@)),
            final(self).tables() == old(self).tables(),
    {
        proof {
            use_type_invariant(&*self);
        }
        if let Some(i) = self.index_pos(schema.name.as_str()) {
            proof {
                lemma_assoc_at(self.indexes@, index_key(), index_val(), i as int);
            }
            return Err(DbError::Plan(PlanError::IndexAlreadyExists(schema.name.clone())));
        }
        self.put_index(schema.copy());
        Ok(())
    }

    /// The index named `name`, if any.
    pub fn get_index(&self, name: &str) -> (r: Result<Option<IndexSchema>, DbError>)
        ensures
            r matches Ok(o) && (o is Some == self.indexes().contains_key(name@)) && (o matches Some(x) ==> x@
                == self.indexes()[name@]),
    {
        proof {
            use_type_invariant(self);
        }
        match self.index_pos(name) {
            Some(i) => {
                proof {
                    lemma_assoc_at(self.indexes@, index_key(), index_val(), i as int);
                }
                Ok(Some(self.indexes[i].copy()))
            },
            None => Ok(None),
        }
    }

    /// Sets the root page of the index named `name`; refused when there is none.
    pub fn update_index_root(&mut self, name: &str, new_root: u32) -> (r: Result<(), DbError>)
        ensures
            !old(self).indexes().contains_key(name@) ==> (r matches Err(DbError::Plan(PlanError::NoSuchIndex(n)))
                && n@ == name@ && final(self).indexes() == old(self).indexes()),
            old(self).indexes().contains_key(name@) ==> (r is Ok && final(self).indexes() == old(self).indexes().insert(
                name@,
                IndexSchemaView { root_page: new_root, ..old(self).indexes()[name@] },
            )),
            final(self).tables() == old(self).tables(),
    {
        proof {
            use_type_invariant(&*self);
        }
        match self.index_pos(name) {
            Some(i) => {
                proof {
                    lemma_assoc_at(self.indexes@, index_key(), index_val(), i as int);
                }
                let mut x = self.indexes[i].copy();
                x.root_page = new_root;
                self.put_index(x);
                Ok(())
            },
            None => Err(DbError::Plan(PlanError::NoSuchIndex(String::from_str(name)))),
        }
    }

    /// Removes the index named `name`; refused when there is none.
    pub fn drop_index(&mut self, name: &str) -> (r: Result<(), DbError>)
        ensures
            !old(self).indexes().contains_key(name@) ==> (r matches Err(DbError::Plan(PlanError::NoSuchIndex(n)))
                && n@ == name@ && final(self).indexes() == old(self).indexes()),
            old(self).indexes().contains_key(name@) ==> (r is Ok && final(self).indexes() == old(self).indexes().remove(
                name@,
            )),
            final(self).tables() == old(self).tables(),
    {
        proof {
            use_type_invariant(&*self);
        }
        match self.index_pos(name) {
            Some(i) => {
                let mut v: Vec<IndexSchema> = Vec::new();
                std::mem::swap(&mut v, &mut self.indexes);
                proof {
                    lemma_assoc_remove(v@, index_key(), index_val(), i as int);
                    lemma_assoc_at(v@, index_key(), index_val(), i as int);
                }
                v.remove(i);
                self.indexes = v;
                Ok(())
            },
            None => Err(DbError::Plan(PlanError::NoSuchIndex(String::from_str(name)))),
        }
    }

    /// Removes the table named `name` and every index on it; refused when there is none.
    pub fn drop_table(&mut self, name: &str) -> (r: Result<(), DbError>)
        ensures
            !old(self).tables().contains_key(name@) ==> (r matches Err(DbError::Plan(PlanError::NoSuchTable(n)))
                && n@ == name@ && final(self).tables() == old(self).tables() && final(self).indexes() == old(
                self,
            ).indexes()),
            old(self).tables().contains_key(name@) ==> (r is Ok && final(self).tables() == old(self).tables().remove(
                name@,
            ) && final(self).indexes() == without_table_indexes(old(self).indexes(), name@)),
    {
        proof {
            use_type_invariant(&*self);
        }
        if self.table_pos(name).is_none() {
            return Err(DbError::Plan(PlanError::NoSuchTable(String::from_str(name))));
        }
        let mut all: Vec<IndexSchema> = Vec::new();
        std::mem::swap(&mut all, &mut self.indexes);
        let kept = select_indexes(&all, name, false);
        assert(assoc_map(kept@, index_key(), index_val()) =~= without_table_indexes(
            assoc_map(all@, index_key(), index_val()),
            name@,
        ));
        self.indexes = kept;
        let _ = self.take_table(name);
        Ok(())
    }

    /// The names of the tables, each once.
    pub fn list_tables(&self) -> (r: Result<Vec<String>, DbError>)
        ensures
            r matches Ok(v) && v@.len() == self.tables().len() && (forall|i: int|
                0 <= i < v@.len() ==> self.tables().contains_key(#[trigger] v@[i]@)) && (forall|k: Seq<char>| #[trigger]
                self.tables().contains_key(k) ==> exists|i: int| 0 <= i < v@.len() && v@[i]@ == k),
    {
        proof {
            use_type_invariant(self);
        }
        let ghost s = self.tables@;
        let mut r: Vec<String> = Vec::new();
        let mut i: usize = 0;
        while i < self.tables.len()
            invariant
                s == self.tables@,
                i <= s.len(),
                r@.len() == i,
                forall|j: int| 0 <= j < i ==> #[trigger] r@[j]@ == s[j]@.name,
            decreases s.len() - i,
        {
            r.push(self.tables[i].name.clone());
            i = i + 1;
        }
        proof {
            assert forall|j: int| 0 <= j < r@.len() implies self.tables().contains_key(#[trigger] r@[j]@) by {
                lemma_assoc_at(s, table_key(), table_val(), j);
            }
            assert forall|k: Seq<char>| #[trigger] self.tables().contains_key(k) implies exists|j: int|
                0 <= j < r@.len() && r@[j]@ == k by {
                let j = choose|j: int| 0 <= j < s.len() && table_key()(s[j]) == k;
                assert(r@[j]@ == k);
            }
            lemma_assoc_len(s, table_key(), table_val());
        }
        Ok(r)
    }

    /// The indexes on the table `table`, each once.
    pub fn list_indexes_for_table(&self, table: &str) -> (r: Result<Vec<IndexSchema>, DbError>)
        ensures
            r is Ok,
            forall|i: int|
                0 <= i < r.unwrap()@.len() ==> self.indexes().contains_key((#[trigger] r.unwrap()@[i])@.name)
                    && self.indexes()[r.unwrap()@[i]@.name] == r.unwrap()@[i]@ && r.unwrap()@[i]@.table == table@,
            forall|k: Seq<char>| #[trigger]
                self.indexes().contains_key(k) && self.indexes()[k].table == table@ ==> exists|i: int|
                    0 <= i < r.unwrap()@.len() && r.unwrap()@[i]@.name == k,
            forall|i: int, j: int|
                0 <= i < j < r.unwrap()@.len() ==> (#[trigger] r.unwrap()@[i])@.name != (#[trigger] r.unwrap()@[j])@.name,
    {
        proof {
            use_type_invariant(self);
        }
        let r = select_indexes(&self.indexes, table, true);
        proof {
            assert forall|j: int| 0 <= j < r@.len() implies self.indexes().contains_key((#[trigger] r@[j])@.name)
                && self.indexes()[r@[j]@.name] == r@[j]@ && r@[j]@.table == table@ by {
                lemma_assoc_at(r@, index_key(), index_val(), j);
                let k = r@[j]@.name;
                assert(assoc_map(r@, index_key(), index_val()).contains_key(k));
                assert(assoc_map(r@, index_key(), index_val())[k] == r@[j]@);
                assert(self.indexes().contains_key(k) && ((self.indexes()[k].table == table@) == true));
                assert(self.indexes()[k] == r@[j]@);
            }
            assert forall|k: Seq<char>| #[trigger] self.indexes().contains_key(k) && self.indexes()[k].table == table@ implies exists|j: int|
                0 <= j < r@.len() && r@[j]@.name == k by {
                assert(assoc_map(r@, index_key(), index_val()).contains_key(k));
                let j = choose|j: int| 0 <= j < r@.len() && index_key()(r@[j]) == k;
            }
            assert forall|j1: int, j2: int| 0 <= j1 < j2 < r@.len() implies (#[trigger] r@[j1])@.name != (
            #[trigger] r@[j2])@.name by {
                assert(index_key()(r@[j1]) != index_key()(r@[j2]));
            }
        }
        let res: Result<Vec<IndexSchema>, DbError> = Ok(r);
        assert forall|k: Seq<char>| #[trigger] self.indexes().contains_key(k) && self.indexes()[k].table == table@ implies exists|i: int|
            0 <= i < res.unwrap()@.len() && res.unwrap()@[i]@.name == k by {
            let j = choose|j: int| 0 <= j < r@.len() && r@[j]@.name == k;
            assert(res.unwrap()@[j]@.name == k);
        }
        res
    }
}

} // verus!
