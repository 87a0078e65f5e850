use vstd::prelude::*;

use crate::branching::{db_file, db_file_path};
use crate::error::{DbError, PlanError};
use crate::text::{
    chars_of, escape_quotes, int_decimal, join_with, name_chars, push_chars, push_escaped,
    push_i64_decimal, push_joined, push_str, retain_name_chars, spec_to_uppercase, spec_trim,
    starts_with, str_equal, string_of, string_seqs, to_uppercase, trim_chars, chars_starts_with,
    chars_equal,
};
use crate::types::value::{Value, ValueView};

verus! {

/// A read replica: its id, file, creation time, status and the queries it served.
#[derive(Debug, Clone)]
pub struct ReplicaMetadata {
    pub id: String,
    pub path: String,
    pub created_at_ms: u64,
    pub status: String,
    pub queries_served: usize,
}

/// The content of replica metadata.
pub struct ReplicaMetadataView {
    pub id: Seq<char>,
    pub path: Seq<char>,
    pub created_at_ms: u64,
    pub status: Seq<char>,
    pub queries_served: usize,
}

impl View for ReplicaMetadata {
    type V = ReplicaMetadataView;

    open spec fn view(&self) -> ReplicaMetadataView {
        ReplicaMetadataView {
            id: self.id@,
            path: self.path@,
            created_at_ms: self.created_at_ms,
            status: self.status@,
            queries_served: self.queries_served,
        }
    }
}

impl ReplicaMetadata {
    /// A copy of this metadata.
    pub fn copy(&self) -> (r: Self)
        ensures
            r@ == self@,
    {
        ReplicaMetadata {
            id: string_of(chars_of(self.id.as_str()).as_slice()),
            path: string_of(chars_of(self.path.as_str()).as_slice()),
            created_at_ms: self.created_at_ms,
            status: string_of(chars_of(self.status.as_str()).as_slice()),
            queries_served: self.queries_served,
        }
    }
}

/// The views of a sequence of replica metadata.
pub open spec fn replica_views(s: Seq<ReplicaMetadata>) -> Seq<ReplicaMetadataView> {
    Seq::new(s.len(), |i: int| s[i]@)
}

/// Whether some replica has id `id`.
pub open spec fn names_replica(s: Seq<ReplicaMetadataView>, id: Seq<char>) -> bool {
    exists|i: int| 0 <= i < s.len() && (#[trigger] s[i]).id == id
}

/// The message refusing a replica id with no name characters.
pub open spec fn empty_replica_message() -> Seq<char> {
    "replica id cannot be empty"@
}

/// The message refusing a replica id in use.
pub open spec fn replica_exists_message(id: Seq<char>) -> Seq<char> {
    "replica '"@ + id + "' already exists"@
}

/// The message refusing to promote an unknown replica.
pub open spec fn no_standby_message(id: Seq<char>) -> Seq<char> {
    "standby replica '"@ + id + "' not found for promotion"@
}

/// What creating a replica called `id` in `base` with the replicas `s` leads to: the
/// sanitized id and its file, or the error message.
pub open spec fn replica_target(base: Seq<char>, s: Seq<ReplicaMetadataView>, id: Seq<char>) -> Result<
    (Seq<char>, Seq<char>),
    Seq<char>,
> {
    let n = name_chars(id);
    if n.len() == 0 {
        Err(empty_replica_message())
    } else if names_replica(s, n) {
        Err(replica_exists_message(n))
    } else {
        Ok((n, db_file(base, n)))
    }
}

/// Whether a statement only reads: once trimmed and in upper case it starts with `SELECT `
/// or `EXPLAIN `, or is `SELECT 1` or `SELECT 1 AS ONE`.
pub open spec fn read_only(sql: Seq<char>) -> bool {
    let u = spec_to_uppercase(spec_trim(sql));
    starts_with(u, "SELECT "@) || starts_with(u, "EXPLAIN "@) || u == "SELECT 1"@ || u == "SELECT 1 AS ONE"@
}

/// Whether a statement only reads and can go to a replica.
pub fn is_read_only(sql: &str) -> (r: bool)
    ensures
        r == read_only(sql@),
{
    let t = string_of(trim_chars(chars_of(sql).as_slice()).as_slice());
    let u = chars_of(to_uppercase(t.as_str()).as_str());
    let select = chars_of("SELECT ");
    let explain = chars_of("EXPLAIN ");
    let one = chars_of("SELECT 1");
    let one_as = chars_of("SELECT 1 AS ONE");
    chars_starts_with(u.as_slice(), select.as_slice()) || chars_starts_with(u.as_slice(), explain.as_slice())
        || chars_equal(u.as_slice(), one.as_slice()) || chars_equal(u.as_slice(), one_as.as_slice())
}

/// The read replicas of a database, in the order they were made, each id once, and the
/// counter that spreads reads over them in turn. The databases themselves live in the
/// files named by their metadata.
#[derive(Debug)]
pub struct ReplicaManager {
    base_dir: String,
    replicas: Vec<ReplicaMetadata>,
    round_robin_counter: usize,
}

impl ReplicaManager {
    /// Each id once.
    #[verifier::type_invariant]
    spec fn ids_distinct(&self) -> bool {
        forall|i: int, j: int|
            0 <= i < j < self.replicas@.len() ==> (#[trigger] self.replicas@[i]).id@
                != (#[trigger] self.replicas@[j]).id@
    }

    /// The directory of the replica files.
    pub closed spec fn dir(&self) -> Seq<char> {
        self.base_dir@
    }

    /// The replicas, oldest first.
    pub closed spec fn replicas(&self) -> Seq<ReplicaMetadataView> {
        replica_views(self.replicas@)
    }

    /// The number of reads routed so far, wrapping around.
    pub closed spec fn counter(&self) -> usize {
        self.round_robin_counter
    }

    /// No replicas yet; their files go in `base_dir`.
    pub fn new(base_dir: &str) -> (r: Self)
        ensures
            r.dir() == base_dir@,
            r.replicas() == Seq::<ReplicaMetadataView>::empty(),
            r.counter() == 0,
    {
        let r = ReplicaManager {
            base_dir: string_of(chars_of(base_dir).as_slice()),
            replicas: Vec::new(),
            round_robin_counter: 0,
        };
        assert(r.replicas() =~= Seq::<ReplicaMetadataView>::empty());
        r
    }

    fn position(&self, id: &str) -> (r: Option<usize>)
        ensures
            r matches Some(i) ==> i < self.replicas().len() && self.replicas()[i as int].id == id@,
            r is None ==> !names_replica(self.replicas(), id@),
    {
        let mut i: usize = 0;
        while i < self.replicas.len()
            invariant
                i <= self.replicas@.len(),
                forall|j: int| 0 <= j < i ==> self.replicas@[j].id@ != id@,
            decreases self.replicas@.len() - i,
        {
            if str_equal(self.replicas[i].id.as_str(), id) {
                return Some(i);
            }
            i = i + 1;
        }
        proof {
            assert forall|j: int| 0 <= j < self.replicas().len() implies (#[trigger] self.replicas()[j]).id
                != id@ by {
                assert(self.replicas()[j] == self.replicas@[j]@);
            }
        }
        None
    }

    /// The sanitized id of a new replica called `id` and the path of its file: only ASCII
    /// letters, digits, `_` and `-` are kept, and an id left empty or already in use is
    /// refused.
    pub fn replica_target(&self, id: &str) -> (r: Result<(String, String), DbError>)
        ensures
            match replica_target(self.dir(), self.replicas(), id@) {
                Ok((n, p)) => r matches Ok((a, b)) && a@ == n && b@ == p,
                Err(m) => r matches Err(DbError::Plan(e)) && match e {
                    PlanError::InvalidExpression(x) => m == empty_replica_message() && x@ == m,
                    PlanError::TableAlreadyExists(x) => m != empty_replica_message() && x@ == m,
                    _ => false,
                },
            },
    {
        let n = retain_name_chars(id);
        if n.len() == 0 {
            proof {
                reveal_strlit("replica id cannot be empty");
            }
            return Err(DbError::Plan(PlanError::InvalidExpression(String::from_str("replica id cannot be empty"))));
        }
        let ns = string_of(n.as_slice());
        if self.position(ns.as_str()).is_some() {
            let mut v: Vec<char> = Vec::new();
            push_str(&mut v, "replica '");
            push_chars(&mut v, n.as_slice());
            push_str(&mut v, "' already exists");
            proof {
                reveal_strlit("replica '");
                reveal_strlit("' already exists");
                reveal_strlit("replica id cannot be empty");
                assert(v@ =~= replica_exists_message(n@));
                assert(v@[8] == '\'' && empty_replica_message()[8] == 'i');
            }
            return Err(DbError::Plan(PlanError::TableAlreadyExists(string_of(v.as_slice()))));
        }
        let path = db_file_path(self.base_dir.as_str(), n.as_slice());
        Ok((ns, path))
    }

    /// Records a new replica called `id`, made at `created_at_ms`, online and with no
    /// queries served, and returns its metadata; refused as `replica_target` refuses.
    pub fn create_replica(&mut self, id: &str, created_at_ms: u64) -> (r: Result<ReplicaMetadata, DbError>)
        ensures
            final(self).dir() == old(self).dir(),
            final(self).counter() == old(self).counter(),
            match replica_target(old(self).dir(), old(self).replicas(), id@) {
                Ok((n, p)) => r matches Ok(m) && m@ == (ReplicaMetadataView {
                    id: n,
                    path: p,
                    created_at_ms,
                    status: "online"@,
                    queries_served: 0,
                }) && final(self).replicas() == old(self).replicas().push(m@),
                Err(msg) => r matches Err(DbError::Plan(e)) && final(self).replicas() == old(self).replicas()
                    && match e {
                    PlanError::InvalidExpression(x) => x@ == msg,
                    PlanError::TableAlreadyExists(x) => x@ == msg,
                    _ => false,
                },
            },
    {
        let (n, path) = match self.replica_target(id) {
            Ok(t) => t,
            Err(e) => {
                return Err(e);
            },
        };
        let meta = ReplicaMetadata {
            id: n,
            path,
            created_at_ms,
            status: String::from_str("online"),
            queries_served: 0,
        };
        proof {
            reveal_strlit("online");
        }
        let out = meta.copy();
        proof {
            use_type_invariant(&*self);
        }
        let ghost before = self.replicas@;
        let mut rs: Vec<ReplicaMetadata> = Vec::new();
        std::mem::swap(&mut rs, &mut self.replicas);
        rs.push(meta);
        proof {
            assert forall|i: int, j: int| 0 <= i < j < rs@.len() implies (#[trigger] rs@[i]).id@
                != (#[trigger] rs@[j]).id@ by {
                if j == before.len() {
                    assert(replica_views(before)[i] == before[i]@);
                }
            }
        }
        self.replicas = rs;
        assert(self.replicas() =~= old(self).replicas().push(out@));
        Ok(out)
    }

    /// The replicas, oldest first.
    pub fn list_replicas(&self) -> (r: Vec<ReplicaMetadata>)
        ensures
            replica_views(r@) == self.replicas(),
    {
        let mut r: Vec<ReplicaMetadata> = Vec::new();
        let mut i: usize = 0;
        while i < self.replicas.len()
            invariant
                i <= self.replicas@.len(),
                r@.len() == i,
                replica_views(r@) == replica_views(self.replicas@).take(i as int),
            decreases self.replicas@.len() - i,
        {
            let c = self.replicas[i].copy();
            let ghost before = r@;
            r.push(c);
            assert forall|j: int| 0 <= j < i implies r@[j]@ == #[trigger] self.replicas@[j]@ by {
                assert(r@[j] == before[j]);
                assert(replica_views(before)[j] == replica_views(self.replicas@).take(i as int)[j]);
            }
            i = i + 1;
            assert(replica_views(r@) =~= replica_views(self.replicas@).take(i as int));
        }
        assert(replica_views(self.replicas@).take(i as int) =~= replica_views(self.replicas@));
        r
    }

    /// Takes the replica at position `i` out.
    fn take_at(&mut self, i: usize) -> (m: ReplicaMetadata)
        requires
            i < old(self).replicas().len(),
        ensures
            final(self).dir() == old(self).dir(),
            final(self).counter() == old(self).counter(),
            m@ == old(self).replicas()[i as int],
            final(self).replicas() == old(self).replicas().remove(i as int),
    {
        proof {
            use_type_invariant(&*self);
        }
        let ghost before = self.replicas@;
        let mut rs: Vec<ReplicaMetadata> = Vec::new();
        std::mem::swap(&mut rs, &mut self.replicas);
        let m = rs.remove(i);
        proof {
            assert forall|a: int, b: int| 0 <= a < b < rs@.len() implies (#[trigger] rs@[a]).id@
                != (#[trigger] rs@[b]).id@ by {
                let a2 = if a < i { a } else { a + 1 };
                let b2 = if b < i { b } else { b + 1 };
                assert(rs@[a] == before[a2]);
                assert(rs@[b] == before[b2]);
            }
        }
        self.replicas = rs;
        assert(self.replicas() =~= replica_views(before).remove(i as int));
        m
    }

    /// Forgets the replica `id` and returns its metadata, whose file the caller removes.
    pub fn delete_replica(&mut self, id: &str) -> (r: Option<ReplicaMetadata>)
        ensures
            final(self).dir() == old(self).dir(),
            final(self).counter() == old(self).counter(),
            r is Some == names_replica(old(self).replicas(), id@),
            r is None ==> final(self).replicas() == old(self).replicas(),
            r matches Some(m) ==> exists|i: int|
                0 <= i < old(self).replicas().len() && old(self).replicas()[i] == m@ && m@.id == id@
                    && final(self).replicas() == old(self).replicas().remove(i),
    {
        match self.position(id) {
            Some(i) => Some(self.take_at(i)),
            None => None,
        }
    }

    /// Takes the replica `id` out to serve as the primary.
    pub fn promote_to_primary(&mut self, id: &str) -> (r: Result<ReplicaMetadata, DbError>)
        ensures
            final(self).dir() == old(self).dir(),
            final(self).counter() == old(self).counter(),
            r is Ok == names_replica(old(self).replicas(), id@),
            r matches Err(e) ==> e matches DbError::Plan(PlanError::NoSuchTable(m)) && m@ == no_standby_message(
                id@,
            ) && final(self).replicas() == old(self).replicas(),
            r matches Ok(m) ==> exists|i: int|
                0 <= i < old(self).replicas().len() && old(self).replicas()[i] == m@ && m@.id == id@
                    && final(self).replicas() == old(self).replicas().remove(i),
    {
        match self.position(id) {
            Some(i) => Ok(self.take_at(i)),
            None => {
                let mut v: Vec<char> = Vec::new();
                push_str(&mut v, "standby replica '");
                push_str(&mut v, id);
                push_str(&mut v, "' not found for promotion");
                Err(DbError::Plan(PlanError::NoSuchTable(string_of(v.as_slice()))))
            },
        }
    }

    /// Takes the oldest replica out to serve as the primary, if there is one.
    pub fn auto_failover(&mut self) -> (r: Option<ReplicaMetadata>)
        ensures
            final(self).dir() == old(self).dir(),
            final(self).counter() == old(self).counter(),
            r is Some == (old(self).replicas().len() > 0),
            r is None ==> final(self).replicas() == old(self).replicas(),
            r matches Some(m) ==> m@ == old(self).replicas()[0] && final(self).replicas() == old(
                self,
            ).replicas().drop_first(),
    {
        if self.replicas.len() > 0 {
            let m = self.take_at(0);
            assert(old(self).replicas().remove(0) =~= old(self).replicas().drop_first());
            Some(m)
        } else {
            None
        }
    }

    /// Where a statement runs: a read goes to the replicas in turn, counting it there, and
    /// anything else, or any statement while there are no replicas, to the primary. The id
    /// of the replica chosen, or `None` for the primary.
    pub fn route_query(&mut self, sql: &str) -> (r: Option<String>)
        ensures
            final(self).dir() == old(self).dir(),
            ({
                let s = old(self).replicas();
                let c = old(self).counter();
                if read_only(sql@) && s.len() > 0 {
                    let i = (c as nat) % s.len();
                    let m = s[i as int];
                    &&& r matches Some(id) && id@ == m.id
                    &&& final(self).counter() == (if c == usize::MAX { 0 } else { c + 1 })
                    &&& final(self).replicas() == s.update(
                        i as int,
                        ReplicaMetadataView {
                            queries_served: if m.queries_served == usize::MAX {
                                0
                            } else {
                                (m.queries_served + 1) as usize
                            },
                            ..m
                        },
                    )
                } else {
                    r is None && final(self).counter() == c && final(self).replicas() == s
                }
            }),
    {
        if !is_read_only(sql) || self.replicas.len() == 0 {
            return None;
        }
        proof {
            use_type_invariant(&*self);
        }
        let idx = self.round_robin_counter % self.replicas.len();
        self.round_robin_counter = self.round_robin_counter.wrapping_add(1);
        let ghost before = self.replicas@;
        let mut rs: Vec<ReplicaMetadata> = Vec::new();
        std::mem::swap(&mut rs, &mut self.replicas);
        let mut m = rs[idx].copy();
        m.queries_served = m.queries_served.wrapping_add(1);
        let id = string_of(chars_of(m.id.as_str()).as_slice());
        rs.set(idx, m);
        proof {
            assert forall|a: int, b: int| 0 <= a < b < rs@.len() implies (#[trigger] rs@[a]).id@
                != (#[trigger] rs@[b]).id@ by {
                assert(rs@[a].id@ == before[a].id@);
                assert(rs@[b].id@ == before[b].id@);
            }
        }
        self.replicas = rs;
        assert(self.replicas() =~= replica_views(before).update(
            idx as int,
            ReplicaMetadataView {
                queries_served: if before[idx as int].queries_served == usize::MAX {
                    0
                } else {
                    (before[idx as int].queries_served + 1) as usize
                },
                ..before[idx as int]@
            },
        ));
        Some(id)
    }
}

/// A value written as an SQL literal: digits, quoted text with quotes doubled, `TRUE`,
/// `FALSE` or `NULL`.
pub open spec fn sql_literal(v: ValueView) -> Seq<char> {
    match v {
        ValueView::Null => "NULL"@,
        ValueView::Integer(i) => int_decimal(i as int),
        ValueView::Text(s) => "'"@ + escape_quotes(s) + "'"@,
        ValueView::Boolean(b) => if b {
            "TRUE"@
        } else {
            "FALSE"@
        },
        ValueView::Json(s) => "'"@ + escape_quotes(s) + "'"@,
    }
}

/// The literal of a key value: an integer or quoted text; anything else, or no value,
/// reads `0`.
pub open spec fn key_literal(v: Option<ValueView>) -> Seq<char> {
    match v {
        Some(ValueView::Integer(i)) => int_decimal(i as int),
        Some(ValueView::Text(s)) => "'"@ + escape_quotes(s) + "'"@,
        _ => "0"@,
    }
}

/// The literals of a row's values.
pub open spec fn literals(row: Seq<Value>) -> Seq<Seq<char>> {
    Seq::new(row.len(), |i: int| sql_literal(row[i]@))
}

/// The key column: the first column, or `id` when there are none.
pub open spec fn key_column(cols: Seq<Seq<char>>) -> Seq<char> {
    if cols.len() > 0 {
        cols[0]
    } else {
        "id"@
    }
}

/// The statement replaying an insert of `row` into `table` on a replica; none when the
/// row does not have one value per column.
pub open spec fn insert_sql(table: Seq<char>, cols: Seq<Seq<char>>, row: Seq<Value>) -> Option<Seq<char>> {
    if row.len() != cols.len() {
        None
    } else {
        Some(
            "INSERT INTO "@ + table + " ("@ + join_with(cols, ", "@) + ") VALUES ("@ + join_with(
                literals(row),
                ", "@,
            ) + ")"@,
        )
    }
}

/// The statement replaying the delete of `row` from `table`, by its first value under the
/// key column; none for an empty row.
pub open spec fn delete_sql(table: Seq<char>, cols: Seq<Seq<char>>, row: Seq<Value>) -> Option<Seq<char>> {
    if row.len() == 0 {
        None
    } else {
        Some("DELETE FROM "@ + table + " WHERE "@ + key_column(cols) + " = "@ + key_literal(Some(row[0]@)))
    }
}

/// `col = literal` for each of the first `n` columns other than the key column.
pub open spec fn set_clauses(cols: Seq<Seq<char>>, row: Seq<Value>, key: Seq<char>, n: int) -> Seq<Seq<char>>
    decreases n,
{
    if n <= 0 {
        Seq::empty()
    } else if cols[n - 1] != key {
        set_clauses(cols, row, key, n - 1).push(cols[n - 1] + " = "@ + sql_literal(row[n - 1]@))
    } else {
        set_clauses(cols, row, key, n - 1)
    }
}

/// The statement replaying an update to `row` in `table`: every column but the key set to
/// its value, for the row whose key column holds the first value; none when the row does
/// not have one value per column or there is nothing to set.
pub open spec fn update_sql(table: Seq<char>, cols: Seq<Seq<char>>, row: Seq<Value>) -> Option<Seq<char>> {
    let key = key_column(cols);
    let sets = set_clauses(cols, row, key, cols.len() as int);
    if row.len() != cols.len() || sets.len() == 0 {
        None
    } else {
        Some(
            "UPDATE "@ + table + " SET "@ + join_with(sets, ", "@) + " WHERE "@ + key + " = "@ + key_literal(
                if row.len() > 0 {
                    Some(row[0]@)
                } else {
                    None
                },
            ),
        )
    }
}

fn push_sql_literal(out: &mut Vec<char>, v: &Value)
    ensures
        final(out)@ == old(out)@ + sql_literal(v@),
{
    match v {
        Value::Null => push_str(out, "NULL"),
        Value::Integer(i) => push_i64_decimal(out, *i),
        Value::Text(s) | Value::Json(s) => {
            let ghost start = out@;
            out.push('\'');
            push_escaped(out, chars_of(s.as_str()).as_slice());
            out.push('\'');
            proof {
                reveal_strlit("'");
                assert(out@ =~= start + sql_literal(v@));
            }
        },
        Value::Boolean(b) => if *b {
            push_str(out, "TRUE")
        } else {
            push_str(out, "FALSE")
        },
    }
}

fn push_key_literal(out: &mut Vec<char>, v: Option<&Value>)
    ensures
        final(out)@ == old(out)@ + key_literal(
            match v {
                Some(x) => Some(x@),
                None => None,
            },
        ),
{
    match v {
        Some(Value::Integer(i)) => push_i64_decimal(out, *i),
        Some(Value::Text(s)) => {
            let ghost start = out@;
            out.push('\'');
            push_escaped(out, chars_of(s.as_str()).as_slice());
            out.push('\'');
            proof {
                reveal_strlit("'");
                assert(out@ =~= start + key_literal(Some(ValueView::Text(s@))));
            }
        },
        _ => push_str(out, "0"),
    }
}

fn push_literals(out: &mut Vec<char>, row: &[Value])
    ensures
        final(out)@ == old(out)@ + join_with(literals(row@), ", "@),
{
    let ghost start = out@;
    let ghost lits = literals(row@);
    let mut i: usize = 0;
    assert(lits.subrange(0, 0) =~= Seq::<Seq<char>>::empty());
    assert(out@ =~= start + join_with(lits.subrange(0, 0), ", "@));
    while i < row.len()
        invariant
            lits == literals(row@),
            i <= row@.len(),
            out@ == start + join_with(lits.subrange(0, i as int), ", "@),
        decreases row@.len() - i,
    {
        let ghost sub = lits.subrange(0, i + 1);
        assert(sub.drop_last() =~= lits.subrange(0, i as int));
        if i > 0 {
            push_str(out, ", ");
        }
        push_sql_literal(out, &row[i]);
        assert(out@ =~= start + join_with(sub, ", "@));
        i = i + 1;
    }
    assert(lits.subrange(0, lits.len() as int) =~= lits);
}

/// The statement that replays an insert of `row` into `table` on a replica, when the row
/// has one value per column.
pub fn insert_statement(table: &str, cols: &[String], row: &[Value]) -> (r: Option<String>)
    ensures
        match insert_sql(table@, string_seqs(cols@), row@) {
            Some(s) => r matches Some(t) && t@ == s,
            None => r is None,
        },
{
    if row.len() != cols.len() {
        return None;
    }
    let mut out: Vec<char> = Vec::new();
    push_str(&mut out, "INSERT INTO ");
    push_str(&mut out, table);
    push_str(&mut out, " (");
    push_joined(&mut out, cols, ", ");
    push_str(&mut out, ") VALUES (");
    push_literals(&mut out, row);
    push_str(&mut out, ")");
    assert(out@ =~= insert_sql(table@, string_seqs(cols@), row@).unwrap());
    Some(string_of(out.as_slice()))
}

fn push_key_column(out: &mut Vec<char>, cols: &[String])
    ensures
        final(out)@ == old(out)@ + key_column(string_seqs(cols@)),
{
    if cols.len() > 0 {
        push_str(out, cols[0].as_str());
    } else {
        push_str(out, "id");
    }
}

/// The statement that replays the delete of `row` from `table` on a replica, when the row
/// has a value.
pub fn delete_statement(table: &str, cols: &[String], row: &[Value]) -> (r: Option<String>)
    ensures
        match delete_sql(table@, string_seqs(cols@), row@) {
            Some(s) => r matches Some(t) && t@ == s,
            None => r is None,
        },
{
    if row.len() == 0 {
        return None;
    }
    let mut out: Vec<char> = Vec::new();
    push_str(&mut out, "DELETE FROM ");
    push_str(&mut out, table);
    push_str(&mut out, " WHERE ");
    push_key_column(&mut out, cols);
    push_str(&mut out, " = ");
    push_key_literal(&mut out, Some(&row[0]));
    assert(out@ =~= delete_sql(table@, string_seqs(cols@), row@).unwrap());
    Some(string_of(out.as_slice()))
}

/// The statement that replays an update to `row` in `table` on a replica, when the row has
/// one value per column and a column besides the key.
pub fn update_statement(table: &str, cols: &[String], row: &[Value]) -> (r: Option<String>)
    ensures
        match update_sql(table@, string_seqs(cols@), row@) {
            Some(s) => r matches Some(t) && t@ == s,
            None => r is None,
        },
{
    let ghost cs = string_seqs(cols@);
    if row.len() != cols.len() {
        return None;
    }
    let mut key: Vec<char> = Vec::new();
    push_key_column(&mut key, cols);
    let mut sets: Vec<String> = Vec::new();
    let mut i: usize = 0;
    while i < cols.len()
        invariant
            cs == string_seqs(cols@),
            row@.len() == cols@.len(),
            key@ == key_column(cs),
            i <= cols@.len(),
            string_seqs(sets@) == set_clauses(cs, row@, key@, i as int),
        decreases cols@.len() - i,
    {
        let c = chars_of(cols[i].as_str());
        if !chars_equal(c.as_slice(), key.as_slice()) {
            let mut clause: Vec<char> = Vec::new();
            push_chars(&mut clause, c.as_slice());
            push_str(&mut clause, " = ");
            push_sql_literal(&mut clause, &row[i]);
            let ghost before = sets@;
            sets.push(string_of(clause.as_slice()));
            assert(string_seqs(sets@) =~= string_seqs(before).push(clause@));
        }
        i = i + 1;
    }
    if sets.len() == 0 {
        return None;
    }
    let mut out: Vec<char> = Vec::new();
    push_str(&mut out, "UPDATE ");
    push_str(&mut out, table);
    push_str(&mut out, " SET ");
    push_joined(&mut out, sets.as_slice(), ", ");
    push_str(&mut out, " WHERE ");
    push_chars(&mut out, key.as_slice());
    push_str(&mut out, " = ");
    push_key_literal(&mut out, if row.len() > 0 { Some(&row[0]) } else { None });
    assert(out@ =~= update_sql(table@, cs, row@).unwrap());
    Some(string_of(out.as_slice()))
}

} // verus!
