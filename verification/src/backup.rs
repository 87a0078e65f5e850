use vstd::prelude::*;

use crate::exec::rows_view;
use crate::text::{
    char_vecs, escape_quotes, int_decimal, join_with, push_escaped, push_i64_decimal, push_joined, push_joined_sep,
    push_str, starts_with, string_of, string_seqs, chars_of,
};
use crate::http::request::{lines_of, spec_lines, tokens_of, ws_tokens};
use crate::migration::{spec_split_statements, split_statements};
use crate::text::{is_alphanumeric, spec_is_alphanumeric, spec_to_uppercase, spec_trim, to_uppercase, trim_chars};
use crate::types::schema::{ColumnType, ColumnView, IndexSchema, TableSchema};
use crate::types::value::{row_view, Value, ValueView};

verus! {

/// The parts joined end to end.
pub open spec fn concat(parts: Seq<Seq<char>>) -> Seq<char>
    decreases parts.len(),
{
    if parts.len() == 0 {
        Seq::empty()
    } else {
        concat(parts.drop_last()) + parts.last()
    }
}

/// The first lines of a dump.
pub open spec fn dump_header() -> Seq<char> {
    "-- ChocoBase Database Dump\n-- Format: SQL DDL + DML\n\n"@
}

/// A column type as DDL writes it.
pub open spec fn ddl_type(ty: ColumnType) -> Seq<char> {
    match ty {
        ColumnType::Integer => "INTEGER"@,
        ColumnType::Text => "TEXT"@,
        ColumnType::Boolean => "BOOLEAN"@,
        ColumnType::Json => "JSON"@,
    }
}

/// A column as CREATE TABLE declares it.
pub open spec fn column_def(c: ColumnView) -> Seq<char> {
    c.0 + " "@ + ddl_type(c.1) + if c.3 {
        " PRIMARY KEY"@
    } else if c.2 {
        " NOT NULL"@
    } else {
        Seq::empty()
    }
}

/// A value as an SQL literal.
pub open spec fn value_literal(v: ValueView) -> Seq<char> {
    match v {
        ValueView::Integer(i) => int_decimal(i as int),
        ValueView::Text(s) => "'"@ + escape_quotes(s) + "'"@,
        ValueView::Boolean(b) => if b {
            "TRUE"@
        } else {
            "FALSE"@
        },
        ValueView::Json(s) => "'"@ + escape_quotes(s) + "'"@,
        ValueView::Null => "NULL"@,
    }
}

/// A boolean dumps as the literal that reads back as it: `TRUE` for true, `FALSE` for
/// false, so the two values never share a literal.
pub proof fn lemma_boolean_literals(b: bool)
    ensures
        value_literal(ValueView::Boolean(b)) == (if b {
            "TRUE"@
        } else {
            "FALSE"@
        }),
        value_literal(ValueView::Boolean(b)) != value_literal(ValueView::Boolean(!b)),
{
    reveal_strlit("TRUE");
    reveal_strlit("FALSE");
    assert("TRUE"@.len() != "FALSE"@.len());
}

/// NULL dumps as `NULL`, and a text as its characters between single quotes with each
/// quote doubled.
pub proof fn lemma_null_and_text_literals(s: Seq<char>)
    ensures
        value_literal(ValueView::Null) == "NULL"@,
        value_literal(ValueView::Text(s)) == "'"@ + escape_quotes(s) + "'"@,
{
}

/// The statement that recreates a secondary index (none for a primary-key index).
pub open spec fn index_line(table: Seq<char>, name: Seq<char>, column: Seq<char>) -> Seq<char> {
    if starts_with(name, "pk_"@) {
        Seq::empty()
    } else {
        "CREATE INDEX "@ + name + " ON "@ + table + " ("@ + column + ");\n"@
    }
}

/// The statement that inserts one row again.
pub open spec fn insert_line(table: Seq<char>, columns: Seq<Seq<char>>, row: Seq<ValueView>) -> Seq<char> {
    "INSERT INTO "@ + table + " ("@ + join_with(columns, ", "@) + ") VALUES ("@ + join_with(
        Seq::new(row.len(), |i: int| value_literal(row[i])),
        ", "@,
    ) + ");\n"@
}

/// The part of a dump for one table: its DDL, its secondary indexes, its rows (when
/// they could be read: the result's column names and rows), then a blank line.
pub open spec fn table_dump(
    name: Seq<char>,
    cols: Seq<ColumnView>,
    indexes: Seq<(Seq<char>, Seq<char>)>,
    contents: Option<(Seq<Seq<char>>, Seq<Seq<ValueView>>)>,
) -> Seq<char> {
    "-- Table: "@ + name + "\n"@ + "CREATE TABLE "@ + name + " ("@ + join_with(
        Seq::new(cols.len(), |i: int| column_def(cols[i])),
        ", "@,
    ) + ");\n"@ + concat(Seq::new(indexes.len(), |i: int| index_line(name, indexes[i].0, indexes[i].1))) + match contents {
        Some((columns, rows)) => concat(Seq::new(rows.len(), |i: int| insert_line(name, columns, rows[i]))),
        None => Seq::empty(),
    } + "\n"@
}

fn push_value_literal(out: &mut Vec<char>, v: &Value)
    ensures
        final(out)@ == old(out)@ + value_literal(v@),
{
    let ghost start = out@;
    match v {
        Value::Integer(i) => push_i64_decimal(out, *i),
        Value::Text(s) | Value::Json(s) => {
            push_str(out, "'");
            push_escaped(out, chars_of(s.as_str()).as_slice());
            push_str(out, "'");
        },
        Value::Boolean(b) => if *b {
            push_str(out, "TRUE")
        } else {
            push_str(out, "FALSE")
        },
        Value::Null => push_str(out, "NULL"),
    }
    assert(out@ =~= start + value_literal(v@));
}

fn push_column_def(out: &mut Vec<char>, c: &crate::types::schema::Column)
    ensures
        final(out)@ == old(out)@ + column_def(c@),
{
    let ghost start = out@;
    push_str(out, c.name.as_str());
    push_str(out, " ");
    match c.ty {
        ColumnType::Integer => push_str(out, "INTEGER"),
        ColumnType::Text => push_str(out, "TEXT"),
        ColumnType::Boolean => push_str(out, "BOOLEAN"),
        ColumnType::Json => push_str(out, "JSON"),
    }
    if c.is_primary_key {
        push_str(out, " PRIMARY KEY");
    } else if c.not_null {
        push_str(out, " NOT NULL");
    }
    assert(out@ =~= start + column_def(c@));
}

fn insert_statement_line(table: &str, columns: &Vec<String>, row: &Vec<Value>) -> (r: Vec<char>)
    ensures
        r@ == insert_line(table@, string_seqs(columns@), row_view(row@)),
{
    let mut lits: Vec<Vec<char>> = Vec::new();
    let ghost rv = row_view(row@);
    let mut i: usize = 0;
    while i < row.len()
        invariant
            i <= row@.len(),
            rv == row_view(row@),
            lits@.len() == i,
            forall|j: int| 0 <= j < i ==> (#[trigger] lits@[j])@ == value_literal(rv[j]),
        decreases row@.len() - i,
    {
        let mut l: Vec<char> = Vec::new();
        push_value_literal(&mut l, &row[i]);
        assert(l@ =~= value_literal(rv[i as int]));
        lits.push(l);
        i = i + 1;
    }
    assert(char_vecs(lits@) =~= Seq::new(rv.len(), |k: int| value_literal(rv[k])));
    let mut out: Vec<char> = Vec::new();
    push_str(&mut out, "INSERT INTO ");
    push_str(&mut out, table);
    push_str(&mut out, " (");
    push_joined(&mut out, columns.as_slice(), ", ");
    push_str(&mut out, ") VALUES (");
    push_joined_sep(&mut out, &lits, ", ");
    push_str(&mut out, ");\n");
    out
}

/// The index names and columns of a table's indexes.
pub open spec fn index_pairs(idx: Seq<IndexSchema>) -> Seq<(Seq<char>, Seq<char>)> {
    Seq::new(idx.len(), |i: int| (idx[i].name@, idx[i].column@))
}

/// The part of a dump for one table (see `table_dump`).
pub fn dump_table(schema: &TableSchema, indexes: &Vec<IndexSchema>, contents: &Option<(Vec<String>, Vec<Vec<Value>>)>) -> (r: String)
    ensures
        r@ == table_dump(
            schema@.name,
            schema@.columns,
            index_pairs(indexes@),
            match contents {
                Some((c, rows)) => Some((string_seqs(c@), rows_view(rows@))),
                None => None,
            },
        ),
{
    let ghost name = schema@.name;
    let ghost cols = schema@.columns;
    let mut out: Vec<char> = Vec::new();
    push_str(&mut out, "-- Table: ");
    push_str(&mut out, schema.name.as_str());
    push_str(&mut out, "\n");
    push_str(&mut out, "CREATE TABLE ");
    push_str(&mut out, schema.name.as_str());
    push_str(&mut out, " (");
    let mut defs: Vec<Vec<char>> = Vec::new();
    let mut i: usize = 0;
    while i < schema.columns.len()
        invariant
            i <= schema.columns@.len(),
            cols == schema@.columns,
            defs@.len() == i,
            forall|j: int| 0 <= j < i ==> (#[trigger] defs@[j])@ == column_def(cols[j]),
        decreases schema.columns@.len() - i,
    {
        let mut d: Vec<char> = Vec::new();
        push_column_def(&mut d, &schema.columns[i]);
        assert(d@ =~= column_def(cols[i as int]));
        defs.push(d);
        i = i + 1;
    }
    assert(char_vecs(defs@) =~= Seq::new(cols.len(), |k: int| column_def(cols[k])));
    push_joined_sep(&mut out, &defs, ", ");
    push_str(&mut out, ");\n");
    let ghost ip = index_pairs(indexes@);
    let ghost idx_parts = Seq::new(ip.len(), |k: int| index_line(name, ip[k].0, ip[k].1));
    let ghost before_idx = out@;
    let mut k: usize = 0;
    assert(idx_parts.take(0) =~= Seq::<Seq<char>>::empty());
    while k < indexes.len()
        invariant
            k <= indexes@.len(),
            ip == index_pairs(indexes@),
            name == schema@.name,
            idx_parts == Seq::new(ip.len(), |q: int| index_line(name, ip[q].0, ip[q].1)),
            out@ == before_idx + concat(idx_parts.take(k as int)),
        decreases indexes@.len() - k,
    {
        assert(idx_parts.take(k + 1).drop_last() =~= idx_parts.take(k as int));
        let ix = &indexes[k];
        let nm = chars_of(ix.name.as_str());
        let pre = chars_of("pk_");
        if !crate::text::chars_starts_with(nm.as_slice(), pre.as_slice()) {
            push_str(&mut out, "CREATE INDEX ");
            push_str(&mut out, ix.name.as_str());
            push_str(&mut out, " ON ");
            push_str(&mut out, schema.name.as_str());
            push_str(&mut out, " (");
            push_str(&mut out, ix.column.as_str());
            push_str(&mut out, ");\n");
        }
        assert(out@ =~= before_idx + concat(idx_parts.take(k + 1)));
        k = k + 1;
    }
    assert(idx_parts.take(indexes@.len() as int) =~= idx_parts);
    let ghost before_rows = out@;
    match contents {
        Some((columns, rows)) => {
            let ghost rv = rows_view(rows@);
            let ghost cs = string_seqs(columns@);
            let ghost row_parts = Seq::new(rv.len(), |q: int| insert_line(name, cs, rv[q]));
            let mut j: usize = 0;
            assert(row_parts.take(0) =~= Seq::<Seq<char>>::empty());
            while j < rows.len()
                invariant
                    j <= rows@.len(),
                    rv == rows_view(rows@),
                    cs == string_seqs(columns@),
                    name == schema@.name,
                    row_parts == Seq::new(rv.len(), |q: int| insert_line(name, cs, rv[q])),
                    out@ == before_rows + concat(row_parts.take(j as int)),
                decreases rows@.len() - j,
            {
                assert(row_parts.take(j + 1).drop_last() =~= row_parts.take(j as int));
                assert(rv[j as int] == row_view(rows@[j as int]@));
                let line = insert_statement_line(schema.name.as_str(), columns, &rows[j]);
                crate::text::push_chars(&mut out, line.as_slice());
                assert(out@ =~= before_rows + concat(row_parts.take(j + 1)));
                j = j + 1;
            }
            assert(row_parts.take(rows@.len() as int) =~= row_parts);
        },
        None => {},
    }
    push_str(&mut out, "\n");
    assert(out@ =~= table_dump(
        name,
        cols,
        ip,
        match contents {
            Some((c, rows)) => Some((string_seqs(c@), rows_view(rows@))),
            None => None,
        },
    ));
    string_of(out.as_slice())
}

/// The first lines of a dump.
pub fn dump_start() -> (r: String)
    ensures
        r@ == dump_header(),
{
    String::from_str("-- ChocoBase Database Dump\n-- Format: SQL DDL + DML\n\n")
}

/// Whether a table is dumped: internal tables (named with a leading `_`) are not.
pub open spec fn dumped(name: Seq<char>) -> bool {
    !starts_with(name, "_"@)
}

/// Whether a table is dumped.
pub fn is_dumped(name: &str) -> (r: bool)
    ensures
        r == dumped(name@),
{
    !crate::text::chars_starts_with(chars_of(name).as_slice(), chars_of("_").as_slice())
}

/// The lines of a statement that a restore keeps: each trimmed, without the empty ones and
/// the `--` comments.
pub open spec fn kept_lines(ls: Seq<Seq<char>>) -> Seq<Seq<char>>
    decreases ls.len(),
{
    if ls.len() == 0 {
        Seq::empty()
    } else {
        let t = spec_trim(ls.last());
        let before = kept_lines(ls.drop_last());
        if t.len() > 0 && !starts_with(t, "--"@) {
            before.push(t)
        } else {
            before
        }
    }
}

/// A dumped statement as a restore runs it: its kept lines joined with spaces.
pub open spec fn cleaned_statement(stmt: Seq<char>) -> Seq<char> {
    join_with(kept_lines(spec_lines(stmt)), " "@)
}

/// Whether a character may stand in a table name.
pub open spec fn name_char(c: char) -> bool {
    spec_is_alphanumeric(c) || c == '_'
}

/// A token without the characters around it that cannot stand in a table name.
pub open spec fn trim_to_name(s: Seq<char>) -> Seq<char>
    decreases s.len(),
{
    if s.len() > 0 && !name_char(s[0]) {
        trim_to_name(s.drop_first())
    } else if s.len() > 0 && !name_char(s.last()) {
        trim_to_name(s.drop_last())
    } else {
        s
    }
}

/// The table a CREATE TABLE statement creates, which a restore drops first if it exists.
pub open spec fn created_table(stmt: Seq<char>) -> Option<Seq<char>> {
    if starts_with(spec_to_uppercase(stmt), "CREATE TABLE "@) && ws_tokens(stmt).len() >= 3 {
        Some(trim_to_name(ws_tokens(stmt)[2]))
    } else {
        None
    }
}

/// The steps of restoring a dump, in order: each statement cleaned (empty ones left out),
/// with the table to drop first when it creates one.
pub open spec fn restore_steps(stmts: Seq<Seq<char>>) -> Seq<(Option<Seq<char>>, Seq<char>)>
    decreases stmts.len(),
{
    if stmts.len() == 0 {
        Seq::empty()
    } else {
        let c = cleaned_statement(stmts.last());
        let before = restore_steps(stmts.drop_last());
        if c.len() == 0 {
            before
        } else {
            before.push((created_table(c), c))
        }
    }
}

/// One step of a restore: the table to drop first if it exists, and the statement.
#[derive(Debug, Clone, PartialEq)]
pub struct RestoreStep {
    pub drop_table: Option<String>,
    pub statement: String,
}

/// The content of restore steps.
pub open spec fn steps_view(v: Seq<RestoreStep>) -> Seq<(Option<Seq<char>>, Seq<char>)> {
    Seq::new(
        v.len(),
        |i: int|
            (
                match v[i].drop_table {
                    Some(t) => Some(t@),
                    None => None,
                },
                v[i].statement@,
            ),
    )
}

fn trim_name(s: &[char]) -> (r: Vec<char>)
    ensures
        r@ == trim_to_name(s@),
{
    let mut lo: usize = 0;
    let n = s.len();
    assert(s@.subrange(0, n as int) =~= s@);
    while lo < n && !(is_alphanumeric(s[lo]) || s[lo] == '_')
        invariant
            lo <= n,
            n == s@.len(),
            trim_to_name(s@) == trim_to_name(s@.subrange(lo as int, n as int)),
        decreases n - lo,
    {
        assert(s@.subrange(lo as int, n as int)[0] == s@[lo as int]);
        assert(s@.subrange(lo as int, n as int).drop_first() =~= s@.subrange(lo + 1, n as int));
        lo = lo + 1;
    }
    let mut hi: usize = n;
    while hi > lo && !(is_alphanumeric(s[hi - 1]) || s[hi - 1] == '_')
        invariant
            lo <= hi <= n,
            n == s@.len(),
            trim_to_name(s@) == trim_to_name(s@.subrange(lo as int, hi as int)),
            lo < hi ==> name_char(s@[lo as int]),
        decreases hi - lo,
    {
        let ghost t = s@.subrange(lo as int, hi as int);
        assert(t[0] == s@[lo as int]);
        assert(t.last() == s@[hi - 1]);
        assert(t.drop_last() =~= s@.subrange(lo as int, hi - 1));
        hi = hi - 1;
    }
    let ghost t = s@.subrange(lo as int, hi as int);
    if lo < hi {
        assert(t[0] == s@[lo as int]);
        assert(t.last() == s@[hi - 1]);
    }
    let mut out: Vec<char> = Vec::new();
    let mut i = lo;
    while i < hi
        invariant
            lo <= i <= hi,
            hi <= n,
            n == s@.len(),
            out@ == s@.subrange(lo as int, i as int),
        decreases hi - i,
    {
        out.push(s[i]);
        i = i + 1;
        assert(out@ =~= s@.subrange(lo as int, i as int));
    }
    out
}

fn clean_statement(stmt: &str) -> (r: Vec<char>)
    ensures
        r@ == cleaned_statement(stmt@),
{
    let ls = lines_of(stmt);
    let ghost lv = spec_lines(stmt@);
    let mut kept: Vec<Vec<char>> = Vec::new();
    let mut i: usize = 0;
    assert(lv.take(0) =~= Seq::<Seq<char>>::empty());
    while i < ls.len()
        invariant
            i <= ls@.len(),
            char_vecs(ls@) == lv,
            char_vecs(kept@) == kept_lines(lv.take(i as int)),
        decreases ls@.len() - i,
    {
        assert(lv.take(i + 1).drop_last() =~= lv.take(i as int));
        assert(lv.take(i + 1).last() == ls@[i as int]@);
        let t = trim_chars(ls[i].as_slice());
        let dash = chars_of("--");
        let ghost before = char_vecs(kept@);
        if t.len() > 0 && !crate::text::chars_starts_with(t.as_slice(), dash.as_slice()) {
            kept.push(t);
            assert(char_vecs(kept@) =~= before.push(kept@[kept@.len() - 1]@));
        }
        i = i + 1;
    }
    assert(lv.take(lv.len() as int) =~= lv);
    let mut out: Vec<char> = Vec::new();
    push_joined_sep(&mut out, &kept, " ");
    assert(out@ =~= cleaned_statement(stmt@));
    out
}

fn created_table_of(c: &[char]) -> (r: Option<String>)
    ensures
        match created_table(c@) {
            Some(t) => r matches Some(x) && x@ == t,
            None => r is None,
        },
{
    let text = string_of(c);
    let up = to_uppercase(text.as_str());
    if !crate::text::chars_starts_with(chars_of(up.as_str()).as_slice(), chars_of("CREATE TABLE ").as_slice()) {
        return None;
    }
    let toks = tokens_of(c);
    if toks.len() < 3 {
        return None;
    }
    assert(char_vecs(toks@)[2] == toks@[2]@);
    Some(string_of(trim_name(toks[2].as_slice()).as_slice()))
}

/// The steps of restoring a dump (see `restore_steps`): the caller runs them in one
/// transaction, dropping a table before it is created again, and rolls back on the
/// first failure.
pub fn restore_plan(sql: &str) -> (r: Vec<RestoreStep>)
    ensures
        steps_view(r@) == restore_steps(spec_split_statements(sql@)),
{
    let stmts = split_statements(sql);
    let ghost sv = spec_split_statements(sql@);
    assert(Seq::new(stmts@.len(), |i: int| stmts@[i]@) == sv);
    let mut out: Vec<RestoreStep> = Vec::new();
    let mut i: usize = 0;
    assert(sv.take(0) =~= Seq::<Seq<char>>::empty());
    assert(steps_view(out@) =~= Seq::<(Option<Seq<char>>, Seq<char>)>::empty());
    while i < stmts.len()
        invariant
            i <= stmts@.len(),
            sv.len() == stmts@.len(),
            forall|j: int| 0 <= j < sv.len() ==> #[trigger] sv[j] == stmts@[j]@,
            steps_view(out@) == restore_steps(sv.take(i as int)),
        decreases stmts@.len() - i,
    {
        assert(sv.take(i + 1).drop_last() =~= sv.take(i as int));
        assert(sv.take(i + 1).last() == stmts@[i as int]@);
        let c = clean_statement(stmts[i].as_str());
        if c.len() > 0 {
            let ghost before = steps_view(out@);
            let d = created_table_of(c.as_slice());
            out.push(RestoreStep { drop_table: d, statement: string_of(c.as_slice()) });
            assert(steps_view(out@) =~= before.push(steps_view(out@)[out@.len() - 1]));
        }
        i = i + 1;
    }
    assert(sv.take(sv.len() as int) =~= sv);
    out
}

} // verus!
