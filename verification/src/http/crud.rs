use vstd::prelude::*;

use crate::http::rest::{
    build_where_clauses, param_view, params_view, parse_select_embedding, select_columns, select_pieces,
    select_relations, where_clauses,
};
use crate::text::{
    chars_of, escape_quotes, eq_ignore_ascii_case, find_chars, find_first, join_with, push_chars,
    push_escaped, push_joined, push_str, split_once, split_once_char, str_eq_ignore_ascii_case,
    str_equal, string_of, string_seqs, spec_to_lowercase, to_lowercase, nat_decimal, push_u64_decimal,
};

verus! {

/// A JSON value as an SQL statement needs it: null, a boolean, a number by its text, a
/// string, or an array or object by its JSON text.
#[derive(Debug, Clone)]
pub enum JsonScalar {
    Null,
    Bool(bool),
    Number(String),
    Str(String),
    Composite(String),
}

/// The content of a JSON value.
pub enum JsonScalarView {
    Null,
    Bool(bool),
    Number(Seq<char>),
    Str(Seq<char>),
    Composite(Seq<char>),
}

impl View for JsonScalar {
    type V = JsonScalarView;

    open spec fn view(&self) -> JsonScalarView {
        match self {
            JsonScalar::Null => JsonScalarView::Null,
            JsonScalar::Bool(b) => JsonScalarView::Bool(*b),
            JsonScalar::Number(t) => JsonScalarView::Number(t@),
            JsonScalar::Str(s) => JsonScalarView::Str(s@),
            JsonScalar::Composite(t) => JsonScalarView::Composite(t@),
        }
    }
}

/// A JSON value as an SQL literal: `NULL`, `TRUE`/`FALSE`, the number's text, or quoted
/// text with quotes doubled.
pub open spec fn json_literal(v: JsonScalarView) -> Seq<char> {
    match v {
        JsonScalarView::Null => "NULL"@,
        JsonScalarView::Bool(b) => if b {
            "TRUE"@
        } else {
            "FALSE"@
        },
        JsonScalarView::Number(t) => t,
        JsonScalarView::Str(s) => "'"@ + escape_quotes(s) + "'"@,
        JsonScalarView::Composite(t) => "'"@ + escape_quotes(t) + "'"@,
    }
}

fn push_json_literal(out: &mut Vec<char>, v: &JsonScalar)
    ensures
        final(out)@ == old(out)@ + json_literal(v@),
{
    match v {
        JsonScalar::Null => push_str(out, "NULL"),
        JsonScalar::Bool(b) => if *b {
            push_str(out, "TRUE")
        } else {
            push_str(out, "FALSE")
        },
        JsonScalar::Number(t) => push_str(out, t.as_str()),
        JsonScalar::Str(s) | JsonScalar::Composite(s) => {
            let ghost start = out@;
            out.push('\'');
            push_escaped(out, chars_of(s.as_str()).as_slice());
            out.push('\'');
            proof {
                reveal_strlit("'");
            }
            assert(out@ =~= start + json_literal(v@));
        },
    }
}

/// A JSON value as an SQL literal.
pub fn json_to_sql_literal(v: &JsonScalar) -> (r: String)
    ensures
        r@ == json_literal(v@),
{
    let mut out: Vec<char> = Vec::new();
    push_json_literal(&mut out, v);
    assert(out@ =~= json_literal(v@));
    string_of(out.as_slice())
}

/// The fields of a JSON object.
pub open spec fn object_view(f: Seq<(String, JsonScalar)>) -> Seq<(Seq<char>, JsonScalarView)> {
    Seq::new(f.len(), |i: int| (f[i].0@, f[i].1@))
}

/// The value of the first field named `k`.
pub open spec fn field_value(f: Seq<(Seq<char>, JsonScalarView)>, k: Seq<char>) -> Option<JsonScalarView>
    decreases f.len(),
{
    if f.len() == 0 {
        None
    } else if f[0].0 == k {
        Some(f[0].1)
    } else {
        field_value(f.drop_first(), k)
    }
}

/// The value of the first parameter named `k`.
pub open spec fn param_value(ps: Seq<(Seq<char>, Seq<char>)>, k: Seq<char>) -> Option<Seq<char>>
    decreases ps.len(),
{
    if ps.len() == 0 {
        None
    } else if ps[0].0 == k {
        Some(ps[0].1)
    } else {
        param_value(ps.drop_first(), k)
    }
}

fn get_field<'a>(fields: &'a Vec<(String, JsonScalar)>, k: &str) -> (r: Option<&'a JsonScalar>)
    ensures
        match field_value(object_view(fields@), k@) {
            Some(v) => r matches Some(x) && x@ == v,
            None => r is None,
        },
{
    let ghost fv = object_view(fields@);
    let mut i: usize = 0;
    assert(fv.skip(0) =~= fv);
    while i < fields.len()
        invariant
            fv == object_view(fields@),
            i <= fv.len(),
            field_value(fv, k@) == field_value(fv.skip(i as int), k@),
        decreases fv.len() - i,
    {
        assert(fv.skip(i as int)[0] == (fields@[i as int].0@, fields@[i as int].1@));
        if str_equal(fields[i].0.as_str(), k) {
            return Some(&fields[i].1);
        }
        assert(fv.skip(i as int).drop_first() =~= fv.skip(i + 1));
        i = i + 1;
    }
    None
}

/// The value of the first query parameter named `k`.
pub fn get_param<'a>(params: &'a [(String, String)], k: &str) -> (r: Option<&'a String>)
    ensures
        match param_value(params_view(params@), k@) {
            Some(v) => r matches Some(x) && x@ == v,
            None => r is None,
        },
{
    let ghost pv = params_view(params@);
    let mut i: usize = 0;
    assert(pv.skip(0) =~= pv);
    while i < params.len()
        invariant
            pv == params_view(params@),
            i <= pv.len(),
            param_value(pv, k@) == param_value(pv.skip(i as int), k@),
        decreases pv.len() - i,
    {
        assert(pv.skip(i as int)[0] == param_view(params@[i as int]));
        if str_equal(params[i].0.as_str(), k) {
            return Some(&params[i].1);
        }
        assert(pv.skip(i as int).drop_first() =~= pv.skip(i + 1));
        i = i + 1;
    }
    None
}

/// ` WHERE ` and the conditions joined with ` AND `, or nothing without conditions.
pub open spec fn where_suffix(ps: Seq<(Seq<char>, Seq<char>)>) -> Seq<char> {
    let cs = where_clauses(ps);
    if cs.len() == 0 {
        Seq::empty()
    } else {
        " WHERE "@ + join_with(cs, " AND "@)
    }
}

fn push_where(out: &mut Vec<char>, params: &[(String, String)])
    ensures
        final(out)@ == old(out)@ + where_suffix(params_view(params@)),
{
    let cs = build_where_clauses(params);
    if cs.len() > 0 {
        push_str(out, " WHERE ");
        push_joined(out, cs.as_slice(), " AND ");
    }
}

/// ` ORDER BY` for an `order` parameter `column.direction` (descending for `desc` in any
/// case, else ascending) or a bare `column` (ascending); nothing without one.
pub open spec fn order_suffix(ps: Seq<(Seq<char>, Seq<char>)>) -> Seq<char> {
    match param_value(ps, "order"@) {
        None => Seq::empty(),
        Some(o) => match split_once(o, '.') {
            Some((col, dir)) => " ORDER BY "@ + col + " "@ + if eq_ignore_ascii_case(dir, "desc"@) {
                "DESC"@
            } else {
                "ASC"@
            },
            None => " ORDER BY "@ + o + " ASC"@,
        },
    }
}

/// The columns a `select` parameter (`*` when absent) asks for: its columns joined with
/// `, `, or `*` when it names only embedded tables.
pub open spec fn select_list(ps: Seq<(Seq<char>, Seq<char>)>) -> Seq<char> {
    let s = match param_value(ps, "select"@) {
        Some(v) => v,
        None => "*"@,
    };
    let pieces = select_pieces(s);
    let cols = select_columns(pieces);
    let top = if cols.len() == 0 && select_relations(pieces).len() == 0 {
        seq!["*"@]
    } else {
        cols
    };
    if top.len() == 0 {
        "*"@
    } else {
        join_with(top, ", "@)
    }
}

/// The query that reads rows of `table` for a PostgREST request with these parameters.
pub open spec fn spec_select_sql(table: Seq<char>, ps: Seq<(Seq<char>, Seq<char>)>) -> Seq<char> {
    "SELECT "@ + select_list(ps) + " FROM "@ + table + where_suffix(ps) + order_suffix(ps)
}

/// Whether every parameter value is short enough to scan.
pub open spec fn params_scannable(ps: Seq<(Seq<char>, Seq<char>)>) -> bool {
    forall|i: int| 0 <= i < ps.len() ==> (#[trigger] ps[i]).1.len() <= 0x7fff_ffff
}

/// The query that reads rows of `table` for a PostgREST request with these parameters.
pub fn select_sql(table: &str, params: &[(String, String)]) -> (r: String)
    requires
        params_scannable(params_view(params@)),
    ensures
        r@ == spec_select_sql(table@, params_view(params@)),
{
    let ghost ps = params_view(params@);
    let star = String::from_str("*");
    proof {
        reveal_strlit("*");
    }
    let sel = match get_param(params, "select") {
        Some(v) => v,
        None => &star,
    };
    proof {
        if param_value(ps, "select"@) is Some {
            lemma_param_value_in(ps, "select"@);
        }
    }
    let (top, _) = parse_select_embedding(sel.as_str());
    let mut out: Vec<char> = Vec::new();
    push_str(&mut out, "SELECT ");
    if top.len() == 0 {
        push_str(&mut out, "*");
    } else {
        push_joined(&mut out, top.as_slice(), ", ");
    }
    push_str(&mut out, " FROM ");
    push_str(&mut out, table);
    push_where(&mut out, params);
    match get_param(params, "order") {
        None => {},
        Some(o) => match split_once_char(chars_of(o.as_str()).as_slice(), '.') {
            Some((col, dir)) => {
                push_str(&mut out, " ORDER BY ");
                push_chars(&mut out, col.as_slice());
                push_str(&mut out, " ");
                if str_eq_ignore_ascii_case(string_of(dir.as_slice()).as_str(), "desc") {
                    push_str(&mut out, "DESC");
                } else {
                    push_str(&mut out, "ASC");
                }
            },
            None => {
                push_str(&mut out, " ORDER BY ");
                push_str(&mut out, o.as_str());
                push_str(&mut out, " ASC");
            },
        },
    }
    assert(out@ =~= spec_select_sql(table@, ps));
    string_of(out.as_slice())
}

/// A parameter's value is one of the values.
proof fn lemma_param_value_in(ps: Seq<(Seq<char>, Seq<char>)>, k: Seq<char>)
    requires
        param_value(ps, k) is Some,
    ensures
        exists|i: int| 0 <= i < ps.len() && ps[i].1 == param_value(ps, k).unwrap(),
    decreases ps.len(),
{
    if ps[0].0 != k {
        lemma_param_value_in(ps.drop_first(), k);
        let i = choose|i: int| 0 <= i < ps.drop_first().len() && ps.drop_first()[i].1 == param_value(ps, k).unwrap();
        assert(ps[i + 1] == ps.drop_first()[i]);
    } else {
        assert(ps[0].1 == param_value(ps, k).unwrap());
    }
}

/// The statement that deletes the rows of `table` the parameters select.
pub open spec fn spec_delete_sql(table: Seq<char>, ps: Seq<(Seq<char>, Seq<char>)>) -> Seq<char> {
    "DELETE FROM "@ + table + where_suffix(ps) + " RETURNING *"@
}

/// The statement that deletes the rows of `table` the parameters select.
pub fn delete_sql(table: &str, params: &[(String, String)]) -> (r: String)
    ensures
        r@ == spec_delete_sql(table@, params_view(params@)),
{
    let mut out: Vec<char> = Vec::new();
    push_str(&mut out, "DELETE FROM ");
    push_str(&mut out, table);
    push_where(&mut out, params);
    push_str(&mut out, " RETURNING *");
    assert(out@ =~= spec_delete_sql(table@, params_view(params@)));
    string_of(out.as_slice())
}

/// `field = literal` for every field of an object, in order.
pub open spec fn assignments(f: Seq<(Seq<char>, JsonScalarView)>) -> Seq<Seq<char>> {
    Seq::new(f.len(), |i: int| f[i].0 + " = "@ + json_literal(f[i].1))
}

/// The statement that sets the object's fields in the rows of `table` the parameters
/// select; none for an object without fields.
pub open spec fn spec_patch_sql(
    table: Seq<char>,
    f: Seq<(Seq<char>, JsonScalarView)>,
    ps: Seq<(Seq<char>, Seq<char>)>,
) -> Option<Seq<char>> {
    if f.len() == 0 {
        None
    } else {
        Some("UPDATE "@ + table + " SET "@ + join_with(assignments(f), ", "@) + where_suffix(ps) + " RETURNING *"@)
    }
}

/// The statement that sets the object's fields in the rows the parameters select.
pub fn patch_sql(table: &str, fields: &Vec<(String, JsonScalar)>, params: &[(String, String)]) -> (r: Option<String>)
    ensures
        match spec_patch_sql(table@, object_view(fields@), params_view(params@)) {
            Some(s) => r matches Some(x) && x@ == s,
            None => r is None,
        },
{
    if fields.len() == 0 {
        return None;
    }
    let ghost fv = object_view(fields@);
    let ghost asg = assignments(fv);
    let mut out: Vec<char> = Vec::new();
    push_str(&mut out, "UPDATE ");
    push_str(&mut out, table);
    push_str(&mut out, " SET ");
    let ghost start = out@;
    let mut i: usize = 0;
    assert(asg.subrange(0, 0) =~= Seq::<Seq<char>>::empty());
    assert(out@ =~= start + join_with(asg.subrange(0, 0), ", "@));
    while i < fields.len()
        invariant
            fv == object_view(fields@),
            asg == assignments(fv),
            i <= fields@.len(),
            out@ == start + join_with(asg.subrange(0, i as int), ", "@),
        decreases fields@.len() - i,
    {
        let ghost sub = asg.subrange(0, i + 1);
        assert(sub.drop_last() =~= asg.subrange(0, i as int));
        if i > 0 {
            push_str(&mut out, ", ");
        }
        push_str(&mut out, fields[i].0.as_str());
        push_str(&mut out, " = ");
        push_json_literal(&mut out, &fields[i].1);
        assert(out@ =~= start + join_with(sub, ", "@));
        i = i + 1;
    }
    assert(asg.subrange(0, asg.len() as int) =~= asg);
    push_where(&mut out, params);
    push_str(&mut out, " RETURNING *");
    assert(out@ =~= spec_patch_sql(table@, fv, params_view(params@)).unwrap());
    Some(string_of(out.as_slice()))
}

/// The columns of the table that the object gives, in the table's order, each with the
/// literal of its value.
pub open spec fn insert_parts(cols: Seq<Seq<char>>, f: Seq<(Seq<char>, JsonScalarView)>) -> Seq<(Seq<char>, Seq<char>)>
    decreases cols.len(),
{
    if cols.len() == 0 {
        Seq::empty()
    } else {
        let prev = insert_parts(cols.drop_last(), f);
        match field_value(f, cols.last()) {
            Some(v) => prev.push((cols.last(), json_literal(v))),
            None => prev,
        }
    }
}

/// The statement that inserts the object as a row of `table` with columns `cols`; none
/// when the object gives none of them.
pub open spec fn spec_insert_row_sql(
    table: Seq<char>,
    cols: Seq<Seq<char>>,
    f: Seq<(Seq<char>, JsonScalarView)>,
) -> Option<Seq<char>> {
    let parts = insert_parts(cols, f);
    if parts.len() == 0 {
        None
    } else {
        Some(
            "INSERT INTO "@ + table + " ("@ + join_with(parts.map_values(|p: (Seq<char>, Seq<char>)| p.0), ", "@)
                + ") VALUES ("@ + join_with(parts.map_values(|p: (Seq<char>, Seq<char>)| p.1), ", "@)
                + ") RETURNING *"@,
        )
    }
}

/// The statement that inserts the object as a row of `table` whose columns are `cols`.
pub fn insert_row_sql(table: &str, cols: &[String], fields: &Vec<(String, JsonScalar)>) -> (r: Option<String>)
    ensures
        match spec_insert_row_sql(table@, string_seqs(cols@), object_view(fields@)) {
            Some(s) => r matches Some(x) && x@ == s,
            None => r is None,
        },
{
    let ghost cs = string_seqs(cols@);
    let ghost fv = object_view(fields@);
    let mut names: Vec<String> = Vec::new();
    let mut lits: Vec<String> = Vec::new();
    let mut i: usize = 0;
    assert(cs.take(0) =~= Seq::<Seq<char>>::empty());
    while i < cols.len()
        invariant
            cs == string_seqs(cols@),
            fv == object_view(fields@),
            i <= cols@.len(),
            string_seqs(names@) == insert_parts(cs.take(i as int), fv).map_values(|p: (Seq<char>, Seq<char>)| p.0),
            string_seqs(lits@) == insert_parts(cs.take(i as int), fv).map_values(|p: (Seq<char>, Seq<char>)| p.1),
        decreases cols@.len() - i,
    {
        assert(cs.take(i + 1).drop_last() =~= cs.take(i as int));
        assert(cs.take(i + 1).last() == cols@[i as int]@);
        match get_field(fields, cols[i].as_str()) {
            Some(v) => {
                let ghost bn = names@;
                let ghost bl = lits@;
                names.push(string_of(chars_of(cols[i].as_str()).as_slice()));
                lits.push(json_to_sql_literal(v));
                assert(string_seqs(names@) =~= string_seqs(bn).push(cols@[i as int]@));
                assert(string_seqs(lits@) =~= string_seqs(bl).push(json_literal(v@)));
                assert(insert_parts(cs.take(i + 1), fv).map_values(|p: (Seq<char>, Seq<char>)| p.0) =~= insert_parts(
                    cs.take(i as int),
                    fv,
                ).map_values(|p: (Seq<char>, Seq<char>)| p.0).push(cols@[i as int]@));
                assert(insert_parts(cs.take(i + 1), fv).map_values(|p: (Seq<char>, Seq<char>)| p.1) =~= insert_parts(
                    cs.take(i as int),
                    fv,
                ).map_values(|p: (Seq<char>, Seq<char>)| p.1).push(json_literal(v@)));
            },
            None => {},
        }
        i = i + 1;
    }
    assert(cs.take(cs.len() as int) =~= cs);
    if names.len() == 0 {
        return None;
    }
    let mut out: Vec<char> = Vec::new();
    push_str(&mut out, "INSERT INTO ");
    push_str(&mut out, table);
    push_str(&mut out, " (");
    push_joined(&mut out, names.as_slice(), ", ");
    push_str(&mut out, ") VALUES (");
    push_joined(&mut out, lits.as_slice(), ", ");
    push_str(&mut out, ") RETURNING *");
    assert(out@ =~= spec_insert_row_sql(table@, cs, fv).unwrap());
    Some(string_of(out.as_slice()))
}

/// Whether `s` contains `pat`.
pub open spec fn contains_text(s: Seq<char>, pat: Seq<char>) -> bool {
    find_first(s, pat) is Some
}

fn has_text(s: &str, pat: &str) -> (b: bool)
    ensures
        b == contains_text(s@, pat@),
{
    find_chars(chars_of(s).as_slice(), chars_of(pat).as_slice()).is_some()
}

/// Whether a failed insert is retried as an update of the row with its primary key: for
/// `PUT`, an `on_conflict` parameter, `resolution=merge-duplicates`, or an error (in lower
/// case) about a primary key or a row that already exists.
pub open spec fn spec_should_upsert(method: Seq<char>, ps: Seq<(Seq<char>, Seq<char>)>, error: Seq<char>) -> bool {
    let e = spec_to_lowercase(error);
    ||| method == "PUT"@
    ||| param_value(ps, "on_conflict"@) is Some
    ||| param_value(ps, "resolution"@) == Some("merge-duplicates"@)
    ||| contains_text(e, "primary key"@)
    ||| contains_text(e, "already exists"@)
}

/// Whether a failed insert is retried as an update, given the request method, the query
/// parameters and the text of the insert's error.
pub fn should_upsert(method: &str, params: &[(String, String)], error: &str) -> (b: bool)
    ensures
        b == spec_should_upsert(method@, params_view(params@), error@),
{
    let e = to_lowercase(error);
    let merge = match get_param(params, "resolution") {
        Some(v) => str_equal(v.as_str(), "merge-duplicates"),
        None => false,
    };
    str_equal(method, "PUT") || get_param(params, "on_conflict").is_some() || merge || has_text(
        e.as_str(),
        "primary key",
    ) || has_text(e.as_str(), "already exists")
}

/// `field = literal` for the fields other than the key that name columns, in order.
pub open spec fn upsert_sets(cols: Seq<Seq<char>>, key: Seq<char>, f: Seq<(Seq<char>, JsonScalarView)>) -> Seq<
    Seq<char>,
>
    decreases f.len(),
{
    if f.len() == 0 {
        Seq::empty()
    } else {
        let prev = upsert_sets(cols, key, f.drop_last());
        let (k, v) = f.last();
        if k != key && cols.contains(k) {
            prev.push(k + " = "@ + json_literal(v))
        } else {
            prev
        }
    }
}

/// The update that replaces an insert refused for a duplicate key: the object's other
/// column fields set on the row whose key column `key` holds the object's key; none
/// without a key value or anything to set.
pub open spec fn spec_upsert_sql(
    table: Seq<char>,
    cols: Seq<Seq<char>>,
    key: Seq<char>,
    f: Seq<(Seq<char>, JsonScalarView)>,
) -> Option<Seq<char>> {
    let sets = upsert_sets(cols, key, f);
    match field_value(f, key) {
        None => None,
        Some(kv) => if sets.len() == 0 {
            None
        } else {
            Some(
                "UPDATE "@ + table + " SET "@ + join_with(sets, ", "@) + " WHERE "@ + key + " = "@ + json_literal(kv)
                    + " RETURNING *"@,
            )
        },
    }
}

/// The update that replaces an insert refused for a duplicate key.
pub fn upsert_sql(table: &str, cols: &[String], key: &str, fields: &Vec<(String, JsonScalar)>) -> (r: Option<
    String,
>)
    ensures
        match spec_upsert_sql(table@, string_seqs(cols@), key@, object_view(fields@)) {
            Some(s) => r matches Some(x) && x@ == s,
            None => r is None,
        },
{
    let ghost cs = string_seqs(cols@);
    let ghost fv = object_view(fields@);
    let kv = match get_field(fields, key) {
        Some(v) => v,
        None => {
            return None;
        },
    };
    let mut sets: Vec<String> = Vec::new();
    let mut i: usize = 0;
    assert(fv.take(0) =~= Seq::<(Seq<char>, JsonScalarView)>::empty());
    while i < fields.len()
        invariant
            cs == string_seqs(cols@),
            fv == object_view(fields@),
            i <= fields@.len(),
            string_seqs(sets@) == upsert_sets(cs, key@, fv.take(i as int)),
        decreases fields@.len() - i,
    {
        assert(fv.take(i + 1).drop_last() =~= fv.take(i as int));
        assert(fv.take(i + 1).last() == (fields@[i as int].0@, fields@[i as int].1@));
        let k = fields[i].0.as_str();
        let mut known = false;
        let mut j: usize = 0;
        while j < cols.len()
            invariant
                cs == string_seqs(cols@),
                j <= cols@.len(),
                known == exists|x: int| 0 <= x < j && cs[x] == k@,
            decreases cols@.len() - j,
        {
            assert(cs[j as int] == cols@[j as int]@);
            if str_equal(cols[j].as_str(), k) {
                known = true;
            }
            j = j + 1;
        }
        assert(known == cs.contains(k@));
        if !str_equal(k, key) && known {
            let mut clause: Vec<char> = Vec::new();
            push_str(&mut clause, k);
            push_str(&mut clause, " = ");
            push_json_literal(&mut clause, &fields[i].1);
            let ghost before = sets@;
            sets.push(string_of(clause.as_slice()));
            assert(string_seqs(sets@) =~= string_seqs(before).push(clause@));
        }
        i = i + 1;
    }
    assert(fv.take(fv.len() as int) =~= fv);
    if sets.len() == 0 {
        return None;
    }
    let mut out: Vec<char> = Vec::new();
    push_str(&mut out, "UPDATE ");
    push_str(&mut out, table);
    push_str(&mut out, " SET ");
    push_joined(&mut out, sets.as_slice(), ", ");
    push_str(&mut out, " WHERE ");
    push_str(&mut out, key);
    push_str(&mut out, " = ");
    push_json_literal(&mut out, kv);
    push_str(&mut out, " RETURNING *");
    assert(out@ =~= spec_upsert_sql(table@, cs, key@, fv).unwrap());
    Some(string_of(out.as_slice()))
}

/// The rows a page shows: those from `offset` on, at most `limit` of them.
pub open spec fn page_len(total: nat, offset: nat, limit: Option<usize>) -> nat {
    let rest = if offset <= total {
        (total - offset) as nat
    } else {
        0
    };
    match limit {
        Some(l) => if l < rest {
            l as nat
        } else {
            rest
        },
        None => rest,
    }
}

/// The `Content-Range` of a page: `first-last/total`, the last index capped by the last
/// row, or `*/0` when there are no rows.
pub open spec fn spec_content_range(total: nat, offset: nat, shown: nat) -> Seq<char> {
    if total == 0 {
        "*/0"@
    } else {
        let end = if offset + shown >= 1 {
            (offset + shown - 1) as nat
        } else {
            0
        };
        let last = if end < total - 1 {
            end
        } else {
            (total - 1) as nat
        };
        nat_decimal(offset) + "-"@ + nat_decimal(last) + "/"@ + nat_decimal(total)
    }
}

/// The number of rows a page shows and its `Content-Range`, for `total` rows, an `offset`
/// and an optional `limit`.
pub fn page_range(total: usize, offset: usize, limit: Option<usize>) -> (r: (usize, String))
    ensures
        r.0 == page_len(total as nat, offset as nat, limit),
        r.1@ == spec_content_range(total as nat, offset as nat, r.0 as nat),
{
    let rest = if offset <= total {
        total - offset
    } else {
        0
    };
    let shown = match limit {
        Some(l) => if l < rest {
            l
        } else {
            rest
        },
        None => rest,
    };
    let mut out: Vec<char> = Vec::new();
    if total == 0 {
        push_str(&mut out, "*/0");
    } else {
        let end = (offset + shown).saturating_sub(1);
        let last = if end < total - 1 {
            end
        } else {
            total - 1
        };
        push_u64_decimal(&mut out, offset as u64);
        push_str(&mut out, "-");
        push_u64_decimal(&mut out, last as u64);
        push_str(&mut out, "/");
        push_u64_decimal(&mut out, total as u64);
    }
    assert(out@ =~= spec_content_range(total as nat, offset as nat, shown as nat));
    (shown, string_of(out.as_slice()))
}

/// What the client asked of the response's shape.
#[derive(Debug, Clone, Copy, PartialEq, Eq, Structural)]
pub struct ResponsePrefs {
    /// `Prefer: return=minimal`: no rows back.
    pub minimal: bool,
    /// A row count was asked for, by `Prefer: count=...` or a `count` parameter.
    pub count: bool,
    /// `Accept: application/vnd.pgrst.object+json`: a single object instead of an array.
    pub single_object: bool,
}

/// The response preferences given the `Prefer` and `Accept` headers and the parameters;
/// the `Prefer` header is read in lower case.
pub open spec fn spec_response_prefs(
    prefer: Option<Seq<char>>,
    accept: Option<Seq<char>>,
    ps: Seq<(Seq<char>, Seq<char>)>,
) -> ResponsePrefs {
    let p = match prefer {
        Some(h) => spec_to_lowercase(h),
        None => Seq::empty(),
    };
    ResponsePrefs {
        minimal: contains_text(p, "return=minimal"@),
        count: contains_text(p, "count=exact"@) || contains_text(p, "count=planned"@) || contains_text(
            p,
            "count=estimated"@,
        ) || param_value(ps, "count"@) is Some,
        single_object: match accept {
            Some(a) => contains_text(a, "vnd.pgrst.object+json"@),
            None => false,
        },
    }
}

/// Reads the response preferences of a request.
pub fn response_prefs(prefer: Option<&str>, accept: Option<&str>, params: &[(String, String)]) -> (r: ResponsePrefs)
    ensures
        r == spec_response_prefs(
            match prefer {
                Some(h) => Some(h@),
                None => None,
            },
            match accept {
                Some(a) => Some(a@),
                None => None,
            },
            params_view(params@),
        ),
{
    let p = match prefer {
        Some(h) => to_lowercase(h),
        None => String::new(),
    };
    let minimal = has_text(p.as_str(), "return=minimal");
    let count = has_text(p.as_str(), "count=exact") || has_text(p.as_str(), "count=planned") || has_text(
        p.as_str(),
        "count=estimated",
    ) || get_param(params, "count").is_some();
    let single_object = match accept {
        Some(a) => has_text(a, "vnd.pgrst.object+json"),
        None => false,
    };
    ResponsePrefs { minimal, count, single_object }
}

} // verus!
