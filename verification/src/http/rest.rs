use vstd::prelude::*;

use vstd::utf8::encode_utf8;

use crate::assoc::{assoc_map, keys_distinct, lemma_assoc_push, lemma_assoc_update};
use crate::http::filter::{parse_single_filter, spec_parse_single_filter};
use crate::text::{
    chars_equal, chars_of, join_with, push_joined, push_str, split_at_char, split_char,
    split_once, split_once_char, str_equal, string_of, string_seqs, trim_end_all, trim_end_matches,
    trim_start_all, trim_start_matches, char_vecs, spec_trim, trim_chars,
    utf8_len_at_least, escape_quotes, push_escaped,
};

verus! {

/// A query parameter as a pair of texts.
pub open spec fn param_view(p: (String, String)) -> (Seq<char>, Seq<char>) {
    (p.0@, p.1@)
}

/// Parameters are keyed by name.
pub open spec fn param_key() -> spec_fn((String, String)) -> Seq<char> {
    |p: (String, String)| p.0@
}

/// Parameters map to their values.
pub open spec fn param_val() -> spec_fn((String, String)) -> Seq<char> {
    |p: (String, String)| p.1@
}

/// The parameters given by `key=value` pairs, split at the first `=`; a pair without `=`
/// is ignored and a later pair replaces an earlier one with the same key.
pub open spec fn params_of(pairs: Seq<Seq<char>>) -> Map<Seq<char>, Seq<char>>
    decreases pairs.len(),
{
    if pairs.len() == 0 {
        Map::empty()
    } else {
        let m = params_of(pairs.drop_last());
        match split_once(pairs.last(), '=') {
            Some((k, v)) => m.insert(k, v),
            None => m,
        }
    }
}

/// The parameters of a query string: its `&`-separated pairs.
pub open spec fn spec_query_params(query: Seq<char>) -> Map<Seq<char>, Seq<char>> {
    params_of(split_at_char(query, '&'))
}

/// The parameters of a query string, each key once, in the order keys first appear.
pub fn parse_query_params(query: &str) -> (r: Vec<(String, String)>)
    ensures
        keys_distinct(r@, param_key()),
        assoc_map(r@, param_key(), param_val()) == spec_query_params(query@),
{
    let pieces = split_char(chars_of(query).as_slice(), '&');
    let ghost pv = char_vecs(pieces@);
    assert(pv =~= split_at_char(query@, '&'));
    let ghost key = param_key();
    let ghost val = param_val();
    let mut r: Vec<(String, String)> = Vec::new();
    let mut i: usize = 0;
    assert(pv.take(0) =~= Seq::<Seq<char>>::empty());
    assert(assoc_map(r@, key, val) =~= Map::<Seq<char>, Seq<char>>::empty());
    while i < pieces.len()
        invariant
            pv == char_vecs(pieces@),
            pv == split_at_char(query@, '&'),
            key == param_key(),
            val == param_val(),
            i <= pieces@.len(),
            keys_distinct(r@, key),
            assoc_map(r@, key, val) == params_of(pv.take(i as int)),
        decreases pieces@.len() - i,
    {
        assert(pv.take(i + 1).drop_last() =~= pv.take(i as int));
        assert(pv.take(i + 1).last() == pieces@[i as int]@);
        match split_once_char(pieces[i].as_slice(), '=') {
            Some((k, v)) => {
                let ks = string_of(k.as_slice());
                let vs = string_of(v.as_slice());
                let mut j: usize = 0;
                while j < r.len()
                    invariant
                        ks@ == k@,
                        j <= r@.len(),
                        forall|x: int| 0 <= x < j ==> r@[x].0@ != k@,
                    ensures
                        j <= r@.len(),
                        j < r@.len() ==> r@[j as int].0@ == k@,
                        j == r@.len() ==> forall|x: int| 0 <= x < j ==> r@[x].0@ != k@,
                    decreases r@.len() - j,
                {
                    if str_equal(r[j].0.as_str(), ks.as_str()) {
                        break;
                    }
                    j = j + 1;
                }
                let ghost before = r@;
                if j < r.len() {
                    proof {
                        lemma_assoc_update(before, key, val, j as int, (ks, vs));
                    }
                    r.set(j, (ks, vs));
                } else {
                    proof {
                        lemma_assoc_push(before, key, val, (ks, vs));
                    }
                    r.push((ks, vs));
                }
            },
            None => {},
        }
        i = i + 1;
    }
    assert(pv.take(pv.len() as int) =~= pv);
    r
}

/// Parameters that shape the response instead of filtering rows.
pub open spec fn reserved_param(k: Seq<char>) -> bool {
    k == "order"@ || k == "limit"@ || k == "offset"@ || k == "select"@ || k == "apikey"@
}

/// The conditions of the `column.filter` parts of an `or` list; a part without `.` is
/// skipped.
pub open spec fn or_conditions(parts: Seq<Seq<char>>) -> Seq<Seq<char>>
    decreases parts.len(),
{
    if parts.len() == 0 {
        Seq::empty()
    } else {
        let prev = or_conditions(parts.drop_last());
        match split_once(parts.last(), '.') {
            Some((k, v)) => prev.push(spec_parse_single_filter(k, v)),
            None => prev,
        }
    }
}

/// The condition one query parameter contributes: none for a reserved one, the parts of
/// an `or=(a.op.x,b.op.y)` list joined with ` OR ` in parentheses (none when no part
/// yields one), else the parameter's own filter.
pub open spec fn where_clause(k: Seq<char>, v: Seq<char>) -> Option<Seq<char>> {
    if reserved_param(k) {
        None
    } else if k == "or"@ {
        let inner = trim_end_all(trim_start_all(v, "("@), ")"@);
        let conds = or_conditions(split_at_char(inner, ','));
        if conds.len() == 0 {
            None
        } else {
            Some("("@ + join_with(conds, " OR "@) + ")"@)
        }
    } else {
        Some(spec_parse_single_filter(k, v))
    }
}

/// The conditions of the parameters, in order.
pub open spec fn where_clauses(ps: Seq<(Seq<char>, Seq<char>)>) -> Seq<Seq<char>>
    decreases ps.len(),
{
    if ps.len() == 0 {
        Seq::empty()
    } else {
        let prev = where_clauses(ps.drop_last());
        match where_clause(ps.last().0, ps.last().1) {
            Some(c) => prev.push(c),
            None => prev,
        }
    }
}

/// The views of parameter pairs.
pub open spec fn params_view(ps: Seq<(String, String)>) -> Seq<(Seq<char>, Seq<char>)> {
    Seq::new(ps.len(), |i: int| param_view(ps[i]))
}

fn lit(s: &str) -> (v: Vec<char>)
    ensures
        v@ == s@,
{
    chars_of(s)
}

fn or_clause(v: &[char]) -> (r: Option<String>)
    ensures
        match where_clause("or"@, v@) {
            Some(c) => r matches Some(s) && s@ == c,
            None => r is None,
        },
{
    let open = lit("(");
    let close = lit(")");
    let inner = trim_end_matches(trim_start_matches(v, open.as_slice()).as_slice(), close.as_slice());
    let parts = split_char(inner.as_slice(), ',');
    let ghost pv = char_vecs(parts@);
    assert(pv =~= split_at_char(inner@, ','));
    assert(inner@ == trim_end_all(trim_start_all(v@, "("@), ")"@));
    let mut conds: Vec<String> = Vec::new();
    let mut i: usize = 0;
    assert(pv.take(0) =~= Seq::<Seq<char>>::empty());
    while i < parts.len()
        invariant
            pv == char_vecs(parts@),
            i <= parts@.len(),
            string_seqs(conds@) == or_conditions(pv.take(i as int)),
        decreases parts@.len() - i,
    {
        assert(pv.take(i + 1).drop_last() =~= pv.take(i as int));
        assert(pv.take(i + 1).last() == parts@[i as int]@);
        match split_once_char(parts[i].as_slice(), '.') {
            Some((k, val)) => {
                let c = parse_single_filter(string_of(k.as_slice()).as_str(), string_of(val.as_slice()).as_str());
                match c {
                    Some(cs) => {
                        let ghost before = conds@;
                        conds.push(cs);
                        assert(string_seqs(conds@) =~= string_seqs(before).push(cs@));
                    },
                    None => {},
                }
            },
            None => {},
        }
        i = i + 1;
    }
    assert(pv.take(pv.len() as int) =~= pv);
    proof {
        reveal_strlit("or");
        reveal_strlit("order");
        reveal_strlit("limit");
        reveal_strlit("offset");
        reveal_strlit("select");
        reveal_strlit("apikey");
        assert("or"@.len() == 2);
        assert("order"@.len() == 5);
        assert("limit"@.len() == 5);
        assert("offset"@.len() == 6);
        assert("select"@.len() == 6);
        assert("apikey"@.len() == 6);
        assert(!reserved_param("or"@));
    }
    if conds.len() == 0 {
        return None;
    }
    let mut out: Vec<char> = Vec::new();
    out.push('(');
    push_joined(&mut out, conds.as_slice(), " OR ");
    out.push(')');
    proof {
        reveal_strlit("(");
        reveal_strlit(")");
    }
    assert(out@ =~= "("@ + join_with(or_conditions(pv), " OR "@) + ")"@);
    Some(string_of(out.as_slice()))
}

fn is_reserved(k: &str) -> (b: bool)
    ensures
        b == reserved_param(k@),
{
    str_equal(k, "order") || str_equal(k, "limit") || str_equal(k, "offset") || str_equal(k, "select")
        || str_equal(k, "apikey")
}

/// The SQL conditions that the query parameters ask for, in their order.
pub fn build_where_clauses(params: &[(String, String)]) -> (r: Vec<String>)
    ensures
        string_seqs(r@) == where_clauses(params_view(params@)),
{
    let ghost ps = params_view(params@);
    let mut r: Vec<String> = Vec::new();
    let mut i: usize = 0;
    assert(ps.take(0) =~= Seq::<(Seq<char>, Seq<char>)>::empty());
    while i < params.len()
        invariant
            ps == params_view(params@),
            i <= params@.len(),
            string_seqs(r@) == where_clauses(ps.take(i as int)),
        decreases params@.len() - i,
    {
        assert(ps.take(i + 1).drop_last() =~= ps.take(i as int));
        assert(ps.take(i + 1).last() == param_view(params@[i as int]));
        let k = params[i].0.as_str();
        let v = params[i].1.as_str();
        let c = if is_reserved(k) {
            None
        } else if str_equal(k, "or") {
            or_clause(chars_of(v).as_slice())
        } else {
            parse_single_filter(k, v)
        };
        match c {
            Some(cs) => {
                let ghost before = r@;
                r.push(cs);
                assert(string_seqs(r@) =~= string_seqs(before).push(cs@));
            },
            None => {},
        }
        i = i + 1;
    }
    assert(ps.take(ps.len() as int) =~= ps);
    r
}

/// A table embedded in a `select` list: `alias:table(columns)`.
#[derive(Debug, Clone, PartialEq)]
pub struct EmbeddedRelation {
    pub alias: String,
    pub target_table: String,
    pub columns: String,
}

/// After reading the first `n` characters of a `select` list: the pieces closed by a comma
/// outside parentheses, the piece being read, and the parenthesis depth.
pub open spec fn select_scan(s: Seq<char>, n: int) -> (Seq<Seq<char>>, Seq<char>, int)
    decreases n,
{
    if n <= 0 {
        (Seq::empty(), Seq::empty(), 0)
    } else {
        let (done, cur, depth) = select_scan(s, n - 1);
        let c = s[n - 1];
        if c == '(' {
            (done, cur.push(c), depth + 1)
        } else if c == ')' {
            (done, cur.push(c), depth - 1)
        } else if c == ',' && depth == 0 {
            (done.push(cur), Seq::empty(), depth)
        } else {
            (done, cur.push(c), depth)
        }
    }
}

/// The pieces of a `select` list: split at the commas outside parentheses.
pub open spec fn select_pieces(s: Seq<char>) -> Seq<Seq<char>> {
    let (done, cur, _) = select_scan(s, s.len() as int);
    done.push(cur)
}

/// What one piece of a `select` list names.
pub enum SelectItem {
    /// Nothing: the piece is blank.
    Blank,
    /// A column.
    Column(Seq<char>),
    /// An embedded table: alias, table and columns.
    Relation(Seq<char>, Seq<char>, Seq<char>),
}

/// A piece, trimmed: `alias:table(columns)` or `table(columns)` embeds a table (its
/// columns `*` when none or `*` are given), anything else non-blank is a column.
pub open spec fn select_item(p: Seq<char>) -> SelectItem {
    let t = spec_trim(p);
    if t.len() == 0 {
        SelectItem::Blank
    } else {
        match split_once(t, '(') {
            Some((def, inside)) => {
                let cols = spec_trim(trim_end_all(inside, ")"@));
                let (alias, table) = match split_once(def, ':') {
                    Some((a, b)) => (spec_trim(a), spec_trim(b)),
                    None => (spec_trim(def), spec_trim(def)),
                };
                SelectItem::Relation(alias, table, if cols.len() == 0 || cols == "*"@ { "*"@ } else { cols })
            },
            None => SelectItem::Column(t),
        }
    }
}

/// The columns among the pieces, in order.
pub open spec fn select_columns(ps: Seq<Seq<char>>) -> Seq<Seq<char>>
    decreases ps.len(),
{
    if ps.len() == 0 {
        Seq::empty()
    } else {
        match select_item(ps.last()) {
            SelectItem::Column(c) => select_columns(ps.drop_last()).push(c),
            _ => select_columns(ps.drop_last()),
        }
    }
}

/// The embedded tables among the pieces, in order.
pub open spec fn select_relations(ps: Seq<Seq<char>>) -> Seq<(Seq<char>, Seq<char>, Seq<char>)>
    decreases ps.len(),
{
    if ps.len() == 0 {
        Seq::empty()
    } else {
        match select_item(ps.last()) {
            SelectItem::Relation(a, t, c) => select_relations(ps.drop_last()).push((a, t, c)),
            _ => select_relations(ps.drop_last()),
        }
    }
}

/// The view of an embedded table.
pub open spec fn relation_view(r: EmbeddedRelation) -> (Seq<char>, Seq<char>, Seq<char>) {
    (r.alias@, r.target_table@, r.columns@)
}

/// The views of embedded tables.
pub open spec fn relations_view(rs: Seq<EmbeddedRelation>) -> Seq<(Seq<char>, Seq<char>, Seq<char>)> {
    Seq::new(rs.len(), |i: int| relation_view(rs[i]))
}

fn classify_piece(p: &[char], cols: &mut Vec<String>, rels: &mut Vec<EmbeddedRelation>)
    ensures
        match select_item(p@) {
            SelectItem::Column(c) => string_seqs(final(cols)@) == string_seqs(old(cols)@).push(c)
                && relations_view(final(rels)@) == relations_view(old(rels)@),
            SelectItem::Relation(a, t, c) => string_seqs(final(cols)@) == string_seqs(old(cols)@)
                && relations_view(final(rels)@) == relations_view(old(rels)@).push((a, t, c)),
            SelectItem::Blank => string_seqs(final(cols)@) == string_seqs(old(cols)@) && relations_view(
                final(rels)@,
            ) == relations_view(old(rels)@),
        },
{
    let t = trim_chars(p);
    if t.len() == 0 {
        return;
    }
    match split_once_char(t.as_slice(), '(') {
        Some((def, inside)) => {
            let close = chars_of(")");
            let c = trim_chars(trim_end_matches(inside.as_slice(), close.as_slice()).as_slice());
            let star = chars_of("*");
            let columns = if c.len() == 0 || chars_equal(c.as_slice(), star.as_slice()) {
                string_of(star.as_slice())
            } else {
                string_of(c.as_slice())
            };
            let (alias, table) = match split_once_char(def.as_slice(), ':') {
                Some((a, b)) => (string_of(trim_chars(a.as_slice()).as_slice()), string_of(trim_chars(b.as_slice()).as_slice())),
                None => (string_of(trim_chars(def.as_slice()).as_slice()), string_of(trim_chars(def.as_slice()).as_slice())),
            };
            let rel = EmbeddedRelation { alias, target_table: table, columns };
            let ghost before = rels@;
            rels.push(rel);
            assert(relations_view(rels@) =~= relations_view(before).push(relation_view(rel)));
        },
        None => {
            let ghost before = cols@;
            let ts = string_of(t.as_slice());
            cols.push(ts);
            assert(string_seqs(cols@) =~= string_seqs(before).push(t@));
        },
    }
}

/// The columns and embedded tables of a PostgREST `select` list; `*` alone when it names
/// neither.
pub fn parse_select_embedding(select_str: &str) -> (r: (Vec<String>, Vec<EmbeddedRelation>))
    requires
        select_str@.len() <= 0x7fff_ffff,
    ensures
        ({
            let ps = select_pieces(select_str@);
            let cols = select_columns(ps);
            let rels = select_relations(ps);
            &&& relations_view(r.1@) == rels
            &&& string_seqs(r.0@) == if cols.len() == 0 && rels.len() == 0 {
                seq!["*"@]
            } else {
                cols
            }
        }),
{
    let s = chars_of(select_str);
    let mut cols: Vec<String> = Vec::new();
    let mut rels: Vec<EmbeddedRelation> = Vec::new();
    let mut current: Vec<char> = Vec::new();
    let mut depth: i32 = 0;
    let mut i: usize = 0;
    assert(string_seqs(cols@) =~= select_columns(Seq::<Seq<char>>::empty()));
    assert(relations_view(rels@) =~= select_relations(Seq::<Seq<char>>::empty()));
    while i < s.len()
        invariant
            s@ == select_str@,
            s@.len() <= 0x7fff_ffff,
            i <= s@.len(),
            -(i as int) <= depth <= i,
            select_scan(s@, i as int) == (select_scan(s@, i as int).0, current@, depth as int),
            string_seqs(cols@) == select_columns(select_scan(s@, i as int).0),
            relations_view(rels@) == select_relations(select_scan(s@, i as int).0),
        decreases s@.len() - i,
    {
        let c = s[i];
        let ghost done = select_scan(s@, i as int).0;
        if c == '(' {
            depth = depth + 1;
            current.push(c);
        } else if c == ')' {
            depth = depth - 1;
            current.push(c);
        } else if c == ',' && depth == 0 {
            classify_piece(current.as_slice(), &mut cols, &mut rels);
            proof {
                assert(done.push(current@).drop_last() =~= done);
            }
            current = Vec::new();
        } else {
            current.push(c);
        }
        i = i + 1;
    }
    let ghost done = select_scan(s@, i as int).0;
    classify_piece(current.as_slice(), &mut cols, &mut rels);
    proof {
        assert(done.push(current@).drop_last() =~= done);
    }
    if cols.len() == 0 && rels.len() == 0 {
        let ghost before = cols@;
        cols.push(String::from_str("*"));
        proof {
            reveal_strlit("*");
        }
        assert(string_seqs(cols@) =~= seq!["*"@]);
    }
    (cols, rels)
}

/// Characters allowed in an identifier: ASCII letters and digits and `_`.
pub open spec fn ident_char(c: char) -> bool {
    ('a' <= c && c <= 'z') || ('A' <= c && c <= 'Z') || ('0' <= c && c <= '9') || c == '_'
}

/// The message refusing an identifier of the wrong length.
pub open spec fn ident_length_message() -> Seq<char> {
    "identifier length must be between 1 and 64 characters"@
}

/// The message refusing an identifier with a character outside `[A-Za-z0-9_]`.
pub open spec fn ident_chars_message() -> Seq<char> {
    "identifier must contain only alphanumeric characters and underscores"@
}

/// An identifier taken as is when it has 1 to 64 bytes, all ASCII letters, digits or `_`;
/// else the message of what is wrong, the length checked first.
pub open spec fn spec_sanitize_identifier(s: Seq<char>) -> Result<Seq<char>, Seq<char>> {
    if s.len() == 0 || encode_utf8(s).len() > 64 {
        Err(ident_length_message())
    } else if exists|i: int| 0 <= i < s.len() && !ident_char(#[trigger] s[i]) {
        Err(ident_chars_message())
    } else {
        Ok(s)
    }
}

/// Checks that `s` can be used as a table or column name.
pub fn sanitize_identifier(s: &str) -> (r: Result<String, &'static str>)
    ensures
        match spec_sanitize_identifier(s@) {
            Ok(t) => r matches Ok(x) && x@ == t,
            Err(m) => r matches Err(x) && x@ == m,
        },
{
    let cs = chars_of(s);
    if cs.len() == 0 || utf8_len_at_least(cs.as_slice(), 65) {
        proof {
            reveal_strlit("identifier length must be between 1 and 64 characters");
        }
        return Err("identifier length must be between 1 and 64 characters");
    }
    let mut i: usize = 0;
    while i < cs.len()
        invariant
            cs@ == s@,
            !(s@.len() == 0 || encode_utf8(s@).len() > 64),
            i <= cs@.len(),
            forall|j: int| 0 <= j < i ==> ident_char(#[trigger] cs@[j]),
        decreases cs@.len() - i,
    {
        let c = cs[i];
        if !(('a' <= c && c <= 'z') || ('A' <= c && c <= 'Z') || ('0' <= c && c <= '9') || c == '_') {
            proof {
                reveal_strlit("identifier must contain only alphanumeric characters and underscores");
                assert(!ident_char(s@[i as int]));
            }
            return Err("identifier must contain only alphanumeric characters and underscores");
        }
        i = i + 1;
    }
    Ok(string_of(cs.as_slice()))
}

/// `s` with single quotes doubled, for an SQL string literal.
pub fn escape_sql_string(s: &str) -> (r: String)
    ensures
        r@ == escape_quotes(s@),
{
    let mut out: Vec<char> = Vec::new();
    push_escaped(&mut out, chars_of(s).as_slice());
    assert(out@ =~= escape_quotes(s@));
    string_of(out.as_slice())
}

/// The headers that let the browser of `origin` read a response.
pub open spec fn cors_allow(origin: Seq<char>) -> Seq<char> {
    "Access-Control-Allow-Origin: "@ + origin + "\r\nAccess-Control-Allow-Credentials: true\r\n"@
        + "Access-Control-Expose-Headers: Content-Range, Range-Unit, Preference-Applied, Content-Length, ETag, X-Total-Count\r\n"@
}

/// The CORS headers for a request from `origin` given the allowed origins `allowed` (`*`
/// for any, else a comma-separated list), and whether the origin is allowed; a request
/// without an origin needs no header.
pub open spec fn spec_cors_header(origin: Option<Seq<char>>, allowed: Seq<char>) -> (Seq<char>, bool) {
    match origin {
        None => (Seq::empty(), true),
        Some(o) => if allowed == "*"@ {
            (cors_allow(o), true)
        } else if split_at_char(allowed, ',').map_values(|p: Seq<char>| spec_trim(p)).contains(o) {
            (cors_allow(o), true)
        } else {
            (Seq::empty(), false)
        },
    }
}

/// The CORS headers for a request from `origin` and whether it is allowed, given the
/// configured allowed origins.
pub fn get_cors_header(origin: Option<&str>, allowed: &str) -> (r: (String, bool))
    ensures
        r.0@ == spec_cors_header(
            match origin {
                Some(o) => Some(o@),
                None => None,
            },
            allowed@,
        ).0,
        r.1 == spec_cors_header(
            match origin {
                Some(o) => Some(o@),
                None => None,
            },
            allowed@,
        ).1,
{
    let o = match origin {
        None => {
            return (String::new(), true);
        },
        Some(o) => o,
    };
    let mut ok = str_equal(allowed, "*");
    if !ok {
        let parts = split_char(chars_of(allowed).as_slice(), ',');
        let ghost ps = split_at_char(allowed@, ',').map_values(|p: Seq<char>| spec_trim(p));
        let oc = chars_of(o);
        let mut i: usize = 0;
        while i < parts.len()
            invariant
                parts@.len() == split_at_char(allowed@, ',').len(),
                forall|j: int| 0 <= j < parts@.len() ==> #[trigger] parts@[j]@ == split_at_char(allowed@, ',')[j],
                ps == split_at_char(allowed@, ',').map_values(|p: Seq<char>| spec_trim(p)),
                oc@ == o@,
                i <= parts@.len(),
                ok == exists|j: int| 0 <= j < i && ps[j] == o@,
            decreases parts@.len() - i,
        {
            let t = trim_chars(parts[i].as_slice());
            assert(ps[i as int] == t@);
            if chars_equal(t.as_slice(), oc.as_slice()) {
                ok = true;
            }
            i = i + 1;
        }
        assert(ok == ps.contains(o@));
    }
    if !ok {
        return (String::new(), false);
    }
    let mut out: Vec<char> = Vec::new();
    push_str(&mut out, "Access-Control-Allow-Origin: ");
    push_str(&mut out, o);
    push_str(&mut out, "\r\nAccess-Control-Allow-Credentials: true\r\n");
    push_str(
        &mut out,
        "Access-Control-Expose-Headers: Content-Range, Range-Unit, Preference-Applied, Content-Length, ETag, X-Total-Count\r\n",
    );
    (string_of(out.as_slice()), true)
}

} // verus!
