use vstd::prelude::*;

use crate::text::{
    chars_ends_with, chars_of, chars_starts_with, find_chars, find_first, is_white_space,
    is_whitespace, join_with, push_chars, push_str, spec_trim, starts_with,
    string_of, trim_chars, char_vecs, ends_with,
};

verus! {

/// An error reported in a GraphQL response.
#[derive(Debug, Clone)]
pub struct GraphQLError {
    pub message: String,
}

/// Position of the first `c` in `s`.
pub open spec fn first_index(s: Seq<char>, c: char) -> Option<int> {
    find_first(s, seq![c])
}

/// Position of the last `c` in `s`.
pub open spec fn last_index(s: Seq<char>, c: char) -> Option<int>
    decreases s.len(),
{
    if s.len() == 0 {
        None
    } else if s.last() == c {
        Some(s.len() - 1)
    } else {
        last_index(s.drop_last(), c)
    }
}

/// A query with a leading `query` keyword dropped: what follows it, trimmed, from its
/// first `{` on when it has one.
pub open spec fn query_body(q: Seq<char>) -> Seq<char> {
    let t = spec_trim(q);
    if starts_with(t, "query"@) {
        let rest = spec_trim(t.subrange(5, t.len() as int));
        match first_index(rest, '{') {
            Some(p) => rest.subrange(p, rest.len() as int),
            None => rest,
        }
    } else {
        t
    }
}

/// The text between the outer braces of a query body, trimmed.
pub open spec fn inner_block(body: Seq<char>) -> Seq<char> {
    spec_trim(body.subrange(1, body.len() - 1))
}

/// Whether the query body is `{ ... }`.
pub open spec fn braced(body: Seq<char>) -> bool {
    starts_with(body, "{"@) && ends_with(body, "}"@) && body.len() >= 2
}

/// Whether translating the query would read past what it has: a selection block closed
/// before it opens, or an argument list closed before it opens.
pub open spec fn graphql_misnested(q: Seq<char>) -> bool {
    let body = query_body(q);
    braced(body) && {
        let inside = inner_block(body);
        match (first_index(inside, '{'), last_index(inside, '}')) {
            (Some(o), Some(c)) => c < o || {
                let header = spec_trim(inside.subrange(0, o));
                match (first_index(header, '('), first_index(header, ')')) {
                    (Some(op), Some(cp)) => cp < op,
                    _ => false,
                }
            },
            _ => false,
        }
    }
}

/// The value of the last `limit: value` argument (trimmed) in a comma-separated list.
pub open spec fn limit_arg(parts: Seq<Seq<char>>) -> Option<Seq<char>>
    decreases parts.len(),
{
    if parts.len() == 0 {
        None
    } else {
        let p = parts.last();
        match first_index(p, ':') {
            Some(i) => if spec_trim(p.subrange(0, i)) == "limit"@ {
                Some(spec_trim(p.subrange(i + 1, p.len() as int)))
            } else {
                limit_arg(parts.drop_last())
            },
            None => limit_arg(parts.drop_last()),
        }
    }
}

/// Whether a character separates selected fields: white space or a comma.
pub open spec fn field_separator(c: char) -> bool {
    is_white_space(c) || c == ','
}

/// The field names of a selection: the runs between separators.
pub open spec fn field_names(s: Seq<char>) -> Seq<Seq<char>>
    decreases s.len(),
{
    if s.len() == 0 {
        Seq::empty()
    } else {
        let prev = field_names(s.drop_last());
        let c = s.last();
        if field_separator(c) {
            prev
        } else if s.len() >= 2 && !field_separator(s[s.len() - 2]) {
            prev.update(prev.len() - 1, prev.last().push(c))
        } else {
            prev.push(seq![c])
        }
    }
}

/// A GraphQL query as an SQL query over one table: `{ table(limit: n) { a b } }` reads
/// columns `a, b` of `table`, at most `n` rows. The table name and the statement, or the
/// message of what is wrong.
pub open spec fn spec_graphql_to_sql(q: Seq<char>) -> Result<(Seq<char>, Seq<char>), Seq<char>> {
    let body = query_body(q);
    if !braced(body) {
        Err("invalid GraphQL syntax: expected '{ ... }'"@)
    } else {
        let inside = inner_block(body);
        match first_index(inside, '{') {
            None => Err("expected field selection block '{ ... }'"@),
            Some(o) => match last_index(inside, '}') {
                None => Err("unclosed field selection block '}'"@),
                Some(c) => {
                    let header = spec_trim(inside.subrange(0, o));
                    let fields = field_names(spec_trim(inside.subrange(o + 1, c)));
                    let (table, limit): (Seq<char>, Option<Seq<char>>) = match first_index(header, '(') {
                        Some(op) => match first_index(header, ')') {
                            Some(cp) => (
                                spec_trim(header.subrange(0, op)),
                                limit_arg(split_commas(header.subrange(op + 1, cp))),
                            ),
                            None => (Seq::empty(), None),
                        },
                        None => (header, None),
                    };
                    if first_index(header, '(') is Some && first_index(header, ')') is None {
                        Err("unclosed argument list ')'"@)
                    } else if fields.len() == 0 {
                        Err("must select at least one field"@)
                    } else {
                        Ok(
                            (
                                table,
                                "SELECT "@ + join_with(fields, ", "@) + " FROM "@ + table + match limit {
                                    Some(l) => " LIMIT "@ + l,
                                    None => Seq::empty(),
                                },
                            ),
                        )
                    }
                },
            },
        }
    }
}

/// The comma-separated pieces of a text.
pub open spec fn split_commas(s: Seq<char>) -> Seq<Seq<char>> {
    crate::text::split_at_char(s, ',')
}

proof fn lemma_last_index(s: Seq<char>, c: char)
    ensures
        last_index(s, c) matches Some(i) ==> 0 <= i < s.len() && s[i] == c,
    decreases s.len(),
{
    if s.len() > 0 && s.last() != c {
        lemma_last_index(s.drop_last(), c);
    }
}

fn char_pos(s: &[char], c: char) -> (r: Option<usize>)
    ensures
        r matches Some(i) ==> first_index(s@, c) == Some(i as int) && i < s@.len() && s@[i as int] == c,
        r is None ==> first_index(s@, c) is None,
{
    let mut p: Vec<char> = Vec::new();
    p.push(c);
    assert(p@ =~= seq![c]);
    let r = find_chars(s, p.as_slice());
    proof {
        if let Some(i) = r {
            crate::text::lemma_find_first_found(s@, seq![c]);
            assert(s@.subrange(i as int, i + 1)[0] == s@[i as int]);
        }
    }
    r
}

fn last_char_pos(s: &[char], c: char) -> (r: Option<usize>)
    ensures
        r matches Some(i) ==> last_index(s@, c) == Some(i as int) && i < s@.len(),
        r is None ==> last_index(s@, c) is None,
{
    let mut i = s.len();
    assert(s@.take(i as int) =~= s@);
    while i > 0
        invariant
            i <= s@.len(),
            last_index(s@, c) == last_index(s@.take(i as int), c),
        decreases i,
    {
        assert(s@.take(i as int).last() == s@[i - 1]);
        assert(s@.take(i as int).drop_last() =~= s@.take(i - 1));
        if s[i - 1] == c {
            return Some(i - 1);
        }
        i = i - 1;
    }
    None
}

fn slice_of(s: &[char], a: usize, b: usize) -> (r: Vec<char>)
    requires
        a <= b <= s@.len(),
    ensures
        r@ == s@.subrange(a as int, b as int),
{
    let mut r: Vec<char> = Vec::new();
    let mut i = a;
    while i < b
        invariant
            a <= i <= b <= s@.len(),
            r@ == s@.subrange(a as int, i as int),
        decreases b - i,
    {
        r.push(s[i]);
        i = i + 1;
        assert(r@ =~= s@.subrange(a as int, i as int));
    }
    r
}

fn body_of(q: &str) -> (r: Vec<char>)
    ensures
        r@ == query_body(q@),
{
    let t = trim_chars(chars_of(q).as_slice());
    let kw = chars_of("query");
    proof {
        reveal_strlit("query");
    }
    if chars_starts_with(t.as_slice(), kw.as_slice()) {
        let rest = trim_chars(slice_of(t.as_slice(), 5, t.len()).as_slice());
        match char_pos(rest.as_slice(), '{') {
            Some(p) => slice_of(rest.as_slice(), p, rest.len()),
            None => rest,
        }
    } else {
        t
    }
}

fn fields_of(s: &[char]) -> (r: Vec<Vec<char>>)
    ensures
        char_vecs(r@) == field_names(s@),
{
    let mut r: Vec<Vec<char>> = Vec::new();
    let mut i: usize = 0;
    assert(s@.take(0) =~= Seq::<char>::empty());
    while i < s.len()
        invariant
            i <= s@.len(),
            char_vecs(r@) == field_names(s@.take(i as int)),
            i > 0 && !field_separator(s@[i - 1]) ==> r@.len() > 0,
        decreases s@.len() - i,
    {
        let c = s[i];
        let ghost t = s@.take(i + 1);
        assert(t.drop_last() =~= s@.take(i as int));
        assert(t.last() == c);
        if is_whitespace(c) || c == ',' {
        } else if i > 0 && !(is_whitespace(s[i - 1]) || s[i - 1] == ',') {
            assert(t[t.len() - 2] == s@[i - 1]);
            let ghost before = char_vecs(r@);
            let mut tok = r.pop().unwrap();
            tok.push(c);
            r.push(tok);
            assert(char_vecs(r@) =~= before.update(before.len() - 1, before.last().push(c)));
        } else {
            if i > 0 {
                assert(t[t.len() - 2] == s@[i - 1]);
            }
            let mut tok: Vec<char> = Vec::new();
            tok.push(c);
            let ghost before = char_vecs(r@);
            r.push(tok);
            assert(char_vecs(r@) =~= before.push(seq![c]));
        }
        i = i + 1;
    }
    assert(s@.take(s@.len() as int) =~= s@);
    r
}

fn limit_of(args: &[char]) -> (r: Option<Vec<char>>)
    ensures
        match limit_arg(split_commas(args@)) {
            Some(l) => r matches Some(x) && x@ == l,
            None => r is None,
        },
{
    let parts = crate::text::split_char(args, ',');
    let ghost ps = split_commas(args@);
    let mut i = parts.len();
    assert(char_vecs(parts@) =~= ps);
    assert(ps.take(i as int) =~= ps);
    let limit = chars_of("limit");
    while i > 0
        invariant
            ps == char_vecs(parts@),
            ps == split_commas(args@),
            limit@ == "limit"@,
            i <= ps.len(),
            limit_arg(ps) == limit_arg(ps.take(i as int)),
        decreases i,
    {
        assert(ps.take(i as int).last() == parts@[i - 1]@);
        assert(ps.take(i as int).drop_last() =~= ps.take(i - 1));
        let p = parts[i - 1].as_slice();
        let pl = p.len();
        match char_pos(p, ':') {
            Some(k) => {
                let key = trim_chars(slice_of(p, 0, k).as_slice());
                if crate::text::chars_equal(key.as_slice(), limit.as_slice()) {
                    return Some(trim_chars(slice_of(p, k + 1, pl).as_slice()));
                }
            },
            None => {},
        }
        i = i - 1;
    }
    None
}

/// Translates a GraphQL query over one table into SQL: the table name and the statement,
/// or the message of what is wrong with the query.
pub fn graphql_to_sql(query: &str) -> (r: Result<(String, String), String>)
    requires
        !graphql_misnested(query@),
    ensures
        match spec_graphql_to_sql(query@) {
            Ok((t, s)) => r matches Ok((a, b)) && a@ == t && b@ == s,
            Err(m) => r matches Err(x) && x@ == m,
        },
{
    let body = body_of(query);
    let ob = chars_of("{");
    let cb = chars_of("}");
    proof {
        reveal_strlit("{");
        reveal_strlit("}");
    }
    if !(chars_starts_with(body.as_slice(), ob.as_slice()) && chars_ends_with(body.as_slice(), cb.as_slice())) {
        return Err(String::from_str("invalid GraphQL syntax: expected '{ ... }'"));
    }
    proof {
        if body@.len() < 2 {
            assert(body@.subrange(0, 1)[0] == body@[0]);
            assert(body@.subrange(body@.len() - 1, body@.len() as int)[0] == body@[body@.len() - 1]);
        }
    }
    let inside = trim_chars(slice_of(body.as_slice(), 1, body.len() - 1).as_slice());
    let o = match char_pos(inside.as_slice(), '{') {
        Some(o) => o,
        None => {
            return Err(String::from_str("expected field selection block '{ ... }'"));
        },
    };
    let c = match last_char_pos(inside.as_slice(), '}') {
        Some(c) => c,
        None => {
            return Err(String::from_str("unclosed field selection block '}'"));
        },
    };
    proof {
        lemma_last_index(inside@, '}');
        assert(c as int != o as int);
    }
    let header = trim_chars(slice_of(inside.as_slice(), 0, o).as_slice());
    let fields = fields_of(trim_chars(slice_of(inside.as_slice(), o + 1, c).as_slice()).as_slice());
    let (table, limit) = match char_pos(header.as_slice(), '(') {
        Some(op) => match char_pos(header.as_slice(), ')') {
            Some(cp) => {
                assert(cp as int != op as int);
                (
                    trim_chars(slice_of(header.as_slice(), 0, op).as_slice()),
                    limit_of(slice_of(header.as_slice(), op + 1, cp).as_slice()),
                )
            },
            None => {
                return Err(String::from_str("unclosed argument list ')'"));
            },
        },
        None => (header, None),
    };
    if fields.len() == 0 {
        return Err(String::from_str("must select at least one field"));
    }
    let mut out: Vec<char> = Vec::new();
    push_str(&mut out, "SELECT ");
    crate::text::push_joined_sep(&mut out, &fields, ", ");
    push_str(&mut out, " FROM ");
    push_chars(&mut out, table.as_slice());
    match &limit {
        Some(l) => {
            push_str(&mut out, " LIMIT ");
            push_chars(&mut out, l.as_slice());
        },
        None => {},
    }
    proof {
        reveal_strlit("invalid GraphQL syntax: expected '{ ... }'");
    }
    assert(spec_graphql_to_sql(query@) matches Ok((_, s)) && out@ =~= s);
    Ok((string_of(table.as_slice()), string_of(out.as_slice())))
}

/// The table and statement a GraphQL request asks for, or the error to report: an empty
/// query is refused before it is translated.
pub fn graphql_plan(query: &str) -> (r: Result<(String, String), GraphQLError>)
    requires
        !graphql_misnested(query@),
    ensures
        spec_trim(query@).len() == 0 ==> (r matches Err(e) && e.message@ == "query cannot be empty"@),
        spec_trim(query@).len() > 0 ==> match spec_graphql_to_sql(query@) {
            Ok((t, s)) => r matches Ok((a, b)) && a@ == t && b@ == s,
            Err(m) => r matches Err(e) && e.message@ == m,
        },
{
    if trim_chars(chars_of(query).as_slice()).len() == 0 {
        proof {
            reveal_strlit("query cannot be empty");
        }
        return Err(GraphQLError { message: String::from_str("query cannot be empty") });
    }
    match graphql_to_sql(query) {
        Ok(x) => Ok(x),
        Err(message) => Err(GraphQLError { message }),
    }
}

} // verus!
