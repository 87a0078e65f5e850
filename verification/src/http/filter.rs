use vstd::prelude::*;

use crate::text::{
    ascii_lowercase, char_vecs, chars_equal, chars_of, chars_starts_with, copy_chars, eq_ignore_ascii_case,
    find_chars, find_first, int_decimal, join_with, parse_i64, push_chars, push_escaped,
    push_i64_decimal, push_joined_sep, push_str, spec_parse_i64, spec_trim, split_at_char,
    split_char, starts_with, str_eq_ignore_ascii_case, string_of, trim_char, trim_chars,
    trim_end_all, trim_end_matches, trim_matches_char, trim_start_all, trim_start_matches,
    escape_quotes,
};

verus! {

/// The SQL form of a filter value: an integer as its digits, `true`/`false` (any ASCII
/// case) as `TRUE`/`FALSE`, anything else as a quoted string with quotes doubled.
pub open spec fn spec_format_sql_val(s: Seq<char>) -> Seq<char> {
    match spec_parse_i64(s) {
        Some(i) => int_decimal(i as int),
        None => if eq_ignore_ascii_case(s, "true"@) {
            "TRUE"@
        } else if eq_ignore_ascii_case(s, "false"@) {
            "FALSE"@
        } else {
            seq!['\''] + escape_quotes(s) + seq!['\'']
        },
    }
}

/// Appends the SQL form of a filter value.
pub fn push_sql_val(out: &mut Vec<char>, s: &[char])
    ensures
        final(out)@ == old(out)@ + spec_format_sql_val(s@),
{
    match parse_i64(s) {
        Some(i) => {
            push_i64_decimal(out, i);
        },
        None => {
            let text = string_of(s);
            if str_eq_ignore_ascii_case(text.as_str(), "true") {
                push_str(out, "TRUE");
            } else if str_eq_ignore_ascii_case(text.as_str(), "false") {
                push_str(out, "FALSE");
            } else {
                out.push('\'');
                push_escaped(out, s);
                out.push('\'');
                assert(final(out)@ =~= old(out)@ + spec_format_sql_val(s@));
            }
        },
    }
}

/// Formats a filter value for SQL.
pub fn format_sql_val(s: &str) -> (r: String)
    ensures
        r@ == spec_format_sql_val(s@),
{
    let cs = chars_of(s);
    let mut out: Vec<char> = Vec::new();
    push_sql_val(&mut out, cs.as_slice());
    assert(out@ =~= spec_format_sql_val(s@));
    string_of(out.as_slice())
}

/// A JSON path of a filter key without its surrounding quotes.
pub open spec fn clean_path(p: Seq<char>) -> Seq<char> {
    trim_char(trim_char(p, '\''), '"')
}

/// A filter key in SQL: `col->>path` and `col->path` keep their operator and get the path
/// in single quotes; other keys stay.
pub open spec fn spec_format_filter_key(key: Seq<char>) -> Seq<char> {
    match find_first(key, seq!['-', '>', '>']) {
        Some(i) => key.subrange(0, i) + seq!['-', '>', '>', '\''] + clean_path(
            key.subrange(i + 3, key.len() as int),
        ) + seq!['\''],
        None => match find_first(key, seq!['-', '>']) {
            Some(i) => key.subrange(0, i) + seq!['-', '>', '\''] + clean_path(
                key.subrange(i + 2, key.len() as int),
            ) + seq!['\''],
            None => key,
        },
    }
}

fn clean_path_chars(p: &[char]) -> (r: Vec<char>)
    ensures
        r@ == clean_path(p@),
{
    let a = trim_matches_char(p, '\'');
    trim_matches_char(a.as_slice(), '"')
}

pub(crate) fn tail(s: &[char], from: usize) -> (r: Vec<char>)
    requires
        from <= s@.len(),
    ensures
        r@ == s@.subrange(from as int, s@.len() as int),
{
    let r = copy_chars(s.split_at(from).1);
    r
}

pub(crate) fn head(s: &[char], to: usize) -> (r: Vec<char>)
    requires
        to <= s@.len(),
    ensures
        r@ == s@.subrange(0, to as int),
{
    copy_chars(s.split_at(to).0)
}

fn path_key(key: &[char], i: usize, arrow: &[char]) -> (r: Vec<char>)
    requires
        i + arrow@.len() <= key@.len(),
    ensures
        r@ == key@.subrange(0, i as int) + arrow@ + seq!['\''] + clean_path(
            key@.subrange(i + arrow@.len(), key@.len() as int),
        ) + seq!['\''],
{
    let kl = key.len();
    let mut out = head(key, i);
    push_chars(&mut out, arrow);
    out.push('\'');
    let p = clean_path_chars(tail(key, i + arrow.len()).as_slice());
    push_chars(&mut out, p.as_slice());
    out.push('\'');
    out
}

/// Formats a filter key for SQL.
pub fn format_filter_key(key: &[char]) -> (r: Vec<char>)
    ensures
        r@ == spec_format_filter_key(key@),
{
    let mut arrow2: Vec<char> = Vec::new();
    arrow2.push('-');
    arrow2.push('>');
    arrow2.push('>');
    assert(arrow2@ =~= seq!['-', '>', '>']);
    let mut arrow: Vec<char> = Vec::new();
    arrow.push('-');
    arrow.push('>');
    assert(arrow@ =~= seq!['-', '>']);
    match find_chars(key, arrow2.as_slice()) {
        Some(i) => {
            let out = path_key(key, i, arrow2.as_slice());
            assert(out@ =~= spec_format_filter_key(key@));
            out
        },
        None => match find_chars(key, arrow.as_slice()) {
            Some(i) => {
                let out = path_key(key, i, arrow.as_slice());
                assert(out@ =~= spec_format_filter_key(key@));
                out
            },
            None => copy_chars(key),
        },
    }
}

/// `key op value`, the value in SQL form.
pub open spec fn compare_clause(key: Seq<char>, sym: Seq<char>, v: Seq<char>) -> Seq<char> {
    key + seq![' '] + sym + seq![' '] + spec_format_sql_val(v)
}

/// A `LIKE` (or `NOT LIKE`) with `%` around the pattern.
pub open spec fn contains_like(key: Seq<char>, not: bool, pat: Seq<char>) -> Seq<char> {
    key + (if not {
        " NOT LIKE '%"@
    } else {
        " LIKE '%"@
    }) + pat + "%'"@
}

/// The `is.` filters: `null`, `not_null`/`not.null`, `true`, `false` (any ASCII case),
/// anything else read as `null`.
pub open spec fn is_clause(key: Seq<char>, not: bool, rhs: Seq<char>) -> Seq<char> {
    if eq_ignore_ascii_case(rhs, "null"@) {
        key + (if not {
            " IS NOT NULL"@
        } else {
            " IS NULL"@
        })
    } else if eq_ignore_ascii_case(rhs, "not_null"@) || eq_ignore_ascii_case(rhs, "not.null"@) {
        key + (if not {
            " IS NULL"@
        } else {
            " IS NOT NULL"@
        })
    } else if eq_ignore_ascii_case(rhs, "true"@) {
        key + (if not {
            " = FALSE"@
        } else {
            " = TRUE"@
        })
    } else if eq_ignore_ascii_case(rhs, "false"@) {
        key + (if not {
            " = TRUE"@
        } else {
            " = FALSE"@
        })
    } else {
        key + " IS NULL"@
    }
}

/// An array literal without its braces or brackets.
pub open spec fn bracket_clean(rhs: Seq<char>) -> Seq<char> {
    trim_end_all(
        trim_start_all(trim_end_all(trim_start_all(rhs, seq!['{']), seq!['}']), seq!['[']),
        seq![']'],
    )
}

/// The pieces, trimmed, empty ones left out.
pub open spec fn trimmed_items(p: Seq<Seq<char>>) -> Seq<Seq<char>>
    decreases p.len(),
{
    if p.len() == 0 {
        Seq::empty()
    } else {
        let prev = trimmed_items(p.drop_last());
        let t = spec_trim(p.last());
        if t.len() > 0 {
            prev.push(t)
        } else {
            prev
        }
    }
}

/// The items of an array literal.
pub open spec fn array_items(rhs: Seq<char>) -> Seq<Seq<char>> {
    trimmed_items(split_at_char(bracket_clean(rhs), ','))
}

/// An array item unquoted, with single quotes doubled.
pub open spec fn item_clean(it: Seq<char>) -> Seq<char> {
    escape_quotes(trim_char(trim_char(it, '"'), '\''))
}

/// `cs.` (contains): every item as a substring, or, negated, some item missing.
pub open spec fn cs_clause(key: Seq<char>, not: bool, rhs: Seq<char>) -> Seq<char> {
    let items = array_items(rhs);
    if items.len() == 0 {
        contains_like(key, not, escape_quotes(rhs))
    } else {
        "("@ + join_with(
            items.map_values(|it: Seq<char>| contains_like(key, not, item_clean(it))),
            if not {
                " OR "@
            } else {
                " AND "@
            },
        ) + ")"@
    }
}

/// `ov.` (overlaps): some item as a substring, or, negated, none.
pub open spec fn ov_clause(key: Seq<char>, not: bool, rhs: Seq<char>) -> Seq<char> {
    let items = array_items(rhs);
    if items.len() == 0 {
        contains_like(key, not, escape_quotes(rhs))
    } else {
        (if not {
            "NOT ("@
        } else {
            "("@
        }) + join_with(
            items.map_values(|it: Seq<char>| contains_like(key, false, item_clean(it))),
            " OR "@,
        ) + ")"@
    }
}

/// `in.(a,b)`: membership in the listed values.
pub open spec fn in_clause(key: Seq<char>, not: bool, rhs: Seq<char>) -> Seq<char> {
    let cleaned = trim_end_all(trim_start_all(rhs, seq!['(']), seq![')']);
    let elements = split_at_char(cleaned, ',').map_values(
        |x: Seq<char>| spec_format_sql_val(spec_trim(x)),
    );
    key + (if not {
        " NOT IN ("@
    } else {
        " IN ("@
    }) + join_with(elements, ", "@) + ")"@
}

/// The clause for operator `op` with operand `rhs`; `rest` is the whole value after any
/// `not.`, compared for equality when the operator is unknown.
pub open spec fn op_clause(key: Seq<char>, not: bool, op: Seq<char>, rhs: Seq<char>, rest: Seq<char>) -> Seq<char> {
    if op == "eq"@ {
        compare_clause(
            key,
            if not {
                "!="@
            } else {
                "="@
            },
            rhs,
        )
    } else if op == "neq"@ {
        compare_clause(
            key,
            if not {
                "="@
            } else {
                "!="@
            },
            rhs,
        )
    } else if op == "gt"@ {
        compare_clause(
            key,
            if not {
                "<="@
            } else {
                ">"@
            },
            rhs,
        )
    } else if op == "gte"@ {
        compare_clause(
            key,
            if not {
                "<"@
            } else {
                ">="@
            },
            rhs,
        )
    } else if op == "lt"@ {
        compare_clause(
            key,
            if not {
                ">="@
            } else {
                "<"@
            },
            rhs,
        )
    } else if op == "lte"@ {
        compare_clause(
            key,
            if not {
                ">"@
            } else {
                "<="@
            },
            rhs,
        )
    } else if op == "like"@ {
        key + (if not {
            " NOT LIKE '"@
        } else {
            " LIKE '"@
        }) + escape_quotes(rhs) + "'"@
    } else if op == "ilike"@ {
        key + (if not {
            " NOT ILIKE '"@
        } else {
            " ILIKE '"@
        }) + escape_quotes(rhs) + "'"@
    } else if op == "fts"@ || op == "wfts"@ || op == "match"@ {
        (if not {
            "NOT FTS_MATCH("@
        } else {
            "FTS_MATCH("@
        }) + key + ", '"@ + escape_quotes(rhs) + "')"@
    } else if op == "is"@ {
        is_clause(key, not, rhs)
    } else if op == "cs"@ {
        cs_clause(key, not, rhs)
    } else if op == "cd"@ {
        contains_like(key, not, escape_quotes(rhs))
    } else if op == "ov"@ {
        ov_clause(key, not, rhs)
    } else if op == "in"@ {
        in_clause(key, not, rhs)
    } else {
        compare_clause(key, "="@, rest)
    }
}

/// The SQL condition for one PostgREST filter `key=value`: `value` is `[not.]op.operand`,
/// or a bare value compared for equality.
pub open spec fn spec_parse_single_filter(key: Seq<char>, val: Seq<char>) -> Seq<char> {
    let k = spec_format_filter_key(key);
    let not = starts_with(val, "not."@);
    let rest = if not {
        val.subrange(4, val.len() as int)
    } else {
        val
    };
    match find_first(rest, seq!['.']) {
        Some(i) => op_clause(
            k,
            not,
            rest.subrange(0, i),
            rest.subrange(i + 1, rest.len() as int),
            rest,
        ),
        None => compare_clause(k, "="@, rest),
    }
}

/// The first `.` of `is.` followed by anything is the one after `is`.
proof fn lemma_is_prefix_split(rhs: Seq<char>)
    ensures
        find_first("is."@ + rhs, seq!['.']) == Some(2int),
{
    reveal_strlit("is.");
    let s = "is."@ + rhs;
    let dot = seq!['.'];
    assert(s[0] == 'i' && s[1] == 's' && s[2] == '.');
    assert(s.subrange(2, 3) =~= dot);
    assert forall|j: int| 0 <= j < 2 implies #[trigger] s.subrange(j, j + 1) != dot by {
        assert(s.subrange(j, j + 1)[0] == s[j]);
    }
    assert(s.subrange(2, 2 + dot.len() as int) == dot);
    assert(exists|i: int|
        0 <= i && i + dot.len() <= s.len() && #[trigger] s.subrange(i, i + dot.len()) == dot && forall|j: int|
            0 <= j < i ==> #[trigger] s.subrange(j, j + dot.len()) != dot) by {
        assert(forall|j: int| 0 <= j < 2 ==> #[trigger] s.subrange(j, j + dot.len()) != dot);
    }
    reveal(find_first);
    let r = find_first(s, dot);
    assert(r is Some);
    let i = r->0;
    if i < 2 {
        assert(s.subrange(i, i + 1)[0] == s[i]);
    }
    if i > 2 {
        assert(s.subrange(2, 2 + dot.len() as int) != dot);
    }
}

/// The `is.` filter on a boolean selects that value, and its `not.` form the other one:
/// `is.false` gives `key = FALSE` and `not.is.false` gives `key = TRUE` (the operand in any
/// ASCII case), and the other way round for `true`; `is.null` tests for NULL and
/// `not.is.null` for a value.
pub proof fn lemma_is_boolean_filters(key: Seq<char>, rhs: Seq<char>)
    ensures
        eq_ignore_ascii_case(rhs, "null"@) ==> spec_parse_single_filter(key, "is."@ + rhs)
            == spec_format_filter_key(key) + " IS NULL"@,
        eq_ignore_ascii_case(rhs, "null"@) ==> spec_parse_single_filter(key, "not.is."@ + rhs)
            == spec_format_filter_key(key) + " IS NOT NULL"@,
        eq_ignore_ascii_case(rhs, "false"@) ==> spec_parse_single_filter(key, "is."@ + rhs)
            == spec_format_filter_key(key) + " = FALSE"@,
        eq_ignore_ascii_case(rhs, "false"@) ==> spec_parse_single_filter(key, "not.is."@ + rhs)
            == spec_format_filter_key(key) + " = TRUE"@,
        eq_ignore_ascii_case(rhs, "true"@) ==> spec_parse_single_filter(key, "is."@ + rhs)
            == spec_format_filter_key(key) + " = TRUE"@,
        eq_ignore_ascii_case(rhs, "true"@) ==> spec_parse_single_filter(key, "not.is."@ + rhs)
            == spec_format_filter_key(key) + " = FALSE"@,
{
    reveal_strlit("is.");
    reveal_strlit("not.is.");
    reveal_strlit("not.");
    reveal_strlit("is");
    reveal_strlit("eq");
    reveal_strlit("neq");
    reveal_strlit("gt");
    reveal_strlit("gte");
    reveal_strlit("lt");
    reveal_strlit("lte");
    reveal_strlit("like");
    reveal_strlit("ilike");
    reveal_strlit("fts");
    reveal_strlit("wfts");
    reveal_strlit("match");
    reveal_strlit("null");
    reveal_strlit("not_null");
    reveal_strlit("not.null");
    reveal_strlit("true");
    reveal_strlit("false");
    lemma_is_prefix_split(rhs);
    let plain = "is."@ + rhs;
    let negd = "not.is."@ + rhs;
    assert(!starts_with(plain, "not."@)) by {
        assert(plain[0] == 'i');
        if plain.len() >= 4 {
            assert(plain.subrange(0, 4)[0] == plain[0]);
        }
    }
    assert(starts_with(negd, "not."@)) by {
        assert(negd.subrange(0, 4) =~= "not."@);
    }
    assert(negd.subrange(4, negd.len() as int) =~= plain);
    assert(plain.subrange(0, 2) =~= "is"@);
    assert(plain.subrange(3, plain.len() as int) =~= rhs);
    let lr = ascii_lowercase(rhs);
    let k = spec_format_filter_key(key);
    assert("is"@[0] != "eq"@[0] && "is"@[0] != "gt"@[0] && "is"@[0] != "lt"@[0]);
    assert("is"@ != "eq"@ && "is"@ != "gt"@ && "is"@ != "lt"@);
    assert("is"@.len() != "neq"@.len() && "is"@.len() != "gte"@.len() && "is"@.len() != "lte"@.len());
    assert("is"@.len() != "like"@.len() && "is"@.len() != "ilike"@.len() && "is"@.len() != "fts"@.len());
    assert("is"@.len() != "wfts"@.len() && "is"@.len() != "match"@.len());
    assert(spec_parse_single_filter(key, plain) == op_clause(k, false, "is"@, rhs, plain));
    assert(spec_parse_single_filter(key, negd) == op_clause(k, true, "is"@, rhs, plain));
    assert(op_clause(k, false, "is"@, rhs, plain) == is_clause(k, false, rhs));
    assert(op_clause(k, true, "is"@, rhs, plain) == is_clause(k, true, rhs));
    if eq_ignore_ascii_case(rhs, "false"@) {
        assert(lr.len() == 5);
        assert(!eq_ignore_ascii_case(rhs, "null"@));
        assert(!eq_ignore_ascii_case(rhs, "true"@));
        assert(!eq_ignore_ascii_case(rhs, "not_null"@));
        assert(!eq_ignore_ascii_case(rhs, "not.null"@));
    }
    if eq_ignore_ascii_case(rhs, "true"@) {
        assert(lr.len() == 4);
        assert(lr[0] == ascii_lowercase("true"@)[0]);
        assert(ascii_lowercase("true"@)[0] == 't');
        assert(ascii_lowercase("null"@)[0] == 'n');
        assert(!eq_ignore_ascii_case(rhs, "null"@));
        assert(!eq_ignore_ascii_case(rhs, "not_null"@));
        assert(!eq_ignore_ascii_case(rhs, "not.null"@));
    }
}

fn lit(s: &str) -> (v: Vec<char>)
    ensures
        v@ == s@,
{
    chars_of(s)
}

fn is_op(op: &[char], name: &str) -> (b: bool)
    ensures
        b == (op@ == name@),
{
    let l = lit(name);
    chars_equal(op, l.as_slice())
}

fn eq_ci(s: &[char], name: &str) -> (b: bool)
    ensures
        b == eq_ignore_ascii_case(s@, name@),
{
    let t = string_of(s);
    str_eq_ignore_ascii_case(t.as_str(), name)
}

fn compare_clause_exec(key: &[char], sym: &str, v: &[char]) -> (r: Vec<char>)
    ensures
        r@ == compare_clause(key@, sym@, v@),
{
    let mut out = copy_chars(key);
    out.push(' ');
    push_str(&mut out, sym);
    out.push(' ');
    push_sql_val(&mut out, v);
    assert(out@ =~= compare_clause(key@, sym@, v@));
    out
}

fn contains_like_exec(key: &[char], not: bool, pat: &[char]) -> (r: Vec<char>)
    ensures
        r@ == contains_like(key@, not, pat@),
{
    let mut out = copy_chars(key);
    if not {
        push_str(&mut out, " NOT LIKE '%");
    } else {
        push_str(&mut out, " LIKE '%");
    }
    push_chars(&mut out, pat);
    push_str(&mut out, "%'");
    out
}

fn escaped(s: &[char]) -> (r: Vec<char>)
    ensures
        r@ == escape_quotes(s@),
{
    let mut out: Vec<char> = Vec::new();
    push_escaped(&mut out, s);
    assert(out@ =~= escape_quotes(s@));
    out
}

fn is_clause_exec(key: &[char], not: bool, rhs: &[char]) -> (r: Vec<char>)
    ensures
        r@ == is_clause(key@, not, rhs@),
{
    let mut out = copy_chars(key);
    if eq_ci(rhs, "null") {
        push_str(&mut out, if not { " IS NOT NULL" } else { " IS NULL" });
    } else if eq_ci(rhs, "not_null") || eq_ci(rhs, "not.null") {
        push_str(&mut out, if not { " IS NULL" } else { " IS NOT NULL" });
    } else if eq_ci(rhs, "true") {
        push_str(&mut out, if not { " = FALSE" } else { " = TRUE" });
    } else if eq_ci(rhs, "false") {
        push_str(&mut out, if not { " = TRUE" } else { " = FALSE" });
    } else {
        push_str(&mut out, " IS NULL");
    }
    out
}

fn one(c: char) -> (v: Vec<char>)
    ensures
        v@ == seq![c],
{
    let mut v: Vec<char> = Vec::new();
    v.push(c);
    assert(v@ =~= seq![c]);
    v
}

fn bracket_clean_exec(rhs: &[char]) -> (r: Vec<char>)
    ensures
        r@ == bracket_clean(rhs@),
{
    let a = trim_start_matches(rhs, one('{').as_slice());
    let b = trim_end_matches(a.as_slice(), one('}').as_slice());
    let c = trim_start_matches(b.as_slice(), one('[').as_slice());
    trim_end_matches(c.as_slice(), one(']').as_slice())
}

fn trimmed_items_exec(pieces: &Vec<Vec<char>>) -> (r: Vec<Vec<char>>)
    ensures
        char_vecs(r@) == trimmed_items(char_vecs(pieces@)),
{
    let ghost pv = char_vecs(pieces@);
    let mut r: Vec<Vec<char>> = Vec::new();
    let mut j: usize = 0;
    assert(pv.subrange(0, 0) =~= Seq::<Seq<char>>::empty());
    assert(char_vecs(r@) =~= Seq::<Seq<char>>::empty());
    while j < pieces.len()
        invariant
            pv == char_vecs(pieces@),
            j <= pieces@.len(),
            char_vecs(r@) == trimmed_items(pv.subrange(0, j as int)),
        decreases pieces@.len() - j,
    {
        let ghost sub = pv.subrange(0, j + 1);
        assert(sub.drop_last() =~= pv.subrange(0, j as int));
        assert(sub.last() == pieces@[j as int]@);
        let t = trim_chars(pieces[j].as_slice());
        let ghost before = char_vecs(r@);
        if t.len() > 0 {
            r.push(t);
            assert(char_vecs(r@) =~= before.push(sub.last().subrange(0, 0) + spec_trim(sub.last())));
        }
        j = j + 1;
    }
    assert(pv.subrange(0, pv.len() as int) =~= pv);
    r
}

fn array_items_exec(rhs: &[char]) -> (r: Vec<Vec<char>>)
    ensures
        char_vecs(r@) == array_items(rhs@),
{
    let cleaned = bracket_clean_exec(rhs);
    let pieces = split_char(cleaned.as_slice(), ',');
    assert(char_vecs(pieces@) =~= split_at_char(cleaned@, ','));
    trimmed_items_exec(&pieces)
}

fn item_clean_exec(it: &[char]) -> (r: Vec<char>)
    ensures
        r@ == item_clean(it@),
{
    let a = trim_matches_char(it, '"');
    let b = trim_matches_char(a.as_slice(), '\'');
    escaped(b.as_slice())
}

fn like_parts(key: &[char], not: bool, items: &Vec<Vec<char>>) -> (r: Vec<Vec<char>>)
    ensures
        char_vecs(r@) == char_vecs(items@).map_values(|it: Seq<char>| contains_like(key@, not, item_clean(it))),
{
    let mut r: Vec<Vec<char>> = Vec::new();
    let mut i: usize = 0;
    while i < items.len()
        invariant
            i <= items@.len(),
            r@.len() == i,
            forall|k: int| 0 <= k < i ==> #[trigger] r@[k]@ == contains_like(key@, not, item_clean(items@[k]@)),
        decreases items@.len() - i,
    {
        let c = item_clean_exec(items[i].as_slice());
        let part = contains_like_exec(key, not, c.as_slice());
        r.push(part);
        i = i + 1;
    }
    assert(char_vecs(r@) =~= char_vecs(items@).map_values(
        |it: Seq<char>| contains_like(key@, not, item_clean(it)),
    ));
    r
}

fn cs_clause_exec(key: &[char], not: bool, rhs: &[char]) -> (r: Vec<char>)
    ensures
        r@ == cs_clause(key@, not, rhs@),
{
    let items = array_items_exec(rhs);
    if items.len() == 0 {
        let e = escaped(rhs);
        return contains_like_exec(key, not, e.as_slice());
    }
    let parts = like_parts(key, not, &items);
    let mut out = lit("(");
    push_joined_sep(&mut out, &parts, if not { " OR " } else { " AND " });
    push_str(&mut out, ")");
    out
}

fn ov_clause_exec(key: &[char], not: bool, rhs: &[char]) -> (r: Vec<char>)
    ensures
        r@ == ov_clause(key@, not, rhs@),
{
    let items = array_items_exec(rhs);
    if items.len() == 0 {
        let e = escaped(rhs);
        return contains_like_exec(key, not, e.as_slice());
    }
    let parts = like_parts(key, false, &items);
    let mut out = lit(if not { "NOT (" } else { "(" });
    push_joined_sep(&mut out, &parts, " OR ");
    push_str(&mut out, ")");
    out
}

fn in_clause_exec(key: &[char], not: bool, rhs: &[char]) -> (r: Vec<char>)
    ensures
        r@ == in_clause(key@, not, rhs@),
{
    let a = trim_start_matches(rhs, one('(').as_slice());
    let cleaned = trim_end_matches(a.as_slice(), one(')').as_slice());
    let pieces = split_char(cleaned.as_slice(), ',');
    let ghost pv = split_at_char(cleaned@, ',');
    assert(char_vecs(pieces@) =~= pv);
    let mut elements: Vec<Vec<char>> = Vec::new();
    let mut i: usize = 0;
    while i < pieces.len()
        invariant
            i <= pieces@.len(),
            pv == char_vecs(pieces@),
            elements@.len() == i,
            forall|k: int| 0 <= k < i ==> #[trigger] elements@[k]@ == spec_format_sql_val(spec_trim(pv[k])),
        decreases pieces@.len() - i,
    {
        let t = trim_chars(pieces[i].as_slice());
        let mut e: Vec<char> = Vec::new();
        push_sql_val(&mut e, t.as_slice());
        assert(e@ =~= spec_format_sql_val(spec_trim(pv[i as int])));
        elements.push(e);
        i = i + 1;
    }
    assert(char_vecs(elements@) =~= pv.map_values(|x: Seq<char>| spec_format_sql_val(spec_trim(x))));
    let mut out = copy_chars(key);
    push_str(&mut out, if not { " NOT IN (" } else { " IN (" });
    push_joined_sep(&mut out, &elements, ", ");
    push_str(&mut out, ")");
    out
}

fn op_clause_exec(key: &[char], not: bool, op: &[char], rhs: &[char], rest: &[char]) -> (r: Vec<char>)
    ensures
        r@ == op_clause(key@, not, op@, rhs@, rest@),
{
    if is_op(op, "eq") {
        compare_clause_exec(key, if not { "!=" } else { "=" }, rhs)
    } else if is_op(op, "neq") {
        compare_clause_exec(key, if not { "=" } else { "!=" }, rhs)
    } else if is_op(op, "gt") {
        compare_clause_exec(key, if not { "<=" } else { ">" }, rhs)
    } else if is_op(op, "gte") {
        compare_clause_exec(key, if not { "<" } else { ">=" }, rhs)
    } else if is_op(op, "lt") {
        compare_clause_exec(key, if not { ">=" } else { "<" }, rhs)
    } else if is_op(op, "lte") {
        compare_clause_exec(key, if not { ">" } else { "<=" }, rhs)
    } else if is_op(op, "like") {
        let mut out = copy_chars(key);
        push_str(&mut out, if not { " NOT LIKE '" } else { " LIKE '" });
        push_escaped(&mut out, rhs);
        push_str(&mut out, "'");
        out
    } else if is_op(op, "ilike") {
        let mut out = copy_chars(key);
        push_str(&mut out, if not { " NOT ILIKE '" } else { " ILIKE '" });
        push_escaped(&mut out, rhs);
        push_str(&mut out, "'");
        out
    } else if is_op(op, "fts") || is_op(op, "wfts") || is_op(op, "match") {
        let mut out = lit(if not { "NOT FTS_MATCH(" } else { "FTS_MATCH(" });
        push_chars(&mut out, key);
        push_str(&mut out, ", '");
        push_escaped(&mut out, rhs);
        push_str(&mut out, "')");
        out
    } else if is_op(op, "is") {
        is_clause_exec(key, not, rhs)
    } else if is_op(op, "cs") {
        cs_clause_exec(key, not, rhs)
    } else if is_op(op, "cd") {
        let e = escaped(rhs);
        contains_like_exec(key, not, e.as_slice())
    } else if is_op(op, "ov") {
        ov_clause_exec(key, not, rhs)
    } else if is_op(op, "in") {
        in_clause_exec(key, not, rhs)
    } else {
        compare_clause_exec(key, "=", rest)
    }
}

/// Translates one PostgREST filter `key=value` into an SQL condition.
pub fn parse_single_filter(key: &str, val: &str) -> (r: Option<String>)
    ensures
        r matches Some(s) && s@ == spec_parse_single_filter(key@, val@),
{
    let k = format_filter_key(chars_of(key).as_slice());
    let v = chars_of(val);
    let not_prefix = lit("not.");
    proof {
        reveal_strlit("not.");
    }
    let not = chars_starts_with(v.as_slice(), not_prefix.as_slice());
    let rest = if not {
        tail(v.as_slice(), 4)
    } else {
        copy_chars(v.as_slice())
    };
    let clause = match find_chars(rest.as_slice(), one('.').as_slice()) {
        Some(i) => {
            let rl = rest.len();
            let op = head(rest.as_slice(), i);
            let rhs = tail(rest.as_slice(), i + 1);
            op_clause_exec(k.as_slice(), not, op.as_slice(), rhs.as_slice(), rest.as_slice())
        },
        None => compare_clause_exec(k.as_slice(), "=", rest.as_slice()),
    };
    Some(string_of(clause.as_slice()))
}

} // verus!
