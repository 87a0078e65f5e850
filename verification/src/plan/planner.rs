use vstd::prelude::*;

use crate::sql::ast::{BinOp, Expr};
use crate::text::str_equal;
use crate::types::schema::{IndexSchema, IndexSchemaView};
use crate::types::value::{Value, ValueView};

verus! {

/// Whether an `OR` occurs anywhere along the chain of binary operations.
pub open spec fn spec_contains_or(e: Expr) -> bool
    decreases e,
{
    match e {
        Expr::BinaryOp { op, left, right } => op == BinOp::Or || spec_contains_or(*left)
            || spec_contains_or(*right),
        _ => false,
    }
}

/// Whether the expression holds an `OR` among its binary operations.
pub fn contains_or(expr: &Expr) -> (b: bool)
    ensures
        b == spec_contains_or(*expr),
    decreases expr,
{
    match expr {
        Expr::BinaryOp { op, left, right } => {
            if *op == BinOp::Or {
                true
            } else {
                contains_or(left) || contains_or(right)
            }
        },
        _ => false,
    }
}

/// The value of an integer, string or boolean literal.
pub open spec fn spec_literal_value(e: Expr) -> Option<ValueView> {
    match e {
        Expr::IntLiteral(n) => Some(ValueView::Integer(n)),
        Expr::StringLiteral(s) => Some(ValueView::Text(s@)),
        Expr::BoolLiteral(b) => Some(ValueView::Boolean(b)),
        _ => None,
    }
}

/// The value of a literal expression.
pub fn literal_value(expr: &Expr) -> (r: Option<Value>)
    ensures
        r is Some == spec_literal_value(*expr) is Some,
        r matches Some(v) ==> spec_literal_value(*expr) == Some(v@),
{
    match expr {
        Expr::IntLiteral(n) => Some(Value::Integer(*n)),
        Expr::StringLiteral(s) => Some(Value::Text(s.clone())),
        Expr::BoolLiteral(b) => Some(Value::Boolean(*b)),
        _ => None,
    }
}

/// The operands of the top-level chain of `AND`s, left to right.
pub open spec fn conjuncts(e: Expr) -> Seq<Expr>
    decreases e,
{
    match e {
        Expr::BinaryOp { op, left, right } => if op == BinOp::And {
            conjuncts(*left) + conjuncts(*right)
        } else {
            seq![e]
        },
        _ => seq![e],
    }
}

/// Appends the operands of the top-level chain of `AND`s.
pub fn split_and_conjuncts(expr: Expr, out: &mut Vec<Expr>)
    ensures
        final(out)@ == old(out)@ + conjuncts(expr),
    decreases expr,
{
    let ghost e = expr;
    match expr {
        Expr::BinaryOp { op, left, right } => {
            if op == BinOp::And {
                split_and_conjuncts(*left, out);
                split_and_conjuncts(*right, out);
                assert(out@ =~= old(out)@ + conjuncts(e));
            } else {
                out.push(Expr::BinaryOp { op, left, right });
                assert(out@ =~= old(out)@ + conjuncts(e));
            }
        },
        other => {
            out.push(other);
            assert(out@ =~= old(out)@ + conjuncts(e));
        },
    }
}

/// The conjuncts joined left to right with `AND`.
pub open spec fn and_chain(s: Seq<Expr>) -> Expr
    decreases s.len(),
{
    if s.len() <= 1 {
        s[0]
    } else {
        Expr::BinaryOp {
            op: BinOp::And,
            left: Box::new(and_chain(s.drop_last())),
            right: Box::new(s.last()),
        }
    }
}

/// The conjunction of the conjuncts, or nothing when there are none.
pub open spec fn spec_rebuild_and(s: Seq<Expr>) -> Option<Expr> {
    if s.len() == 0 {
        None
    } else {
        Some(and_chain(s))
    }
}

/// Joins conjuncts back into one `AND` chain.
pub fn rebuild_and(conjuncts: Vec<Expr>) -> (r: Option<Expr>)
    ensures
        r == spec_rebuild_and(conjuncts@),
{
    let ghost all = conjuncts@;
    let total = conjuncts.len();
    if total == 0 {
        return None;
    }
    let mut rest = conjuncts;
    let mut acc = rest.remove(0);
    let mut done: usize = 1;
    assert(all.subrange(0, 1).drop_last() =~= Seq::<Expr>::empty());
    while rest.len() > 0
        invariant
            rest@ == all.subrange(done as int, all.len() as int),
            total == all.len(),
            1 <= done <= all.len(),
            acc == and_chain(all.subrange(0, done as int)),
        decreases rest@.len(),
    {
        let c = rest.remove(0);
        let ghost sub = all.subrange(0, done + 1);
        assert(sub.drop_last() =~= all.subrange(0, done as int));
        assert(sub.last() == c);
        acc = Expr::BinaryOp { op: BinOp::And, left: Box::new(acc), right: Box::new(c) };
        done = done + 1;
        assert(rest@ =~= all.subrange(done as int, all.len() as int));
    }
    assert(all.subrange(0, done as int) =~= all);
    Some(acc)
}

/// The literal a conjunct compares for equality with the column `col`: `col = lit` or
/// `lit = col`.
pub open spec fn pk_literal(c: Expr, col: Seq<char>) -> Option<ValueView> {
    match c {
        Expr::BinaryOp { op, left, right } => if op != BinOp::Eq {
            None
        } else if (*left matches Expr::Column(n) && n@ == col) {
            spec_literal_value(*right)
        } else if (*right matches Expr::Column(n) && n@ == col) {
            spec_literal_value(*left)
        } else {
            None
        },
        _ => None,
    }
}

fn pk_literal_of(c: &Expr, col: &str) -> (r: Option<Value>)
    ensures
        r is Some == pk_literal(*c, col@) is Some,
        r matches Some(v) ==> pk_literal(*c, col@) == Some(v@),
{
    match c {
        Expr::BinaryOp { op, left, right } => {
            if *op != BinOp::Eq {
                return None;
            }
            if let Expr::Column(n) = &**left {
                if str_equal(n.as_str(), col) {
                    return literal_value(right);
                }
            }
            if let Expr::Column(n) = &**right {
                if str_equal(n.as_str(), col) {
                    return literal_value(left);
                }
            }
            None
        },
        _ => None,
    }
}

/// Position of the first conjunct that compares `col` with a literal.
pub open spec fn first_pk_conjunct(cs: Seq<Expr>, col: Seq<char>) -> Option<int>
    decreases cs.len(),
{
    if cs.len() == 0 {
        None
    } else if pk_literal(cs[0], col) is Some {
        Some(0)
    } else {
        match first_pk_conjunct(cs.drop_first(), col) {
            Some(i) => Some(i + 1),
            None => None,
        }
    }
}

/// The primary-key value a `WHERE` clause pins down, and what is left to filter: nothing
/// is extracted from a clause with an `OR`; otherwise the first conjunct comparing the key
/// column with a literal is taken out and the others are joined again.
pub open spec fn spec_extract_pk(where_clause: Option<Expr>, col: Seq<char>) -> (Option<ValueView>, Option<Expr>) {
    match where_clause {
        None => (None, None),
        Some(e) => if spec_contains_or(e) {
            (None, Some(e))
        } else {
            let cs = conjuncts(e);
            match first_pk_conjunct(cs, col) {
                Some(i) => (pk_literal(cs[i], col), spec_rebuild_and(cs.remove(i))),
                None => (None, spec_rebuild_and(cs)),
            }
        },
    }
}

proof fn lemma_first_pk_skip(cs: Seq<Expr>, col: Seq<char>, i: int)
    requires
        0 <= i <= cs.len(),
        forall|j: int| 0 <= j < i ==> pk_literal(#[trigger] cs[j], col) is None,
    ensures
        first_pk_conjunct(cs, col) == match first_pk_conjunct(cs.skip(i), col) {
            Some(k) => Some(k + i),
            None => None::<int>,
        },
    decreases i,
{
    if i == 0 {
        assert(cs.skip(0) =~= cs);
    } else {
        assert(pk_literal(cs[0], col) is None);
        assert forall|j: int| 0 <= j < i - 1 implies pk_literal(#[trigger] cs.drop_first()[j], col) is None by {
            assert(cs.drop_first()[j] == cs[j + 1]);
        }
        lemma_first_pk_skip(cs.drop_first(), col, i - 1);
        assert(cs.drop_first().skip(i - 1) =~= cs.skip(i));
    }
}

/// Splits a `WHERE` clause into a primary-key value to seek on and the rest to filter.
pub fn extract_pk_equality(where_clause: Option<Expr>, pk_col: &str) -> (r: (Option<Value>, Option<Expr>))
    ensures
        r.0 is Some == spec_extract_pk(where_clause, pk_col@).0 is Some,
        r.0 matches Some(v) ==> spec_extract_pk(where_clause, pk_col@).0 == Some(v@),
        r.1 == spec_extract_pk(where_clause, pk_col@).1,
{
    let expr = match where_clause {
        Some(e) => e,
        None => {
            return (None, None);
        },
    };
    if contains_or(&expr) {
        return (None, Some(expr));
    }
    let ghost e = expr;
    let mut rest: Vec<Expr> = Vec::new();
    split_and_conjuncts(expr, &mut rest);
    let ghost cs = conjuncts(e);
    assert(rest@ =~= cs);
    let total = rest.len();
    let mut done: usize = 0;
    let mut pk_value: Option<Value> = None;
    let ghost mut hit: int = -1;
    let mut remaining: Vec<Expr> = Vec::new();
    while rest.len() > 0
        invariant
            total == cs.len(),
            done <= cs.len(),
            rest@ == cs.subrange(done as int, cs.len() as int),
            pk_value is None ==> hit == -1 && remaining@ == cs.subrange(0, done as int) && forall|j: int|
                0 <= j < done ==> pk_literal(#[trigger] cs[j], pk_col@) is None,
            pk_value is Some ==> 0 <= hit < done && first_pk_conjunct(cs, pk_col@) == Some(hit)
                && remaining@ == cs.subrange(0, done as int).remove(hit) && pk_literal(cs[hit], pk_col@)
                == Some(pk_value->0@),
        decreases rest@.len(),
    {
        let c = rest.remove(0);
        assert(c == cs[done as int]);
        let ghost before = remaining@;
        let mut taken = false;
        if pk_value.is_none() {
            let m = pk_literal_of(&c, pk_col);
            if m.is_some() {
                proof {
                    lemma_first_pk_skip(cs, pk_col@, done as int);
                    assert(cs.skip(done as int)[0] == cs[done as int]);
                    hit = done as int;
                }
                pk_value = m;
                taken = true;
                assert(cs.subrange(0, done + 1).remove(done as int) =~= cs.subrange(0, done as int));
            }
        }
        if !taken {
            remaining.push(c);
            if pk_value.is_some() {
                assert(cs.subrange(0, done + 1).remove(hit) =~= cs.subrange(0, done as int).remove(
                    hit,
                ).push(cs[done as int]));
            } else {
                assert(cs.subrange(0, done + 1) =~= cs.subrange(0, done as int).push(cs[done as int]));
            }
        }
        done = done + 1;
        assert(rest@ =~= cs.subrange(done as int, cs.len() as int));
    }
    assert(cs.subrange(0, cs.len() as int) =~= cs);
    if pk_value.is_none() {
        proof {
            lemma_first_pk_skip(cs, pk_col@, cs.len() as int);
        }
    }
    (pk_value, rebuild_and(remaining))
}

/// The index on a column, and the literal a conjunct compares it with: `col = lit` or
/// `lit = col`, with the first index on `col`.
pub open spec fn first_index_on(indexes: Seq<IndexSchemaView>, col: Seq<char>) -> Option<int>
    decreases indexes.len(),
{
    if indexes.len() == 0 {
        None
    } else if indexes[0].column == col {
        Some(0)
    } else {
        match first_index_on(indexes.drop_first(), col) {
            Some(i) => Some(i + 1),
            None => None,
        }
    }
}

/// The index and literal a conjunct can be answered with: for `col = x`, the first index
/// on `col` and `x` as a literal; otherwise, for `x = col`, the same with the sides swapped.
pub open spec fn index_literal(c: Expr, indexes: Seq<IndexSchemaView>) -> Option<(int, ValueView)> {
    match c {
        Expr::BinaryOp { op, left, right } => if op != BinOp::Eq {
            None
        } else {
            match *left {
                Expr::Column(n) => match (first_index_on(indexes, n@), spec_literal_value(*right)) {
                    (Some(i), Some(v)) => Some((i, v)),
                    _ => None,
                },
                _ => match *right {
                    Expr::Column(n) => match (first_index_on(indexes, n@), spec_literal_value(*left)) {
                        (Some(i), Some(v)) => Some((i, v)),
                        _ => None,
                    },
                    _ => None,
                },
            }
        },
        _ => None,
    }
}

/// The views of index descriptions.
pub open spec fn index_views(s: Seq<IndexSchema>) -> Seq<IndexSchemaView> {
    Seq::new(s.len(), |i: int| s[i]@)
}

fn index_on(indexes: &[IndexSchema], col: &str) -> (r: Option<usize>)
    ensures
        r matches Some(i) ==> Some(i as int) == first_index_on(index_views(indexes@), col@),
        r is None ==> first_index_on(index_views(indexes@), col@) is None,
{
    let ghost v = index_views(indexes@);
    let mut i: usize = 0;
    assert(v.skip(0) =~= v);
    while i < indexes.len()
        invariant
            v == index_views(indexes@),
            i <= indexes@.len(),
            first_index_on(v, col@) == match first_index_on(v.skip(i as int), col@) {
                Some(j) => Some(j + i),
                None => None::<int>,
            },
        decreases indexes@.len() - i,
    {
        assert(v.skip(i as int)[0] == indexes@[i as int]@);
        if str_equal(indexes[i].column.as_str(), col) {
            return Some(i);
        }
        assert(v.skip(i as int).drop_first() =~= v.skip(i + 1));
        i = i + 1;
    }
    None
}

fn index_literal_of(c: &Expr, indexes: &[IndexSchema]) -> (r: Option<(usize, Value)>)
    ensures
        r is Some == index_literal(*c, index_views(indexes@)) is Some,
        r matches Some(p) ==> index_literal(*c, index_views(indexes@)) == Some((p.0 as int, p.1@)),
{
    match c {
        Expr::BinaryOp { op, left, right } => {
            if *op != BinOp::Eq {
                return None;
            }
            if let Expr::Column(n) = &**left {
                return match (index_on(indexes, n.as_str()), literal_value(right)) {
                    (Some(i), Some(v)) => Some((i, v)),
                    _ => None,
                };
            }
            if let Expr::Column(n) = &**right {
                return match (index_on(indexes, n.as_str()), literal_value(left)) {
                    (Some(i), Some(v)) => Some((i, v)),
                    _ => None,
                };
            }
            None
        },
        _ => None,
    }
}

/// Position of the first conjunct that an index can answer.
pub open spec fn first_index_conjunct(cs: Seq<Expr>, indexes: Seq<IndexSchemaView>) -> Option<int>
    decreases cs.len(),
{
    if cs.len() == 0 {
        None
    } else if index_literal(cs[0], indexes) is Some {
        Some(0)
    } else {
        match first_index_conjunct(cs.drop_first(), indexes) {
            Some(i) => Some(i + 1),
            None => None,
        }
    }
}

proof fn lemma_first_index_skip(cs: Seq<Expr>, ix: Seq<IndexSchemaView>, i: int)
    requires
        0 <= i <= cs.len(),
        forall|j: int| 0 <= j < i ==> index_literal(#[trigger] cs[j], ix) is None,
    ensures
        first_index_conjunct(cs, ix) == match first_index_conjunct(cs.skip(i), ix) {
            Some(k) => Some(k + i),
            None => None::<int>,
        },
    decreases i,
{
    if i == 0 {
        assert(cs.skip(0) =~= cs);
    } else {
        assert(index_literal(cs[0], ix) is None);
        assert forall|j: int| 0 <= j < i - 1 implies index_literal(#[trigger] cs.drop_first()[j], ix) is None by {
            assert(cs.drop_first()[j] == cs[j + 1]);
        }
        lemma_first_index_skip(cs.drop_first(), ix, i - 1);
        assert(cs.drop_first().skip(i - 1) =~= cs.skip(i));
    }
}

/// The index seek a `WHERE` clause allows: none for a clause with an `OR`; otherwise the
/// first conjunct an index can answer gives the index and value, and the other conjuncts
/// are joined again.
pub open spec fn spec_find_index(where_clause: Option<Expr>, ix: Seq<IndexSchemaView>) -> Option<(int, ValueView, Option<Expr>)> {
    match where_clause {
        None => None,
        Some(e) => if spec_contains_or(e) {
            None
        } else {
            let cs = conjuncts(e);
            match first_index_conjunct(cs, ix) {
                Some(i) => match index_literal(cs[i], ix) {
                    Some((k, v)) => Some((k, v, spec_rebuild_and(cs.remove(i)))),
                    None => None,
                },
                None => None,
            }
        },
    }
}

/// Finds an equality on an indexed column to seek with, and what is left to filter.
pub fn find_index_equality(where_clause: Option<Expr>, indexes: &[IndexSchema]) -> (r: Option<(IndexSchema, Value, Option<Expr>)>)
    ensures
        r is Some == spec_find_index(where_clause, index_views(indexes@)) is Some,
        r matches Some(t) ==> spec_find_index(where_clause, index_views(indexes@)) matches Some(s)
            && t.0@ == indexes@[s.0]@ && t.1@ == s.1 && t.2 == s.2,
{
    let ghost ix = index_views(indexes@);
    let expr = match where_clause {
        Some(e) => e,
        None => {
            return None;
        },
    };
    if contains_or(&expr) {
        return None;
    }
    let ghost e = expr;
    let mut rest: Vec<Expr> = Vec::new();
    split_and_conjuncts(expr, &mut rest);
    let ghost cs = conjuncts(e);
    assert(rest@ =~= cs);
    let total = rest.len();
    let mut done: usize = 0;
    let mut matched: Option<(usize, Value)> = None;
    let ghost mut hit: int = -1;
    let mut remaining: Vec<Expr> = Vec::new();
    while rest.len() > 0
        invariant
            ix == index_views(indexes@),
            total == cs.len(),
            done <= cs.len(),
            rest@ == cs.subrange(done as int, cs.len() as int),
            matched is None ==> hit == -1 && remaining@ == cs.subrange(0, done as int) && forall|j: int|
                0 <= j < done ==> index_literal(#[trigger] cs[j], ix) is None,
            matched is Some ==> 0 <= hit < done && first_index_conjunct(cs, ix) == Some(hit)
                && remaining@ == cs.subrange(0, done as int).remove(hit) && index_literal(cs[hit], ix)
                == Some(((matched->0).0 as int, (matched->0).1@)),
        decreases rest@.len(),
    {
        let c = rest.remove(0);
        assert(c == cs[done as int]);
        let mut taken = false;
        if matched.is_none() {
            let m = index_literal_of(&c, indexes);
            if m.is_some() {
                proof {
                    lemma_first_index_skip(cs, ix, done as int);
                    assert(cs.skip(done as int)[0] == cs[done as int]);
                    hit = done as int;
                }
                matched = m;
                taken = true;
                assert(cs.subrange(0, done + 1).remove(done as int) =~= cs.subrange(0, done as int));
            }
        }
        if !taken {
            remaining.push(c);
            if matched.is_some() {
                assert(cs.subrange(0, done + 1).remove(hit) =~= cs.subrange(0, done as int).remove(
                    hit,
                ).push(cs[done as int]));
            } else {
                assert(cs.subrange(0, done + 1) =~= cs.subrange(0, done as int).push(cs[done as int]));
            }
        }
        done = done + 1;
        assert(rest@ =~= cs.subrange(done as int, cs.len() as int));
    }
    assert(cs.subrange(0, cs.len() as int) =~= cs);
    match matched {
        Some((i, v)) => {
            proof {
                lemma_first_index_bound(ix, cs[hit]);
            }
            let idx = indexes[i].copy();
            Some((idx, v, rebuild_and(remaining)))
        },
        None => {
            proof {
                lemma_first_index_skip(cs, ix, cs.len() as int);
            }
            None
        },
    }
}

proof fn lemma_first_index_on_bound(ix: Seq<IndexSchemaView>, col: Seq<char>)
    ensures
        first_index_on(ix, col) matches Some(i) ==> 0 <= i < ix.len(),
    decreases ix.len(),
{
    if ix.len() > 0 {
        lemma_first_index_on_bound(ix.drop_first(), col);
    }
}

proof fn lemma_first_index_bound(ix: Seq<IndexSchemaView>, c: Expr)
    ensures
        index_literal(c, ix) matches Some(p) ==> 0 <= p.0 < ix.len(),
{
    match c {
        Expr::BinaryOp { op: _, left, right } => {
            match *left {
                Expr::Column(n) => lemma_first_index_on_bound(ix, n@),
                _ => match *right {
                    Expr::Column(n) => lemma_first_index_on_bound(ix, n@),
                    _ => {},
                },
            }
        },
        _ => {},
    }
}

} // verus!
