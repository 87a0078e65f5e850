use vstd::prelude::*;

use crate::text::chars_of;

verus! {

/// A SQL value held in a row.
#[derive(Debug, Clone, PartialEq)]
pub enum Value {
    Null,
    Integer(i64),
    Text(String),
    Boolean(bool),
    Json(String),
}

/// The abstract content of a value.
pub enum ValueView {
    Null,
    Integer(i64),
    Text(Seq<char>),
    Boolean(bool),
    Json(Seq<char>),
}

impl View for Value {
    type V = ValueView;

    open spec fn view(&self) -> ValueView {
        match self {
            Value::Null => ValueView::Null,
            Value::Integer(i) => ValueView::Integer(*i),
            Value::Text(s) => ValueView::Text(s@),
            Value::Boolean(b) => ValueView::Boolean(*b),
            Value::Json(s) => ValueView::Json(s@),
        }
    }
}

/// The views of a row of values.
pub open spec fn row_view(row: Seq<Value>) -> Seq<ValueView> {
    Seq::new(row.len(), |i: int| row[i]@)
}

/// The outcome of comparing two values.
#[derive(Debug, Clone, Copy, PartialEq, Eq, Structural)]
pub enum SqlOrder {
    Less,
    Equal,
    Greater,
}

/// Rank of a value's type, used to order values of different types:
/// NULL, then booleans, integers, text and JSON.
pub open spec fn type_rank(v: ValueView) -> int {
    match v {
        ValueView::Null => 0,
        ValueView::Boolean(_) => 1,
        ValueView::Integer(_) => 2,
        ValueView::Text(_) => 3,
        ValueView::Json(_) => 4,
    }
}

/// Lexicographic order of character strings (the order of their UTF-8 bytes).
pub open spec fn chars_order(a: Seq<char>, b: Seq<char>) -> SqlOrder
    decreases a.len(),
{
    if a.len() == 0 {
        if b.len() == 0 {
            SqlOrder::Equal
        } else {
            SqlOrder::Less
        }
    } else if b.len() == 0 {
        SqlOrder::Greater
    } else if (a[0] as u32) < (b[0] as u32) {
        SqlOrder::Less
    } else if (a[0] as u32) > (b[0] as u32) {
        SqlOrder::Greater
    } else {
        chars_order(a.drop_first(), b.drop_first())
    }
}

/// Order of two values: by type rank first, then within the type
/// (false before true, numeric order, character order).
pub open spec fn spec_sql_cmp(a: ValueView, b: ValueView) -> SqlOrder {
    if type_rank(a) < type_rank(b) {
        SqlOrder::Less
    } else if type_rank(a) > type_rank(b) {
        SqlOrder::Greater
    } else {
        match (a, b) {
            (ValueView::Boolean(x), ValueView::Boolean(y)) => if x == y {
                SqlOrder::Equal
            } else if !x {
                SqlOrder::Less
            } else {
                SqlOrder::Greater
            },
            (ValueView::Integer(x), ValueView::Integer(y)) => if x < y {
                SqlOrder::Less
            } else if x > y {
                SqlOrder::Greater
            } else {
                SqlOrder::Equal
            },
            (ValueView::Text(x), ValueView::Text(y)) => chars_order(x, y),
            (ValueView::Json(x), ValueView::Json(y)) => chars_order(x, y),
            _ => SqlOrder::Equal,
        }
    }
}

/// The opposite outcome of a comparison.
pub open spec fn flip_order(o: SqlOrder) -> SqlOrder {
    match o {
        SqlOrder::Less => SqlOrder::Greater,
        SqlOrder::Equal => SqlOrder::Equal,
        SqlOrder::Greater => SqlOrder::Less,
    }
}

/// Comparing character strings the other way round gives the opposite outcome.
pub proof fn lemma_chars_order_flip(a: Seq<char>, b: Seq<char>)
    ensures
        chars_order(a, b) == flip_order(chars_order(b, a)),
    decreases a.len(),
{
    if a.len() > 0 && b.len() > 0 && (a[0] as u32) == (b[0] as u32) {
        lemma_chars_order_flip(a.drop_first(), b.drop_first());
    }
}

/// Comparing values the other way round gives the opposite outcome.
pub proof fn lemma_sql_cmp_flip(a: ValueView, b: ValueView)
    ensures
        spec_sql_cmp(a, b) == flip_order(spec_sql_cmp(b, a)),
{
    match (a, b) {
        (ValueView::Text(x), ValueView::Text(y)) => lemma_chars_order_flip(x, y),
        (ValueView::Json(x), ValueView::Json(y)) => lemma_chars_order_flip(x, y),
        _ => {},
    }
}

/// Every character string is equal to itself in the order.
pub proof fn lemma_chars_order_refl(a: Seq<char>)
    ensures
        chars_order(a, a) == SqlOrder::Equal,
    decreases a.len(),
{
    if a.len() > 0 {
        lemma_chars_order_refl(a.drop_first());
    }
}

/// Every value compares equal to itself.
pub proof fn lemma_sql_cmp_refl(a: ValueView)
    ensures
        spec_sql_cmp(a, a) == SqlOrder::Equal,
{
    match a {
        ValueView::Text(x) => lemma_chars_order_refl(x),
        ValueView::Json(x) => lemma_chars_order_refl(x),
        _ => {},
    }
}

/// Integers are ordered by their signed value: one integer comes before another exactly
/// when it is smaller, after it exactly when it is larger, and ties exactly when equal.
pub proof fn lemma_integer_order(a: i64, b: i64)
    ensures
        (spec_sql_cmp(ValueView::Integer(a), ValueView::Integer(b)) == SqlOrder::Less) <==> a < b,
        (spec_sql_cmp(ValueView::Integer(a), ValueView::Integer(b)) == SqlOrder::Greater) <==> a > b,
        (spec_sql_cmp(ValueView::Integer(a), ValueView::Integer(b)) == SqlOrder::Equal) <==> a == b,
{
}

/// NULL comes before every other value, and `false` before `true`.
pub proof fn lemma_null_and_boolean_order(v: ValueView)
    ensures
        !(v is Null) ==> spec_sql_cmp(ValueView::Null, v) == SqlOrder::Less,
        spec_sql_cmp(ValueView::Boolean(false), ValueView::Boolean(true)) == SqlOrder::Less,
{
}

/// The order on character strings is transitive.
pub proof fn lemma_chars_order_trans(a: Seq<char>, b: Seq<char>, c: Seq<char>)
    requires
        chars_order(a, b) == SqlOrder::Less,
        chars_order(b, c) == SqlOrder::Less,
    ensures
        chars_order(a, c) == SqlOrder::Less,
    decreases a.len(),
{
    if a.len() > 0 && b.len() > 0 && c.len() > 0 && (a[0] as u32) == (b[0] as u32) && (b[0] as u32) == (c[0] as u32) {
        lemma_chars_order_trans(a.drop_first(), b.drop_first(), c.drop_first());
    }
}

/// "Less" on values is transitive.
pub proof fn lemma_sql_cmp_trans(a: ValueView, b: ValueView, c: ValueView)
    requires
        spec_sql_cmp(a, b) == SqlOrder::Less,
        spec_sql_cmp(b, c) == SqlOrder::Less,
    ensures
        spec_sql_cmp(a, c) == SqlOrder::Less,
{
    match (a, b, c) {
        (ValueView::Text(x), ValueView::Text(y), ValueView::Text(z)) => lemma_chars_order_trans(x, y, z),
        (ValueView::Json(x), ValueView::Json(y), ValueView::Json(z)) => lemma_chars_order_trans(x, y, z),
        _ => {},
    }
}

proof fn lemma_chars_order_skip(a: Seq<char>, b: Seq<char>, i: int)
    requires
        0 <= i < a.len(),
        i < b.len(),
        a[i] == b[i],
    ensures
        chars_order(a.skip(i), b.skip(i)) == chars_order(a.skip(i + 1), b.skip(i + 1)),
{
    assert(a.skip(i).drop_first() =~= a.skip(i + 1));
    assert(b.skip(i).drop_first() =~= b.skip(i + 1));
}

fn chars_compare(a: &[char], b: &[char]) -> (r: SqlOrder)
    ensures
        r == chars_order(a@, b@),
{
    let n = a.len();
    let m = b.len();
    let mut i: usize = 0;
    assert(a@.skip(0) =~= a@);
    assert(b@.skip(0) =~= b@);
    while i < n && i < m
        invariant
            n == a@.len(),
            m == b@.len(),
            i <= n,
            i <= m,
            chars_order(a@, b@) == chars_order(a@.skip(i as int), b@.skip(i as int)),
        decreases n - i,
    {
        let x = a[i] as u32;
        let y = b[i] as u32;
        assert(a@.skip(i as int)[0] == a@[i as int]);
        assert(b@.skip(i as int)[0] == b@[i as int]);
        if x < y {
            return SqlOrder::Less;
        }
        if x > y {
            return SqlOrder::Greater;
        }
        proof {
            vstd::utf8::char_u32_cast(a@[i as int], x);
            vstd::utf8::char_u32_cast(b@[i as int], y);
            lemma_chars_order_skip(a@, b@, i as int);
        }
        i = i + 1;
    }
    assert(a@.skip(i as int).len() == n - i);
    assert(b@.skip(i as int).len() == m - i);
    if i == n && i == m {
        SqlOrder::Equal
    } else if i == n {
        SqlOrder::Less
    } else {
        SqlOrder::Greater
    }
}

fn type_rank_exec(v: &Value) -> (r: u8)
    ensures
        r as int == type_rank(v@),
{
    match v {
        Value::Null => 0,
        Value::Boolean(_) => 1,
        Value::Integer(_) => 2,
        Value::Text(_) => 3,
        Value::Json(_) => 4,
    }
}

/// Compares two values.
pub fn sql_cmp(a: &Value, b: &Value) -> (r: SqlOrder)
    ensures
        r == spec_sql_cmp(a@, b@),
{
    let ra = type_rank_exec(a);
    let rb = type_rank_exec(b);
    if ra < rb {
        return SqlOrder::Less;
    }
    if ra > rb {
        return SqlOrder::Greater;
    }
    match (a, b) {
        (Value::Boolean(x), Value::Boolean(y)) => {
            if *x == *y {
                SqlOrder::Equal
            } else if !*x {
                SqlOrder::Less
            } else {
                SqlOrder::Greater
            }
        },
        (Value::Integer(x), Value::Integer(y)) => {
            if *x < *y {
                SqlOrder::Less
            } else if *x > *y {
                SqlOrder::Greater
            } else {
                SqlOrder::Equal
            }
        },
        (Value::Text(x), Value::Text(y)) => {
            let xs = chars_of(x.as_str());
            let ys = chars_of(y.as_str());
            chars_compare(xs.as_slice(), ys.as_slice())
        },
        (Value::Json(x), Value::Json(y)) => {
            let xs = chars_of(x.as_str());
            let ys = chars_of(y.as_str());
            chars_compare(xs.as_slice(), ys.as_slice())
        },
        _ => SqlOrder::Equal,
    }
}

/// Whether two values are the same value.
pub fn values_equal(a: &Value, b: &Value) -> (r: bool)
    ensures
        r == (a@ == b@),
{
    match (a, b) {
        (Value::Null, Value::Null) => true,
        (Value::Integer(x), Value::Integer(y)) => *x == *y,
        (Value::Boolean(x), Value::Boolean(y)) => *x == *y,
        (Value::Text(x), Value::Text(y)) => crate::text::str_equal(x.as_str(), y.as_str()),
        (Value::Json(x), Value::Json(y)) => crate::text::str_equal(x.as_str(), y.as_str()),
        _ => false,
    }
}

/// A copy of a value.
pub fn copy_value(v: &Value) -> (r: Value)
    ensures
        r@ == v@,
{
    match v {
        Value::Null => Value::Null,
        Value::Integer(i) => Value::Integer(*i),
        Value::Text(s) => Value::Text(s.clone()),
        Value::Boolean(b) => Value::Boolean(*b),
        Value::Json(s) => Value::Json(s.clone()),
    }
}

} // verus!
