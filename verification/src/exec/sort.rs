use vstd::prelude::*;

use crate::error::ExecError;
use crate::exec::{copy_row, rows_view, Operator};
use crate::types::value::{
    flip_order, lemma_sql_cmp_flip, row_view, spec_sql_cmp, sql_cmp, SqlOrder, Value, ValueView,
};

verus! {

/// How two rows compare on the value at `key`; with `desc` the comparison is reversed
/// (NULL, which otherwise comes first, then comes last).
pub open spec fn sort_order(a: Seq<ValueView>, b: Seq<ValueView>, key: int, desc: bool) -> SqlOrder {
    let o = spec_sql_cmp(a[key], b[key]);
    if desc {
        flip_order(o)
    } else {
        o
    }
}

/// `out` is `rows` rearranged by the permutation `perm` (position `k` of `out` holds
/// row `perm[k]`), ordered on the key, with rows of equal keys left in input order.
pub open spec fn sorted_by_perm(
    rows: Seq<Seq<ValueView>>,
    out: Seq<Seq<ValueView>>,
    perm: Seq<int>,
    key: int,
    desc: bool,
) -> bool {
    &&& out.len() == rows.len()
    &&& perm.len() == rows.len()
    &&& forall|k: int| 0 <= k < perm.len() ==> 0 <= #[trigger] perm[k] < rows.len() && out[k] == rows[perm[k]]
    &&& forall|k1: int, k2: int|
        0 <= k1 < perm.len() && 0 <= k2 < perm.len() && k1 != k2 ==> #[trigger] perm[k1] != #[trigger] perm[k2]
    &&& forall|k: int| 0 <= k < out.len() - 1 ==> #[trigger] sort_order(out[k], out[k + 1], key, desc) != SqlOrder::Greater
    &&& forall|k: int|
        0 <= k < out.len() - 1 && #[trigger] sort_order(out[k], out[k + 1], key, desc) == SqlOrder::Equal ==> perm[k]
            < perm[k + 1]
}

/// `out` is the stable sort of `rows` on the value at `key`.
pub open spec fn is_stable_sort(rows: Seq<Seq<ValueView>>, out: Seq<Seq<ValueView>>, key: int, desc: bool) -> bool {
    exists|perm: Seq<int>| sorted_by_perm(rows, out, perm, key, desc)
}

/// Reversing the arguments reverses the comparison.
proof fn lemma_sort_order_flip(a: Seq<ValueView>, b: Seq<ValueView>, key: int, desc: bool)
    ensures
        sort_order(a, b, key, desc) == flip_order(sort_order(b, a, key, desc)),
{
    lemma_sql_cmp_flip(a[key], b[key]);
}

/// Inserting the next input row just after the rows that do not come after it keeps
/// the result a stable sort of the longer input.
proof fn lemma_insert_sorted(
    rows: Seq<Seq<ValueView>>,
    out: Seq<Seq<ValueView>>,
    perm: Seq<int>,
    i: int,
    j: int,
    key: int,
    desc: bool,
)
    requires
        0 <= i < rows.len(),
        sorted_by_perm(rows.take(i), out, perm, key, desc),
        0 <= j <= out.len(),
        j > 0 ==> sort_order(rows[i], out[j - 1], key, desc) != SqlOrder::Less,
        j < out.len() ==> sort_order(rows[i], out[j], key, desc) == SqlOrder::Less,
    ensures
        sorted_by_perm(rows.take(i + 1), out.insert(j, rows[i]), perm.insert(j, i), key, desc),
{
    let r2 = rows.take(i + 1);
    let o2 = out.insert(j, rows[i]);
    let p2 = perm.insert(j, i);
    assert forall|k: int| 0 <= k < p2.len() implies 0 <= #[trigger] p2[k] < r2.len() && o2[k] == r2[p2[k]] by {
        if k < j {
            assert(p2[k] == perm[k]);
        } else if k > j {
            assert(p2[k] == perm[k - 1]);
        }
    }
    assert forall|k1: int, k2: int|
        0 <= k1 < p2.len() && 0 <= k2 < p2.len() && k1 != k2 implies #[trigger] p2[k1] != #[trigger] p2[k2] by {
        let a = if k1 < j { k1 } else { k1 - 1 };
        let b = if k2 < j { k2 } else { k2 - 1 };
        if k1 != j && k2 != j {
            assert(p2[k1] == perm[a]);
            assert(p2[k2] == perm[b]);
            assert(perm[a] != perm[b]);
        } else if k1 == j {
            assert(p2[k2] == perm[b]);
            assert(perm[b] < i);
        } else {
            assert(p2[k1] == perm[a]);
            assert(perm[a] < i);
        }
    }
    assert forall|k: int| 0 <= k < o2.len() - 1 implies #[trigger] sort_order(o2[k], o2[k + 1], key, desc)
        != SqlOrder::Greater && (sort_order(o2[k], o2[k + 1], key, desc) == SqlOrder::Equal ==> p2[k] < p2[k + 1]) by {
        if k + 1 < j {
            assert(o2[k] == out[k] && o2[k + 1] == out[k + 1]);
            assert(sort_order(out[k], out[k + 1], key, desc) != SqlOrder::Greater);
        } else if k + 1 == j {
            assert(o2[k] == out[j - 1] && o2[k + 1] == rows[i]);
            lemma_sort_order_flip(out[j - 1], rows[i], key, desc);
            assert(perm[k] < i);
        } else if k == j {
            assert(o2[k] == rows[i] && o2[k + 1] == out[j]);
        } else {
            assert(o2[k] == out[k - 1] && o2[k + 1] == out[k]);
            assert(sort_order(out[k - 1], out[(k - 1) + 1], key, desc) != SqlOrder::Greater);
        }
    }
}

/// The sort order on the value at a `usize` position.
pub open spec fn sort_order_at(a: Seq<ValueView>, b: Seq<ValueView>, key: usize, desc: bool) -> SqlOrder {
    sort_order(a, b, key as int, desc)
}

/// Whether `a` goes strictly before `b` in the sort order.
fn goes_before(a: &[Value], b: &[Value], key: usize, desc: bool) -> (r: bool)
    requires
        key < a@.len(),
        key < b@.len(),
    ensures
        r == (sort_order_at(row_view(a@), row_view(b@), key, desc) == SqlOrder::Less),
{
    let o = sql_cmp(&a[key], &b[key]);
    if desc {
        match o {
            SqlOrder::Greater => true,
            _ => false,
        }
    } else {
        match o {
            SqlOrder::Less => true,
            _ => false,
        }
    }
}

/// Passes on the input rows ordered on the value of one column, keeping the input order
/// among rows with equal values.
pub struct Sort {
    output: Vec<Vec<Value>>,
    pos: usize,
    key_index: usize,
    descending: bool,
}

impl Sort {
    #[verifier::type_invariant]
    spec fn inv(self) -> bool {
        self.pos <= self.output@.len()
    }

    /// The rows in sorted order.
    pub closed spec fn sorted(&self) -> Seq<Seq<ValueView>> {
        rows_view(self.output@)
    }

    /// How many sorted rows have been passed on.
    pub closed spec fn position(&self) -> int {
        self.pos as int
    }

    /// The column sorted on.
    pub closed spec fn key(&self) -> usize {
        self.key_index
    }

    /// Whether the order is descending.
    pub closed spec fn is_descending(&self) -> bool {
        self.descending
    }

    /// A sort of `input` on the column at `key_index`, which lies within every input row.
    pub fn new(input: Vec<Vec<Value>>, key_index: usize, descending: bool) -> (s: Self)
        requires
            forall|r: int| 0 <= r < input@.len() ==> key_index < (#[trigger] input@[r])@.len(),
        ensures
            is_stable_sort(rows_view(input@), s.sorted(), key_index as int, descending),
            s.position() == 0,
            s.key() == key_index,
            s.is_descending() == descending,
    {
        let ghost rows = rows_view(input@);
        let ghost key = key_index as int;
        let n = input.len();
        let mut out: Vec<Vec<Value>> = Vec::new();
        let ghost mut perm: Seq<int> = Seq::empty();
        let mut i: usize = 0;
        assert(rows.take(0) =~= Seq::<Seq<ValueView>>::empty());
        assert(rows_view(out@) =~= Seq::<Seq<ValueView>>::empty());
        while i < n
            invariant
                n == input@.len(),
                i <= n,
                rows == rows_view(input@),
                key == key_index as int,
                forall|r: int| 0 <= r < n ==> key_index < (#[trigger] input@[r])@.len(),
                forall|k: int| 0 <= k < out@.len() ==> key_index < (#[trigger] out@[k])@.len(),
                sorted_by_perm(rows.take(i as int), rows_view(out@), perm, key, descending),
            decreases n - i,
        {
            let x = copy_row(input[i].as_slice());
            assert(key_index < input@[i as int]@.len());
            assert(x@.len() == input@[i as int]@.len()) by {
                assert(row_view(x@).len() == row_view(input@[i as int]@).len());
            }
            assert(rows[i as int] == row_view(x@));
            let ghost ov = rows_view(out@);
            let mut j: usize = out.len();
            while j > 0 && goes_before(x.as_slice(), out[j - 1].as_slice(), key_index, descending)
                invariant
                    j <= out@.len(),
                    ov == rows_view(out@),
                    key == key_index as int,
                    key_index < x@.len(),
                    forall|k: int| 0 <= k < out@.len() ==> key_index < (#[trigger] out@[k])@.len(),
                    j < out@.len() ==> sort_order(row_view(x@), ov[j as int], key, descending) == SqlOrder::Less,
                decreases j,
            {
                j = j - 1;
            }
            proof {
                lemma_insert_sorted(rows, ov, perm, i as int, j as int, key, descending);
                perm = perm.insert(j as int, i as int);
            }
            out.insert(j, x);
            assert(rows_view(out@) =~= ov.insert(j as int, rows[i as int]));
            i = i + 1;
        }
        assert(rows.take(n as int) =~= rows);
        Sort { output: out, pos: 0, key_index, descending }
    }
}

impl Operator for Sort {
    fn next(&mut self) -> (r: Result<Option<Vec<Value>>, ExecError>)
        ensures
            final(self).sorted() == old(self).sorted(),
            old(self).position() < old(self).sorted().len() ==> (r matches Ok(Some(row)) && row_view(row@)
                == old(self).sorted()[old(self).position()] && final(self).position() == old(self).position() + 1),
            old(self).position() >= old(self).sorted().len() ==> (r matches Ok(None) && final(self).position()
                == old(self).position()),
    {
        proof {
            use_type_invariant(&*self);
        }
        if self.pos < self.output.len() {
            let i = self.pos;
            self.pos = i + 1;
            Ok(Some(copy_row(self.output[i].as_slice())))
        } else {
            Ok(None)
        }
    }
}

} // verus!
