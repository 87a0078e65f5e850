use vstd::prelude::*;

use crate::btree::keys::{bytes_lt, lemma_bytes_lt_irreflexive, lemma_bytes_lt_total, lemma_bytes_lt_transitive};
use crate::btree::node::{spec_child_for_key, InternalNodeView};
use crate::btree::tree::{child_pos, find_payload, holds_key, insert_pos, parent_with};

verus! {

/// Keys strictly increasing from entry to entry.
pub open spec fn keys_sorted(es: Seq<(Seq<u8>, Seq<u8>)>) -> bool {
    forall|i: int, j: int| 0 <= i < j < es.len() ==> bytes_lt(#[trigger] es[i].0, #[trigger] es[j].0)
}

/// No two links of an interior node lead to the same child.
pub open spec fn children_distinct(n: InternalNodeView) -> bool {
    &&& forall|i: int, j: int|
        0 <= i < j < n.entries.len() ==> (#[trigger] n.entries[i]).1 != (#[trigger] n.entries[j]).1
    &&& forall|i: int| 0 <= i < n.entries.len() ==> (#[trigger] n.entries[i]).1 != n.rightmost_child
}

/// Whether `j` is the first separator above `key`, or the count of separators when none is.
pub open spec fn routes_at(es: Seq<(Seq<u8>, u32)>, key: Seq<u8>, j: int) -> bool {
    &&& 0 <= j <= es.len()
    &&& forall|i: int| 0 <= i < j ==> !bytes_lt(key, #[trigger] es[i].0)
    &&& j < es.len() ==> bytes_lt(key, es[j].0)
}

/// The child for a key is the left child of the first separator above it, else the
/// rightmost child.
pub proof fn lemma_route(n: InternalNodeView, key: Seq<u8>, j: int)
    requires
        routes_at(n.entries, key, j),
    ensures
        spec_child_for_key(n, key) == if j < n.entries.len() {
            n.entries[j].1
        } else {
            n.rightmost_child
        },
    decreases n.entries.len(),
{
    if n.entries.len() > 0 && j > 0 {
        let rest = InternalNodeView { entries: n.entries.drop_first(), rightmost_child: n.rightmost_child };
        assert(!bytes_lt(key, n.entries[0].0));
        assert forall|i: int| 0 <= i < j - 1 implies !bytes_lt(key, #[trigger] rest.entries[i].0) by {
            assert(rest.entries[i] == n.entries[i + 1]);
        }
        lemma_route(rest, key, j - 1);
    }
}

/// Every key has a first separator above it, or none.
pub proof fn lemma_route_index(es: Seq<(Seq<u8>, u32)>, key: Seq<u8>) -> (j: int)
    ensures
        routes_at(es, key, j),
    decreases es.len(),
{
    if es.len() == 0 {
        0
    } else if bytes_lt(key, es[0].0) {
        0
    } else {
        let k = lemma_route_index(es.drop_first(), key);
        assert forall|i: int| 0 <= i < k + 1 implies !bytes_lt(key, #[trigger] es[i].0) by {
            if i > 0 {
                assert(es[i] == es.drop_first()[i - 1]);
            }
        }
        if k + 1 < es.len() {
            assert(es[k + 1] == es.drop_first()[k]);
        }
        k + 1
    }
}

/// What `child_pos` finds.
pub proof fn lemma_child_pos(es: Seq<(Seq<u8>, u32)>, c: u32)
    ensures
        0 <= child_pos(es, c) <= es.len(),
        forall|i: int| 0 <= i < child_pos(es, c) ==> (#[trigger] es[i]).1 != c,
        child_pos(es, c) < es.len() ==> es[child_pos(es, c)].1 == c,
    decreases es.len(),
{
    if es.len() > 0 && es[0].1 != c {
        lemma_child_pos(es.drop_first(), c);
        assert forall|i: int| 0 <= i < child_pos(es, c) implies (#[trigger] es[i]).1 != c by {
            if i > 0 {
                assert(es[i] == es.drop_first()[i - 1]);
            }
        }
    }
}

/// What `insert_pos` finds.
pub proof fn lemma_insert_pos(es: Seq<(Seq<u8>, Seq<u8>)>, key: Seq<u8>)
    ensures
        0 <= insert_pos(es, key) <= es.len(),
        forall|i: int| 0 <= i < insert_pos(es, key) ==> bytes_lt((#[trigger] es[i]).0, key),
        insert_pos(es, key) < es.len() ==> !bytes_lt(es[insert_pos(es, key)].0, key),
    decreases es.len(),
{
    if es.len() > 0 && bytes_lt(es[0].0, key) {
        lemma_insert_pos(es.drop_first(), key);
        assert forall|i: int| 0 <= i < insert_pos(es, key) implies bytes_lt((#[trigger] es[i]).0, key) by {
            if i > 0 {
                assert(es[i] == es.drop_first()[i - 1]);
            }
        }
    }
}

/// The payload of the first entry with the key is what a lookup finds.
pub proof fn lemma_find_payload_at(es: Seq<(Seq<u8>, Seq<u8>)>, key: Seq<u8>, i: int)
    requires
        0 <= i < es.len(),
        es[i].0 == key,
        forall|j: int| 0 <= j < i ==> (#[trigger] es[j]).0 != key,
    ensures
        find_payload(es, key) == Some(es[i].1),
    decreases i,
{
    if i > 0 {
        assert forall|j: int| 0 <= j < i - 1 implies (#[trigger] es.drop_first()[j]).0 != key by {
            assert(es.drop_first()[j] == es[j + 1]);
        }
        lemma_find_payload_at(es.drop_first(), key, i - 1);
    }
}

/// A lookup of a key that no entry has finds nothing.
pub proof fn lemma_find_payload_absent(es: Seq<(Seq<u8>, Seq<u8>)>, key: Seq<u8>)
    requires
        forall|j: int| 0 <= j < es.len() ==> (#[trigger] es[j]).0 != key,
    ensures
        find_payload(es, key) is None,
    decreases es.len(),
{
    if es.len() > 0 {
        assert forall|j: int| 0 <= j < es.len() - 1 implies (#[trigger] es.drop_first()[j]).0 != key by {
            assert(es.drop_first()[j] == es[j + 1]);
        }
        lemma_find_payload_absent(es.drop_first(), key);
    }
}

/// A new key put at its insert position keeps sorted entries sorted.
pub proof fn lemma_insert_sorted(es: Seq<(Seq<u8>, Seq<u8>)>, key: Seq<u8>, payload: Seq<u8>)
    requires
        keys_sorted(es),
        !holds_key(es, key),
    ensures
        keys_sorted(es.insert(insert_pos(es, key), (key, payload))),
{
    let pos = insert_pos(es, key);
    lemma_insert_pos(es, key);
    let ns = es.insert(pos, (key, payload));
    assert forall|i: int, j: int| 0 <= i < j < ns.len() implies bytes_lt(#[trigger] ns[i].0, #[trigger] ns[j].0) by {
        if i == pos {
            // j > pos: ns[j] == es[j - 1], whose key is not below the key and differs from it
            assert(ns[j] == es[j - 1]);
            assert(!bytes_lt(es[pos].0, key));
            if j - 1 > pos {
                assert(bytes_lt(es[pos].0, es[j - 1].0));
            }
            lemma_bytes_lt_total(es[j - 1].0, key);
            if j - 1 > pos {
                lemma_bytes_lt_total(es[pos].0, key);
                if bytes_lt(es[j - 1].0, key) {
                    lemma_bytes_lt_transitive(es[pos].0, es[j - 1].0, key);
                }
            }
            assert(es[j - 1].0 != key);
        } else if j == pos {
            assert(ns[i] == es[i]);
        } else {
            if i < pos {
                assert(ns[i] == es[i]);
            } else {
                assert(ns[i] == es[i - 1]);
            }
            if j < pos {
                assert(ns[j] == es[j]);
            } else {
                assert(ns[j] == es[j - 1]);
            }
        }
    }
}

/// Where a key is routed once its leaf was split at `sep` and the parent recorded it: to
/// the old leaf below the separator, to the new page from it on.
pub proof fn lemma_route_after_split(n: InternalNodeView, key: Seq<u8>, leaf: u32, sep: Seq<u8>, rn: u32)
    requires
        children_distinct(n),
        spec_child_for_key(n, key) == leaf,
    ensures
        spec_child_for_key(parent_with(n, leaf, sep, rn), key) == if bytes_lt(key, sep) {
            leaf
        } else {
            rn
        },
{
    let es = n.entries;
    let j = lemma_route_index(es, key);
    lemma_route(n, key, j);
    lemma_child_pos(es, leaf);
    let cp = child_pos(es, leaf);
    if j < es.len() {
        if cp < j {
            assert(es[cp].1 == es[j].1);
        }
        assert(cp == j);
    } else {
        if cp < es.len() {
            assert(es[cp].1 == n.rightmost_child);
        }
        assert(cp == es.len());
    }
    let m = parent_with(n, leaf, sep, rn);
    let ne = m.entries;
    if j < es.len() {
        assert(ne.len() == es.len() + 1);
        assert(ne[j] == (sep, leaf));
        assert(ne[j + 1] == (es[j].0, rn));
        assert forall|i: int| 0 <= i < j implies #[trigger] ne[i] == es[i] by {}
        if bytes_lt(key, sep) {
            lemma_route(m, key, j);
        } else {
            assert forall|i: int| 0 <= i < j + 1 implies !bytes_lt(key, #[trigger] ne[i].0) by {
                if i < j {
                    assert(ne[i] == es[i]);
                }
            }
            lemma_route(m, key, j + 1);
        }
    } else {
        assert(ne.len() == es.len() + 1);
        assert(ne[j] == (sep, leaf));
        assert forall|i: int| 0 <= i < j implies #[trigger] ne[i] == es[i] by {}
        if bytes_lt(key, sep) {
            lemma_route(m, key, j);
        } else {
            assert forall|i: int| 0 <= i < j + 1 implies !bytes_lt(key, #[trigger] ne[i].0) by {
                if i < j {
                    assert(ne[i] == es[i]);
                }
            }
            lemma_route(m, key, j + 1);
        }
    }
}

/// An entry with another key changes no lookup.
pub proof fn lemma_find_payload_insert_other(
    es: Seq<(Seq<u8>, Seq<u8>)>,
    pos: int,
    e: (Seq<u8>, Seq<u8>),
    key: Seq<u8>,
)
    requires
        0 <= pos <= es.len(),
        e.0 != key,
    ensures
        find_payload(es.insert(pos, e), key) == find_payload(es, key),
    decreases pos,
{
    let ns = es.insert(pos, e);
    if pos == 0 {
        assert(ns.drop_first() =~= es);
    } else {
        assert(ns[0] == es[0]);
        assert(ns.drop_first() =~= es.drop_first().insert(pos - 1, e));
        lemma_find_payload_insert_other(es.drop_first(), pos - 1, e, key);
    }
}

/// Looking a key up in the half of sorted entries that the middle key sends it to finds
/// what looking it up in all of them finds.
pub proof fn lemma_half_lookup(es: Seq<(Seq<u8>, Seq<u8>)>, key: Seq<u8>)
    requires
        keys_sorted(es),
        es.len() >= 1,
    ensures
        ({
            let mid = (es.len() / 2) as int;
            let sep = es[mid].0;
            find_payload(if bytes_lt(key, sep) { es.take(mid) } else { es.skip(mid) }, key) == find_payload(
                es,
                key,
            )
        }),
{
    let mid = (es.len() / 2) as int;
    let sep = es[mid].0;
    let left = es.take(mid);
    let right = es.skip(mid);
    lemma_bytes_lt_irreflexive(key);
    if exists|i: int| 0 <= i < es.len() && (#[trigger] es[i]).0 == key {
        let i = choose|i: int| 0 <= i < es.len() && (#[trigger] es[i]).0 == key;
        assert forall|j: int| 0 <= j < i implies (#[trigger] es[j]).0 != key by {
            assert(bytes_lt(es[j].0, es[i].0));
        }
        lemma_find_payload_at(es, key, i);
        if i < mid {
            assert(bytes_lt(es[i].0, es[mid].0));
            assert forall|j: int| 0 <= j < i implies (#[trigger] left[j]).0 != key by {
                assert(left[j] == es[j]);
            }
            lemma_find_payload_at(left, key, i);
        } else {
            if i > mid {
                assert(bytes_lt(es[mid].0, es[i].0));
            }
            lemma_bytes_lt_total(key, sep);
            assert forall|j: int| 0 <= j < i - mid implies (#[trigger] right[j]).0 != key by {
                assert(right[j] == es[j + mid]);
            }
            assert(right[i - mid] == es[i]);
            lemma_find_payload_at(right, key, i - mid);
        }
    } else {
        lemma_find_payload_absent(es, key);
        assert forall|j: int| 0 <= j < left.len() implies (#[trigger] left[j]).0 != key by {
            assert(left[j] == es[j]);
        }
        assert forall|j: int| 0 <= j < right.len() implies (#[trigger] right[j]).0 != key by {
            assert(right[j] == es[j + mid]);
        }
        lemma_find_payload_absent(left, key);
        lemma_find_payload_absent(right, key);
    }
}

/// A key the parent sent elsewhere than the split leaf is still sent there, provided the
/// separator itself belongs to the split leaf.
pub proof fn lemma_route_after_split_other(
    n: InternalNodeView,
    key: Seq<u8>,
    leaf: u32,
    sep: Seq<u8>,
    rn: u32,
)
    requires
        children_distinct(n),
        spec_child_for_key(n, sep) == leaf,
        spec_child_for_key(n, key) != leaf,
    ensures
        spec_child_for_key(parent_with(n, leaf, sep, rn), key) == spec_child_for_key(n, key),
{
    let es = n.entries;
    let j = lemma_route_index(es, key);
    lemma_route(n, key, j);
    let js = lemma_route_index(es, sep);
    lemma_route(n, sep, js);
    lemma_child_pos(es, leaf);
    let cp = child_pos(es, leaf);
    if js < es.len() {
        if cp < js {
            assert(es[cp].1 == es[js].1);
        }
        assert(cp == js);
    } else {
        if cp < es.len() {
            assert(es[cp].1 == n.rightmost_child);
        }
        assert(cp == es.len());
    }
    let m = parent_with(n, leaf, sep, rn);
    let ne = m.entries;
    assert(j != cp);
    if j < cp {
        assert forall|i: int| 0 <= i < j implies !bytes_lt(key, #[trigger] ne[i].0) by {
            assert(ne[i] == es[i]);
        }
        assert(ne[j] == es[j]);
        lemma_route(m, key, j);
    } else {
        // the key is not below the separator: it would then be below the entry after it
        if bytes_lt(key, sep) {
            lemma_bytes_lt_transitive(key, sep, es[cp].0);
        }
        assert(ne.len() == es.len() + 1);
        assert forall|i: int| 0 <= i < j + 1 implies !bytes_lt(key, #[trigger] ne[i].0) by {
            if i < cp {
                assert(ne[i] == es[i]);
            } else if i == cp {
                assert(ne[i] == (sep, leaf));
            } else if i == cp + 1 {
                assert(ne[i] == (es[cp].0, rn));
            } else {
                assert(ne[i] == es[i - 1]);
            }
        }
        if j < es.len() {
            assert(ne[j + 1] == es[j]);
        }
        lemma_route(m, key, j + 1);
    }
}

} // verus!
