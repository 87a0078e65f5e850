use vstd::prelude::*;

use crate::btree::keys::{bytes_lt, lemma_bytes_lt_irreflexive, lemma_bytes_lt_total};
use crate::btree::node::{
    internal_layout, internal_size, leaf_layout, leaf_readable, leaf_size, lemma_internal_layout_decodes, lemma_leaf_layout_decodes, spec_child_for_key,
    spec_decode_internal, spec_decode_leaf, InternalNodeView, LeafNodeView,
};
use crate::btree::order::{
    lemma_find_payload_insert_other, lemma_half_lookup, lemma_route_after_split_other, children_distinct, keys_sorted, lemma_find_payload_at, lemma_insert_pos, lemma_insert_sorted,
    lemma_route_after_split,
};
use crate::btree::tree::{
    find_payload, descent, holds_key, insert_effect, insert_plan, insert_pos, parent_with, spec_search, Descent,
    InsertPlan, SearchOutcome,
};
use crate::btree::walk::{
    lemma_descend_of_walk, lemma_walk_distinct, lemma_walk_kept, lemma_walk_leaf, lemma_walk_of_descend,
    lemma_walk_redirected, lemma_walk_rerouted, lemma_walk_suffix, routes_same, walk,
};
use crate::error::BTreeError;
use crate::storage::page::{PAGE_SIZE, PAGE_TYPE_INTERNAL, PAGE_TYPE_LEAF};

verus! {

/// Whether a split of the leaf that `key` descends to keeps every key findable: the leaf's
/// keys are sorted, and its parent, if any, has distinct children.
pub open spec fn split_ready(pages: Seq<Seq<u8>>, root: u32, key: Seq<u8>) -> bool {
    match descent(pages, root, key) {
        Descent::Leaf { path, leaf } => {
            &&& keys_sorted(spec_decode_leaf(pages[leaf as int]).entries)
            &&& path.len() > 0 ==> children_distinct(spec_decode_internal(pages[path.last() as int]))
        },
        _ => true,
    }
}

/// The pages of a walk are interior pages of the store, so none of them is the leaf it
/// ends at.
proof fn lemma_walk_pages(pages: Seq<Seq<u8>>, root: u32, key: Seq<u8>, path: Seq<u32>, leaf: u32)
    requires
        walk(pages, root, key, path, leaf),
    ensures
        leaf < pages.len(),
        pages[leaf as int][0] == PAGE_TYPE_LEAF,
        forall|i: int|
            0 <= i < path.len() ==> path[i] < pages.len() && #[trigger] path[i] != leaf && pages[path[i] as int][0]
                == PAGE_TYPE_INTERNAL,
{
    lemma_walk_leaf(pages, root, key, path, leaf);
    assert forall|i: int| 0 <= i < path.len() implies path[i] < pages.len() && #[trigger] path[i] != leaf
        && pages[path[i] as int][0] == PAGE_TYPE_INTERNAL by {
        lemma_walk_suffix(pages, root, key, path, leaf, i);
    }
}

/// The new entry is the first with its key in the leaf entries after an insert.
proof fn lemma_inserted_first(es: Seq<(Seq<u8>, Seq<u8>)>, key: Seq<u8>, payload: Seq<u8>)
    requires
        !holds_key(es, key),
    ensures
        ({
            let pos = insert_pos(es, key);
            let ns = es.insert(pos, (key, payload));
            &&& 0 <= pos < ns.len()
            &&& ns[pos] == (key, payload)
            &&& forall|j: int| 0 <= j < ns.len() && j != pos ==> (#[trigger] ns[j]).0 != key
        }),
{
    let pos = insert_pos(es, key);
    lemma_insert_pos(es, key);
    let ns = es.insert(pos, (key, payload));
    assert forall|j: int| 0 <= j < ns.len() && j != pos implies (#[trigger] ns[j]).0 != key by {
        if j < pos {
            assert(ns[j] == es[j]);
        } else {
            assert(ns[j] == es[j - 1]);
        }
        if ns[j].0 == key {
            assert(holds_key(es, key));
        }
    }
}

/// After a split of sorted entries holding the key once, the half the separator sends the
/// key to holds its payload.
proof fn lemma_half_holds(
    es: Seq<(Seq<u8>, Seq<u8>)>,
    pos: int,
    key: Seq<u8>,
    payload: Seq<u8>,
)
    requires
        keys_sorted(es),
        0 <= pos < es.len(),
        es[pos] == (key, payload),
    ensures
        ({
            let mid = (es.len() / 2) as int;
            let sep = es[mid].0;
            find_payload(if bytes_lt(key, sep) { es.take(mid) } else { es.skip(mid) }, key) == Some(payload)
        }),
{
    let mid = (es.len() / 2) as int;
    let sep = es[mid].0;
    let left = es.take(mid);
    let right = es.skip(mid);
    lemma_bytes_lt_irreflexive(key);
    if pos < mid {
        assert(bytes_lt(es[pos].0, es[mid].0));
        assert(left[pos] == es[pos]);
        assert forall|j: int| 0 <= j < pos implies (#[trigger] left[j]).0 != key by {
            assert(left[j] == es[j]);
            assert(bytes_lt(es[j].0, es[pos].0));
        }
        lemma_find_payload_at(left, key, pos);
    } else {
        if pos > mid {
            assert(bytes_lt(es[mid].0, es[pos].0));
        }
        lemma_bytes_lt_total(key, sep);
        assert(right[pos - mid] == es[pos]);
        assert forall|j: int| 0 <= j < pos - mid implies (#[trigger] right[j]).0 != key by {
            assert(right[j] == es[j + mid]);
            assert(bytes_lt(es[j + mid].0, es[pos].0));
        }
        lemma_find_payload_at(right, key, pos - mid);
    }
}

/// The search after a split of the root leaf: the new root sends the key to the half that
/// holds it.
proof fn lemma_new_root_routes(after: Seq<Seq<u8>>, rt: u32, key: Seq<u8>, sep: Seq<u8>, leaf: u32, rn: u32)
    requires
        internal_layout(after[rt as int], InternalNodeView { entries: seq![(sep, leaf)], rightmost_child: rn }),
        internal_size(seq![(sep, leaf)]) <= PAGE_SIZE,
        rt < after.len(),
        leaf < after.len(),
        rn < after.len(),
        after[leaf as int][0] == PAGE_TYPE_LEAF,
        after[rn as int][0] == PAGE_TYPE_LEAF,
    ensures
        descent(after, rt, key) == (Descent::Leaf {
            path: seq![rt],
            leaf: if bytes_lt(key, sep) { leaf } else { rn },
        }),
{
    let target = if bytes_lt(key, sep) { leaf } else { rn };
    let rnode = InternalNodeView { entries: seq![(sep, leaf)], rightmost_child: rn };
    lemma_internal_layout_decodes(after[rt as int], rnode);
    let rest = InternalNodeView { entries: rnode.entries.drop_first(), rightmost_child: rn };
    assert(spec_child_for_key(rnode, key) == target) by {
        assert(rest.entries.len() == 0);
        assert(spec_child_for_key(rest, key) == rn);
        assert(rnode.entries[0] == (sep, leaf));
        assert(rnode.entries.drop_first() =~= rest.entries);
    }
    assert(walk(after, target, key, Seq::<u32>::empty(), target));
    assert(walk(after, rt, key, seq![rt], target)) by {
        assert(seq![rt].drop_first() =~= Seq::<u32>::empty());
    }
    lemma_descend_of_walk(after, rt, key, seq![rt], target, after.len());
}

/// The search after a split below a parent: the parent sends the key to the half that
/// holds it.
proof fn lemma_parent_routes(
    pages: Seq<Seq<u8>>,
    after: Seq<Seq<u8>>,
    root: u32,
    key: Seq<u8>,
    path: Seq<u32>,
    leaf: u32,
    sep: Seq<u8>,
    rn: u32,
)
    requires
        walk(pages, root, key, path, leaf),
        path.len() > 0,
        path.len() <= pages.len(),
        pages.len() <= after.len(),
        children_distinct(spec_decode_internal(pages[path.last() as int])),
        internal_layout(
            after[path.last() as int],
            parent_with(spec_decode_internal(pages[path.last() as int]), leaf, sep, rn),
        ),
        internal_size(parent_with(spec_decode_internal(pages[path.last() as int]), leaf, sep, rn).entries)
            <= PAGE_SIZE,
        forall|i: int| 0 <= i < pages.len() && i != leaf && i != path.last() ==> after[i] == pages[i],
        leaf < after.len(),
        rn < after.len(),
        after[leaf as int][0] == PAGE_TYPE_LEAF,
        after[rn as int][0] == PAGE_TYPE_LEAF,
    ensures
        descent(after, root, key) == (Descent::Leaf {
            path,
            leaf: if bytes_lt(key, sep) { leaf } else { rn },
        }),
{
    let target = if bytes_lt(key, sep) { leaf } else { rn };
    let pp = path.last();
    let pn = spec_decode_internal(pages[pp as int]);
    lemma_walk_pages(pages, root, key, path, leaf);
    lemma_walk_suffix(pages, root, key, path, leaf, path.len() - 1);
    lemma_route_after_split(pn, key, leaf, sep, rn);
    lemma_internal_layout_decodes(after[pp as int], parent_with(pn, leaf, sep, rn));
    assert forall|i: int| 0 <= i < path.len() - 1 implies after[path[i] as int] == pages[path[i] as int] by {
        lemma_walk_distinct(pages, root, key, path, leaf, i, path.len() - 1);
    }
    lemma_walk_redirected(pages, after, root, key, path, leaf, target);
    lemma_descend_of_walk(after, root, key, path, target, after.len());
}

/// A successful insert is found by a search for its key afterwards, with its payload.
#[verifier::rlimit(40)]
pub proof fn lemma_insert_then_search(
    pages: Seq<Seq<u8>>,
    root: u32,
    key: Seq<u8>,
    payload: Seq<u8>,
    after: Seq<Seq<u8>>,
    new_root: u32,
    r: Result<(), BTreeError>,
)
    requires
        insert_effect(pages, root, key, payload, after, new_root, r),
        r is Ok,
        insert_plan(pages, root, key, payload) is Split ==> split_ready(pages, root, key),
    ensures
        spec_search(after, new_root, key) == SearchOutcome::Found(Some(payload)),
{
    if let Descent::Leaf { path, leaf } = descent(pages, root, key) {
        lemma_walk_of_descend(pages, root, key, pages.len());
        lemma_walk_pages(pages, root, key, path, leaf);
        let n0 = spec_decode_leaf(pages[leaf as int]);
        let pos = insert_pos(n0.entries, key);
        let es = n0.entries.insert(pos, (key, payload));
        match insert_plan(pages, root, key, payload) {
            InsertPlan::Rewrite { leaf: l, node } => {
                lemma_inserted_first(n0.entries, key, payload);
                lemma_walk_kept(pages, after, root, key, path, leaf);
                lemma_descend_of_walk(after, root, key, path, leaf, after.len());
                lemma_leaf_layout_decodes(after[leaf as int], node);
                lemma_find_payload_at(es, key, pos);
            },
            InsertPlan::Split { path: p, leaf: l, left, right, next } => {
                let rn = pages.len() as u32;
                let mid = (es.len() / 2) as int;
                let sep = right[0].0;
                assert(es[mid] == right[0]);
                lemma_inserted_first(n0.entries, key, payload);
                lemma_insert_sorted(n0.entries, key, payload);
                lemma_half_holds(es, pos, key, payload);
                lemma_leaf_layout_decodes(after[leaf as int], LeafNodeView { entries: left, next_leaf: rn });
                lemma_leaf_layout_decodes(after[rn as int], LeafNodeView { entries: right, next_leaf: next });
                if path.len() == 0 {
                    lemma_new_root_routes(after, (pages.len() + 1) as u32, key, sep, leaf, rn);
                } else {
                    lemma_parent_routes(pages, after, root, key, path, leaf, sep, rn);
                }
            },
            _ => {},
        }
    }
}

/// Whether a split of the leaf that `key` descends to leaves the lookup of `k2` alone: the
/// leaf's keys all belong under it in its parent, and when `k2` descends to that leaf too,
/// it does so through the same parent.
pub open spec fn split_keeps(pages: Seq<Seq<u8>>, root: u32, key: Seq<u8>, k2: Seq<u8>) -> bool {
    match descent(pages, root, key) {
        Descent::Leaf { path, leaf } => path.len() > 0 ==> {
            let pn = spec_decode_internal(pages[path.last() as int]);
            let es = spec_decode_leaf(pages[leaf as int]).entries;
            &&& forall|i: int| 0 <= i < es.len() ==> spec_child_for_key(pn, (#[trigger] es[i]).0) == leaf
            &&& match descent(pages, root, k2) {
                Descent::Leaf { path: q, leaf: l2 } => l2 == leaf ==> q.len() > 0 && q.last() == path.last(),
                _ => true,
            }
        },
        _ => true,
    }
}

/// The separator of a split leaf is a key the parent sends to that leaf.
proof fn lemma_sep_routes_to_leaf(
    pn: InternalNodeView,
    n0: Seq<(Seq<u8>, Seq<u8>)>,
    key: Seq<u8>,
    payload: Seq<u8>,
    leaf: u32,
    mid: int,
)
    requires
        forall|i: int| 0 <= i < n0.len() ==> spec_child_for_key(pn, (#[trigger] n0[i]).0) == leaf,
        spec_child_for_key(pn, key) == leaf,
        0 <= mid <= n0.len(),
    ensures
        spec_child_for_key(pn, n0.insert(insert_pos(n0, key), (key, payload))[mid].0) == leaf,
{
    let pos = insert_pos(n0, key);
    lemma_insert_pos(n0, key);
    let es = n0.insert(pos, (key, payload));
    if mid < pos {
        assert(es[mid] == n0[mid]);
    } else if mid > pos {
        assert(es[mid] == n0[mid - 1]);
    }
}

/// A successful insert changes no other key's lookup: what a search for another key found
/// before, it finds after.
pub proof fn lemma_insert_keeps_others(
    pages: Seq<Seq<u8>>,
    root: u32,
    key: Seq<u8>,
    payload: Seq<u8>,
    after: Seq<Seq<u8>>,
    new_root: u32,
    r: Result<(), BTreeError>,
    k2: Seq<u8>,
)
    requires
        insert_effect(pages, root, key, payload, after, new_root, r),
        r is Ok,
        k2 != key,
        spec_search(pages, root, k2) is Found,
        insert_plan(pages, root, key, payload) is Split ==> split_ready(pages, root, key) && split_keeps(
            pages,
            root,
            key,
            k2,
        ),
    ensures
        spec_search(after, new_root, k2) == spec_search(pages, root, k2),
{
    if let Descent::Leaf { path, leaf } = descent(pages, root, key) {
        if let Descent::Leaf { path: q, leaf: l2 } = descent(pages, root, k2) {
            lemma_walk_of_descend(pages, root, key, pages.len());
            lemma_walk_pages(pages, root, key, path, leaf);
            lemma_walk_of_descend(pages, root, k2, pages.len());
            lemma_walk_pages(pages, root, k2, q, l2);
            let n0 = spec_decode_leaf(pages[leaf as int]);
            let pos = insert_pos(n0.entries, key);
            lemma_insert_pos(n0.entries, key);
            let es = n0.entries.insert(pos, (key, payload));
            lemma_find_payload_insert_other(n0.entries, pos, (key, payload), k2);
            match insert_plan(pages, root, key, payload) {
                InsertPlan::Rewrite { leaf: l, node } => {
                    lemma_keeps_rewrite(pages, after, root, key, payload, path, leaf, node, k2, q, l2);
                },
                InsertPlan::Split { path: p, leaf: l, left, right, next } => {
                    lemma_keeps_split(pages, root, key, payload, after, new_root, path, leaf, left, right, next, k2, q, l2);
                },
                _ => {},
            }
        }
    }
}

/// The other key's lookup after a rewrite in place.
proof fn lemma_keeps_rewrite(
    pages: Seq<Seq<u8>>,
    after: Seq<Seq<u8>>,
    root: u32,
    key: Seq<u8>,
    payload: Seq<u8>,
    path: Seq<u32>,
    leaf: u32,
    node: LeafNodeView,
    k2: Seq<u8>,
    q: Seq<u32>,
    l2: u32,
)
    requires
        walk(pages, root, key, path, leaf),
        walk(pages, root, k2, q, l2),
        q.len() <= pages.len(),
        leaf_readable(pages[leaf as int]),
        node.entries == spec_decode_leaf(pages[leaf as int]).entries.insert(
            insert_pos(spec_decode_leaf(pages[leaf as int]).entries, key),
            (key, payload),
        ),
        leaf_size(node.entries) <= PAGE_SIZE,
        k2 != key,
        after.len() == pages.len(),
        leaf_layout(after[leaf as int], node),
        forall|i: int| 0 <= i < pages.len() && i != leaf ==> after[i] == pages[i],
    ensures
        spec_search(after, root, k2) == spec_search(pages, root, k2),
        descent(pages, root, k2) == (Descent::Leaf { path: q, leaf: l2 }),
{
    let n0 = spec_decode_leaf(pages[leaf as int]).entries;
    lemma_walk_pages(pages, root, key, path, leaf);
    lemma_walk_pages(pages, root, k2, q, l2);
    lemma_insert_pos(n0, key);
    lemma_find_payload_insert_other(n0, insert_pos(n0, key), (key, payload), k2);
    lemma_leaf_layout_decodes(after[leaf as int], node);
    lemma_walk_kept(pages, after, root, k2, q, l2);
    lemma_descend_of_walk(after, root, k2, q, l2, after.len());
    lemma_descend_of_walk(pages, root, k2, q, l2, pages.len());
}

/// The other key's lookup after a split.
#[verifier::rlimit(40)]
proof fn lemma_keeps_split(
    pages: Seq<Seq<u8>>,
    root: u32,
    key: Seq<u8>,
    payload: Seq<u8>,
    after: Seq<Seq<u8>>,
    new_root: u32,
    path: Seq<u32>,
    leaf: u32,
    left: Seq<(Seq<u8>, Seq<u8>)>,
    right: Seq<(Seq<u8>, Seq<u8>)>,
    next: u32,
    k2: Seq<u8>,
    q: Seq<u32>,
    l2: u32,
)
    requires
        descent(pages, root, key) == (Descent::Leaf { path, leaf }),
        descent(pages, root, k2) == (Descent::Leaf { path: q, leaf: l2 }),
        insert_plan(pages, root, key, payload) == (InsertPlan::Split { path, leaf, left, right, next }),
        insert_effect(pages, root, key, payload, after, new_root, Ok(())),
        k2 != key,
        split_ready(pages, root, key),
        split_keeps(pages, root, key, k2),
    ensures
        spec_search(after, new_root, k2) == spec_search(pages, root, k2),
{
    lemma_walk_of_descend(pages, root, key, pages.len());
    lemma_walk_pages(pages, root, key, path, leaf);
    lemma_walk_of_descend(pages, root, k2, pages.len());
    lemma_walk_pages(pages, root, k2, q, l2);
    let n0 = spec_decode_leaf(pages[leaf as int]);
    let pos = insert_pos(n0.entries, key);
    lemma_insert_pos(n0.entries, key);
    let es = n0.entries.insert(pos, (key, payload));
    lemma_find_payload_insert_other(n0.entries, pos, (key, payload), k2);
    let rn = pages.len() as u32;
    let mid = (es.len() / 2) as int;
    let sep = right[0].0;
    assert(es[mid] == right[0]);
    lemma_insert_sorted(n0.entries, key, payload);
    lemma_half_lookup(es, k2);
    lemma_leaf_layout_decodes(after[leaf as int], LeafNodeView { entries: left, next_leaf: rn });
    lemma_leaf_layout_decodes(after[rn as int], LeafNodeView { entries: right, next_leaf: next });
    if l2 == leaf {
        if path.len() == 0 {
            lemma_new_root_routes(after, (pages.len() + 1) as u32, k2, sep, leaf, rn);
        } else {
            lemma_parent_routes(pages, after, root, k2, q, leaf, sep, rn);
        }
    } else {
        lemma_split_other_leaf(pages, after, root, key, payload, path, leaf, k2, q, l2, sep, rn);
    }
}

/// After a split, a key that descended to another leaf still does.
proof fn lemma_split_other_leaf(
    pages: Seq<Seq<u8>>,
    after: Seq<Seq<u8>>,
    root: u32,
    key: Seq<u8>,
    payload: Seq<u8>,
    path: Seq<u32>,
    leaf: u32,
    k2: Seq<u8>,
    q: Seq<u32>,
    l2: u32,
    sep: Seq<u8>,
    rn: u32,
)
    requires
        walk(pages, root, key, path, leaf),
        walk(pages, root, k2, q, l2),
        q.len() <= pages.len(),
        l2 != leaf,
        path.len() > 0,
        pages.len() <= after.len(),
        children_distinct(spec_decode_internal(pages[path.last() as int])),
        forall|i: int|
            0 <= i < spec_decode_leaf(pages[leaf as int]).entries.len() ==> spec_child_for_key(
                spec_decode_internal(pages[path.last() as int]),
                (#[trigger] spec_decode_leaf(pages[leaf as int]).entries[i]).0,
            ) == leaf,
        sep == spec_decode_leaf(pages[leaf as int]).entries.insert(
            insert_pos(spec_decode_leaf(pages[leaf as int]).entries, key),
            (key, payload),
        )[((spec_decode_leaf(pages[leaf as int]).entries.len() + 1) / 2) as int].0,
        internal_layout(
            after[path.last() as int],
            parent_with(spec_decode_internal(pages[path.last() as int]), leaf, sep, rn),
        ),
        internal_size(parent_with(spec_decode_internal(pages[path.last() as int]), leaf, sep, rn).entries)
            <= PAGE_SIZE,
        forall|i: int| 0 <= i < pages.len() && i != leaf && i != path.last() ==> after[i] == pages[i],
    ensures
        descent(after, root, k2) == (Descent::Leaf { path: q, leaf: l2 }),
        after[l2 as int] == pages[l2 as int],
{
    let pp = path.last();
    let pn = spec_decode_internal(pages[pp as int]);
    let n0 = spec_decode_leaf(pages[leaf as int]).entries;
    lemma_walk_pages(pages, root, key, path, leaf);
    lemma_walk_pages(pages, root, k2, q, l2);
    lemma_walk_suffix(pages, root, key, path, leaf, path.len() - 1);
    lemma_insert_pos(n0, key);
    lemma_sep_routes_to_leaf(pn, n0, key, payload, leaf, ((n0.len() + 1) / 2) as int);
    lemma_internal_layout_decodes(after[pp as int], parent_with(pn, leaf, sep, rn));
    assert forall|i: int| 0 <= i < q.len() implies routes_same(pages, after, #[trigger] q[i], k2) by {
        lemma_walk_suffix(pages, root, k2, q, l2, i);
        if q[i] == pp {
            if i + 1 < q.len() {
                lemma_walk_suffix(pages, root, k2, q, l2, i + 1);
                assert(q[i + 1] != leaf);
            }
            lemma_route_after_split_other(pn, k2, leaf, sep, rn);
        }
    }
    lemma_walk_leaf(pages, root, key, path, leaf);
    lemma_walk_leaf(pages, root, k2, q, l2);
    lemma_walk_rerouted(pages, after, root, k2, q, l2);
    lemma_descend_of_walk(after, root, k2, q, l2, after.len());
}

} // verus!
