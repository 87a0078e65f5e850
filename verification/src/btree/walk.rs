use vstd::prelude::*;

use crate::btree::node::{internal_readable, spec_child_for_key, spec_decode_internal};
use crate::btree::tree::{descend, Descent};
use crate::storage::page::{PAGE_TYPE_INTERNAL, PAGE_TYPE_LEAF};

verus! {

/// Whether going down from page `n` towards `key` passes the interior pages `path` and
/// stops at page `leaf`: each page of the path is a readable interior page whose child for
/// the key comes next, and `leaf` is a page of leaf type.
pub open spec fn walk(pages: Seq<Seq<u8>>, n: u32, key: Seq<u8>, path: Seq<u32>, leaf: u32) -> bool
    decreases path.len(),
{
    if path.len() == 0 {
        n == leaf && n < pages.len() && pages[n as int][0] == PAGE_TYPE_LEAF
    } else {
        &&& path[0] == n
        &&& n < pages.len()
        &&& internal_readable(pages[n as int])
        &&& walk(
            pages,
            spec_child_for_key(spec_decode_internal(pages[n as int]), key),
            key,
            path.drop_first(),
            leaf,
        )
    }
}

/// A descent that reaches a leaf is a walk no longer than the fuel.
pub proof fn lemma_walk_of_descend(pages: Seq<Seq<u8>>, n: u32, key: Seq<u8>, fuel: nat)
    ensures
        descend(pages, n, key, fuel) matches Descent::Leaf { path, leaf } ==> walk(pages, n, key, path, leaf)
            && path.len() <= fuel,
    decreases fuel,
{
    if n < pages.len() && pages[n as int][0] == PAGE_TYPE_INTERNAL && fuel > 0 && internal_readable(
        pages[n as int],
    ) {
        let c = spec_child_for_key(spec_decode_internal(pages[n as int]), key);
        lemma_walk_of_descend(pages, c, key, (fuel - 1) as nat);
        match descend(pages, c, key, (fuel - 1) as nat) {
            Descent::Leaf { path, leaf } => {
                assert((seq![n] + path).drop_first() =~= path);
            },
            _ => {},
        }
    }
}

/// A walk no longer than the fuel is what the descent finds.
pub proof fn lemma_descend_of_walk(
    pages: Seq<Seq<u8>>,
    n: u32,
    key: Seq<u8>,
    path: Seq<u32>,
    leaf: u32,
    fuel: nat,
)
    requires
        walk(pages, n, key, path, leaf),
        path.len() <= fuel,
    ensures
        descend(pages, n, key, fuel) == (Descent::Leaf { path, leaf }),
    decreases path.len(),
{
    if path.len() == 0 {
        assert(path =~= Seq::<u32>::empty());
    } else {
        let c = spec_child_for_key(spec_decode_internal(pages[n as int]), key);
        lemma_descend_of_walk(pages, c, key, path.drop_first(), leaf, (fuel - 1) as nat);
        assert(seq![n] + path.drop_first() =~= path);
    }
}

/// Going down is deterministic: one page and key give one walk.
pub proof fn lemma_walk_unique(
    pages: Seq<Seq<u8>>,
    n: u32,
    key: Seq<u8>,
    p1: Seq<u32>,
    l1: u32,
    p2: Seq<u32>,
    l2: u32,
)
    requires
        walk(pages, n, key, p1, l1),
        walk(pages, n, key, p2, l2),
    ensures
        p1 == p2,
        l1 == l2,
    decreases p1.len(),
{
    if p1.len() > 0 && p2.len() > 0 {
        let c = spec_child_for_key(spec_decode_internal(pages[n as int]), key);
        lemma_walk_unique(pages, c, key, p1.drop_first(), l1, p2.drop_first(), l2);
        assert(p1 =~= seq![n] + p1.drop_first());
        assert(p2 =~= seq![n] + p2.drop_first());
    } else if p1.len() == 0 && p2.len() > 0 {
        assert(internal_readable(pages[n as int]));
    } else if p1.len() > 0 && p2.len() == 0 {
        assert(internal_readable(pages[n as int]));
    } else {
        assert(p1 =~= p2);
    }
}

/// The rest of a walk from any page on it.
pub proof fn lemma_walk_suffix(
    pages: Seq<Seq<u8>>,
    n: u32,
    key: Seq<u8>,
    path: Seq<u32>,
    leaf: u32,
    i: int,
)
    requires
        walk(pages, n, key, path, leaf),
        0 <= i < path.len(),
    ensures
        walk(pages, path[i], key, path.skip(i), leaf),
        i + 1 < path.len() ==> path[i + 1] == spec_child_for_key(
            spec_decode_internal(pages[path[i] as int]),
            key,
        ),
        i + 1 == path.len() ==> leaf == spec_child_for_key(
            spec_decode_internal(pages[path[i] as int]),
            key,
        ),
        path[i] < pages.len(),
        internal_readable(pages[path[i] as int]),
    decreases i,
{
    let c = spec_child_for_key(spec_decode_internal(pages[n as int]), key);
    if i == 0 {
        assert(path.skip(0) =~= path);
        assert(path[0] == n);
        if path.len() > 1 {
            assert(path.drop_first()[0] == path[1]);
            assert(walk(pages, c, key, path.drop_first(), leaf));
        } else {
            assert(path.drop_first().len() == 0);
            assert(walk(pages, c, key, path.drop_first(), leaf));
        }
    } else {
        lemma_walk_suffix(pages, c, key, path.drop_first(), leaf, i - 1);
        assert(path.drop_first().skip(i - 1) =~= path.skip(i));
        assert(path.drop_first()[i - 1] == path[i]);
        if i + 1 < path.len() {
            assert(path.drop_first()[i] == path[i + 1]);
        }
    }
}

/// A walk ends at a page of the store with the leaf type.
pub proof fn lemma_walk_leaf(pages: Seq<Seq<u8>>, n: u32, key: Seq<u8>, path: Seq<u32>, leaf: u32)
    requires
        walk(pages, n, key, path, leaf),
    ensures
        leaf < pages.len(),
        pages[leaf as int][0] == PAGE_TYPE_LEAF,
    decreases path.len(),
{
    if path.len() > 0 {
        let c = spec_child_for_key(spec_decode_internal(pages[n as int]), key);
        lemma_walk_leaf(pages, c, key, path.drop_first(), leaf);
    }
}

/// A walk passes no page twice.
pub proof fn lemma_walk_distinct(
    pages: Seq<Seq<u8>>,
    n: u32,
    key: Seq<u8>,
    path: Seq<u32>,
    leaf: u32,
    i: int,
    j: int,
)
    requires
        walk(pages, n, key, path, leaf),
        0 <= i < j < path.len(),
    ensures
        path[i] != path[j],
{
    lemma_walk_suffix(pages, n, key, path, leaf, i);
    lemma_walk_suffix(pages, n, key, path, leaf, j);
    if path[i] == path[j] {
        lemma_walk_unique(pages, path[i], key, path.skip(i), leaf, path.skip(j), leaf);
    }
}

/// A walk stays a walk when the pages it passes are kept and the page it ends at keeps
/// the leaf type.
pub proof fn lemma_walk_kept(
    pages: Seq<Seq<u8>>,
    after: Seq<Seq<u8>>,
    n: u32,
    key: Seq<u8>,
    path: Seq<u32>,
    leaf: u32,
)
    requires
        walk(pages, n, key, path, leaf),
        pages.len() <= after.len(),
        forall|i: int| 0 <= i < path.len() ==> after[path[i] as int] == pages[path[i] as int],
        after[leaf as int][0] == PAGE_TYPE_LEAF,
    ensures
        walk(after, n, key, path, leaf),
    decreases path.len(),
{
    if path.len() > 0 {
        let c = spec_child_for_key(spec_decode_internal(pages[n as int]), key);
        assert(after[path[0] as int] == pages[path[0] as int]);
        assert forall|i: int| 0 <= i < path.drop_first().len() implies after[path.drop_first()[i] as int]
            == pages[path.drop_first()[i] as int] by {
            assert(path.drop_first()[i] == path[i + 1]);
        }
        lemma_walk_kept(pages, after, c, key, path.drop_first(), leaf);
    }
}

/// A walk whose last interior page now routes the key to another leaf page ends there.
pub proof fn lemma_walk_redirected(
    pages: Seq<Seq<u8>>,
    after: Seq<Seq<u8>>,
    n: u32,
    key: Seq<u8>,
    path: Seq<u32>,
    leaf: u32,
    target: u32,
)
    requires
        walk(pages, n, key, path, leaf),
        path.len() > 0,
        pages.len() <= after.len(),
        path.last() < after.len(),
        forall|i: int| 0 <= i < path.len() - 1 ==> after[path[i] as int] == pages[path[i] as int],
        internal_readable(after[path.last() as int]),
        spec_child_for_key(spec_decode_internal(after[path.last() as int]), key) == target,
        target < after.len(),
        after[target as int][0] == PAGE_TYPE_LEAF,
    ensures
        walk(after, n, key, path, target),
    decreases path.len(),
{
    if path.len() == 1 {
        assert(path.last() == n);
        assert(path.drop_first().len() == 0);
        assert(walk(after, target, key, path.drop_first(), target));
    } else {
        let c = spec_child_for_key(spec_decode_internal(pages[n as int]), key);
        assert(after[path[0] as int] == pages[path[0] as int]);
        let rest = path.drop_first();
        assert(rest.last() == path.last());
        assert forall|i: int| 0 <= i < rest.len() - 1 implies after[rest[i] as int] == pages[rest[i] as int] by {
            assert(rest[i] == path[i + 1]);
        }
        lemma_walk_redirected(pages, after, c, key, rest, leaf, target);
    }
}

/// Whether page `n` still sends `key` where it did: unchanged, or a readable interior page
/// with the same child for the key.
pub open spec fn routes_same(pages: Seq<Seq<u8>>, after: Seq<Seq<u8>>, n: u32, key: Seq<u8>) -> bool {
    ||| after[n as int] == pages[n as int]
    ||| internal_readable(after[n as int]) && spec_child_for_key(spec_decode_internal(after[n as int]), key)
        == spec_child_for_key(spec_decode_internal(pages[n as int]), key)
}

/// A walk stays a walk when every page it passes still sends the key the same way and the
/// page it ends at keeps the leaf type.
pub proof fn lemma_walk_rerouted(
    pages: Seq<Seq<u8>>,
    after: Seq<Seq<u8>>,
    n: u32,
    key: Seq<u8>,
    path: Seq<u32>,
    leaf: u32,
)
    requires
        walk(pages, n, key, path, leaf),
        pages.len() <= after.len(),
        forall|i: int| 0 <= i < path.len() ==> routes_same(pages, after, #[trigger] path[i], key),
        after[leaf as int][0] == PAGE_TYPE_LEAF,
    ensures
        walk(after, n, key, path, leaf),
    decreases path.len(),
{
    if path.len() > 0 {
        let c = spec_child_for_key(spec_decode_internal(pages[n as int]), key);
        assert(routes_same(pages, after, path[0], key));
        assert forall|i: int| 0 <= i < path.drop_first().len() implies routes_same(
            pages,
            after,
            #[trigger] path.drop_first()[i],
            key,
        ) by {
            assert(path.drop_first()[i] == path[i + 1]);
        }
        lemma_walk_rerouted(pages, after, c, key, path.drop_first(), leaf);
    }
}

} // verus!
