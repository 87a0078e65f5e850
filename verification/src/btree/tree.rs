use vstd::prelude::*;

use crate::btree::cursor::{Cursor, CursorView};
use crate::btree::keys::{bytes_equal, bytes_less, bytes_lt, bytes_to_vec};
use crate::btree::node::{
    leaf_cell_len, lemma_leaf_total_bound, lemma_readable_leaf_bounds, internal_layout, internal_readable, internal_size, leaf_layout, leaf_readable, leaf_size,
    spec_child_for_key, spec_decode_internal, spec_decode_leaf, InternalEntry, InternalNode,
    InternalNodeView, LeafEntry, LeafNode, LeafNodeView, NODE_HEADER_SIZE,
};
use crate::bytes::append_bytes;
use crate::btree::walk::{lemma_walk_leaf, lemma_walk_of_descend, lemma_walk_suffix};
use crate::error::{BTreeError, StorageError};
use crate::storage::page::{Page, PAGE_SIZE, PAGE_TYPE_INTERNAL, PAGE_TYPE_LEAF};
use crate::storage::pager::Pager;
use crate::text::{nat_decimal, push_str, push_u64_decimal, string_of};

verus! {

/// Where descending from a page towards a key ends.
pub enum Descent {
    /// At leaf page `leaf`, through the interior pages `path`.
    Leaf { path: Seq<u32>, leaf: u32 },
    /// At a page number beyond the store.
    OutOfBounds(u32),
    /// At a page of neither node type.
    BadType(u32, u8),
    /// Nowhere: an interior page that cannot be read, or a cycle of interior pages.
    Stuck,
}

/// `p` in front of the path of a descent that reached a leaf.
pub open spec fn under(p: Seq<u32>, d: Descent) -> Descent {
    match d {
        Descent::Leaf { path, leaf } => Descent::Leaf { path: p + path, leaf },
        other => other,
    }
}

/// Descending from page `n` towards `key` through at most `fuel` interior pages: at each
/// interior page, on to the child the key belongs under.
pub open spec fn descend(pages: Seq<Seq<u8>>, n: u32, key: Seq<u8>, fuel: nat) -> Descent
    decreases fuel,
{
    if n >= pages.len() {
        Descent::OutOfBounds(n)
    } else if pages[n as int][0] == PAGE_TYPE_LEAF {
        Descent::Leaf { path: Seq::empty(), leaf: n }
    } else if pages[n as int][0] == PAGE_TYPE_INTERNAL {
        if fuel == 0 || !internal_readable(pages[n as int]) {
            Descent::Stuck
        } else {
            under(
                seq![n],
                descend(
                    pages,
                    spec_child_for_key(spec_decode_internal(pages[n as int]), key),
                    key,
                    (fuel - 1) as nat,
                ),
            )
        }
    } else {
        Descent::BadType(n, pages[n as int][0])
    }
}

/// A descent that reaches a leaf ends at a page of the store that has the leaf type.
pub proof fn lemma_descend_leaf(pages: Seq<Seq<u8>>, n: u32, key: Seq<u8>, fuel: nat)
    ensures
        descend(pages, n, key, fuel) matches Descent::Leaf { leaf, .. } ==> leaf < pages.len()
            && pages[leaf as int][0] == PAGE_TYPE_LEAF,
    decreases fuel,
{
    if n < pages.len() && pages[n as int][0] == PAGE_TYPE_INTERNAL && fuel > 0 && internal_readable(
        pages[n as int],
    ) {
        lemma_descend_leaf(
            pages,
            spec_child_for_key(spec_decode_internal(pages[n as int]), key),
            key,
            (fuel - 1) as nat,
        );
    }
}

/// The descent from the root: a path longer than the number of pages repeats a page and
/// never ends.
pub open spec fn descent(pages: Seq<Seq<u8>>, root: u32, key: Seq<u8>) -> Descent {
    descend(pages, root, key, pages.len())
}

/// The message for a page of an unexpected type.
pub open spec fn bad_type_message(t: u8) -> Seq<char> {
    "unexpected page type "@ + nat_decimal(t as nat)
}

/// Whether an error reports how a descent ended.
pub open spec fn descent_error(d: Descent, e: BTreeError) -> bool {
    match d {
        Descent::OutOfBounds(n) => e matches BTreeError::Storage(StorageError::PageOutOfBounds(m)) && m == n,
        Descent::BadType(n, t) => e matches BTreeError::Storage(StorageError::CorruptPage(m, msg)) && m == n
            && msg@ == bad_type_message(t),
        _ => false,
    }
}

fn bad_type_error(n: u32, t: u8) -> (e: BTreeError)
    ensures
        e matches BTreeError::Storage(StorageError::CorruptPage(m, msg)) && m == n && msg@ == bad_type_message(t),
{
    let mut v: Vec<char> = Vec::new();
    push_str(&mut v, "unexpected page type ");
    push_u64_decimal(&mut v, t as u64);
    BTreeError::Storage(StorageError::CorruptPage(n, string_of(v.as_slice())))
}

/// A B+Tree of byte keys and payloads, stored in pages from its root page on.
#[derive(Debug)]
pub struct BTree {
    root: u32,
}

impl BTree {
    /// The tree whose root is page `root`.
    pub fn new(root: u32) -> (t: Self)
        ensures
            t.root_page() == root,
    {
        BTree { root }
    }

    /// The root page number.
    pub closed spec fn root_page(&self) -> u32 {
        self.root
    }

    /// The root page number.
    pub fn root(&self) -> (r: u32)
        ensures
            r == self.root_page(),
    {
        self.root
    }
}

/// Descends from `root` towards `key`, recording the interior pages passed.
pub fn descend_pages(pager: &Pager, root: u32, key: &[u8]) -> (r: Result<(Vec<u32>, u32), BTreeError>)
    requires
        pager.wf(),
        !(descent(pager.images(), root, key@) is Stuck),
    ensures
        match descent(pager.images(), root, key@) {
            Descent::Leaf { path, leaf } => r matches Ok((p, l)) && p@ == path && l == leaf,
            d => r matches Err(e) && descent_error(d, e),
        },
{
    let ghost pages = pager.images();
    proof {
        pager.lemma_images();
    }
    let mut path: Vec<u32> = Vec::new();
    let mut current = root;
    let mut fuel = pager.page_count();
    assert(under(Seq::<u32>::empty(), descend(pages, root, key@, fuel as nat)) == descend(
        pages,
        root,
        key@,
        fuel as nat,
    )) by {
        match descend(pages, root, key@, fuel as nat) {
            Descent::Leaf { path, leaf } => {
                assert(Seq::<u32>::empty() + path =~= path);
            },
            _ => {},
        }
    }
    loop
        invariant
            pager.wf(),
            pages == pager.images(),
            1 <= pages.len() <= u32::MAX,
            forall|i: int| 0 <= i < pages.len() ==> (#[trigger] pages[i]).len() == crate::storage::page::PAGE_SIZE,
            descent(pages, root, key@) == under(path@, descend(pages, current, key@, fuel as nat)),
            !(descent(pages, root, key@) is Stuck),
        decreases fuel,
    {
        let ghost d = descend(pages, current, key@, fuel as nat);
        let page = match pager.get_page(current) {
            Ok(p) => p,
            Err(e) => {
                return Err(BTreeError::Storage(e));
            },
        };
        let t = page.page_type();
        if t == PAGE_TYPE_LEAF {
            return Ok((path, current));
        } else if t == PAGE_TYPE_INTERNAL {
            if fuel == 0 {
                assert(d is Stuck);
                return Err(BTreeError::NoFreePages);
            }
            let node = InternalNode::decode(page);
            let child = node.child_for_key(key);
            let ghost rest = descend(pages, child, key@, (fuel - 1) as nat);
            assert(d == under(seq![current], rest));
            proof {
                match rest {
                    Descent::Leaf { path: q, leaf } => {
                        assert(path@ + (seq![current] + q) =~= path@.push(current) + q);
                    },
                    _ => {},
                }
            }
            path.push(current);
            current = child;
            fuel = fuel - 1;
        } else {
            return Err(bad_type_error(current, t));
        }
    }
}

/// The payload of the first entry with key `key`.
pub open spec fn find_payload(es: Seq<(Seq<u8>, Seq<u8>)>, key: Seq<u8>) -> Option<Seq<u8>>
    decreases es.len(),
{
    if es.len() == 0 {
        None
    } else if es[0].0 == key {
        Some(es[0].1)
    } else {
        find_payload(es.drop_first(), key)
    }
}

/// How a search ends.
pub enum SearchOutcome {
    /// The payload stored under the key, if any.
    Found(Option<Seq<u8>>),
    /// The descent failed with this outcome.
    Failed(Descent),
    /// The leaf reached cannot be read.
    Stuck,
}

/// Searching the tree at `root` for `key`: descend to the leaf and look the key up there.
pub open spec fn spec_search(pages: Seq<Seq<u8>>, root: u32, key: Seq<u8>) -> SearchOutcome {
    match descent(pages, root, key) {
        Descent::Leaf { path, leaf } => if leaf_readable(pages[leaf as int]) {
            SearchOutcome::Found(find_payload(spec_decode_leaf(pages[leaf as int]).entries, key))
        } else {
            SearchOutcome::Stuck
        },
        Descent::Stuck => SearchOutcome::Stuck,
        d => SearchOutcome::Failed(d),
    }
}

impl BTree {
    /// The payload stored under `key`.
    pub fn search(&self, pager: &Pager, key: &[u8]) -> (r: Result<Option<Vec<u8>>, BTreeError>)
        requires
            pager.wf(),
            !(spec_search(pager.images(), self.root_page(), key@) is Stuck),
        ensures
            match spec_search(pager.images(), self.root_page(), key@) {
                SearchOutcome::Found(p) => r matches Ok(v) && match (v, p) {
                    (Some(a), Some(b)) => a@ == b,
                    (None, None) => true,
                    _ => false,
                },
                SearchOutcome::Failed(d) => r matches Err(e) && descent_error(d, e),
                SearchOutcome::Stuck => false,
            },
    {
        let ghost pages = pager.images();
        proof {
            lemma_descend_leaf(pages, self.root, key@, pages.len());
        }
        let (_, leaf_no) = match descend_pages(pager, self.root, key) {
            Ok(x) => x,
            Err(e) => {
                return Err(e);
            },
        };
        assert(leaf_readable(pages[leaf_no as int]));
        let page = match pager.get_page(leaf_no) {
            Ok(p) => p,
            Err(e) => {
                return Err(BTreeError::Storage(e));
            },
        };
        let node = LeafNode::decode(page);
        let ghost es = node@.entries;
        assert(es == spec_decode_leaf(pages[leaf_no as int]).entries);
        assert(spec_search(pages, self.root, key@) == SearchOutcome::Found(find_payload(es, key@)));
        let mut i: usize = 0;
        assert(es.skip(0) =~= es);
        while i < node.entries.len()
            invariant
                es == node@.entries,
                pages == pager.images(),
                spec_search(pages, self.root, key@) == SearchOutcome::Found(find_payload(es, key@)),
                i <= es.len(),
                find_payload(es, key@) == find_payload(es.skip(i as int), key@),
            decreases es.len() - i,
        {
            let e = &node.entries[i];
            assert(es.skip(i as int)[0] == e@);
            if bytes_equal(e.key.as_slice(), key) {
                let mut out: Vec<u8> = Vec::new();
                append_bytes(&mut out, e.payload.as_slice());
                assert(out@ =~= e.payload@);
                assert(find_payload(es.skip(i as int), key@) == Some(e.payload@));
                return Ok(Some(out));
            }
            assert(es.skip(i as int).drop_first() =~= es.skip(i + 1));
            i = i + 1;
        }
        Ok(None)
    }
}

/// Bytes an entry takes in a leaf of its own: header, one slot and the cell.
pub open spec fn lone_entry_size(key: Seq<u8>, payload: Seq<u8>) -> int {
    NODE_HEADER_SIZE + 2 + 2 + key.len() + 2 + payload.len()
}

/// Whether some entry has key `key`.
pub open spec fn holds_key(es: Seq<(Seq<u8>, Seq<u8>)>, key: Seq<u8>) -> bool {
    exists|i: int| 0 <= i < es.len() && (#[trigger] es[i]).0 == key
}

/// Where a new key goes: before the first entry whose key is not below it.
pub open spec fn insert_pos(es: Seq<(Seq<u8>, Seq<u8>)>, key: Seq<u8>) -> int
    decreases es.len(),
{
    if es.len() == 0 {
        0
    } else if bytes_lt(es[0].0, key) {
        1 + insert_pos(es.drop_first(), key)
    } else {
        0
    }
}

/// Index of the first separator whose left child is `c`; the length when there is none.
pub open spec fn child_pos(es: Seq<(Seq<u8>, u32)>, c: u32) -> int
    decreases es.len(),
{
    if es.len() == 0 {
        0
    } else if es[0].1 == c {
        0
    } else {
        1 + child_pos(es.drop_first(), c)
    }
}

/// An interior node after its child `left` was split at `sep` into `left` and `right`:
/// the separator is placed before the entry that pointed at `left`, which now points at
/// `right`; when `left` was the rightmost child, the separator is appended and `right`
/// becomes the rightmost child.
pub open spec fn parent_with(n: InternalNodeView, left: u32, sep: Seq<u8>, right: u32) -> InternalNodeView {
    let i = child_pos(n.entries, left);
    if i < n.entries.len() {
        InternalNodeView {
            entries: n.entries.update(i, (n.entries[i].0, right)).insert(i, (sep, left)),
            rightmost_child: n.rightmost_child,
        }
    } else {
        InternalNodeView { entries: n.entries.push((sep, left)), rightmost_child: right }
    }
}

/// What inserting a key and payload comes to.
pub enum InsertPlan {
    /// The entry cannot fit in a page.
    TooLarge,
    /// The descent failed with this outcome.
    Failed(Descent),
    /// The leaf already holds the key.
    Duplicate,
    /// The tree cannot be changed this way: an unreadable page on the way, a split half
    /// that does not fit a page, or an interior node that would have to split.
    Unsupported,
    /// The leaf is rewritten in place as `node`.
    Rewrite { leaf: u32, node: LeafNodeView },
    /// The leaf reached through `path` splits into the entries `left`, which stay, and
    /// `right`, which move to a new page; `next` was the leaf's successor.
    Split { path: Seq<u32>, leaf: u32, left: Seq<(Seq<u8>, Seq<u8>)>, right: Seq<(Seq<u8>, Seq<u8>)>, next: u32 },
}

/// Whether the node that takes a separator after a split fits in a page.
pub open spec fn parent_fits(pages: Seq<Seq<u8>>, path: Seq<u32>, leaf: u32, sep: Seq<u8>) -> bool {
    if path.len() == 0 {
        internal_size(seq![(sep, leaf)]) <= PAGE_SIZE
    } else {
        internal_size(
            parent_with(spec_decode_internal(pages[path.last() as int]), leaf, sep, pages.len() as u32).entries,
        ) <= PAGE_SIZE
    }
}

/// Inserting `key` with `payload` into the tree at `root`: refuse an entry that cannot fit
/// a page, descend to the leaf, refuse a key already there, put the entry before the first
/// key not below it, and rewrite the leaf if it still fits, else split it in two halves.
pub open spec fn insert_plan(pages: Seq<Seq<u8>>, root: u32, key: Seq<u8>, payload: Seq<u8>) -> InsertPlan {
    if lone_entry_size(key, payload) > PAGE_SIZE {
        InsertPlan::TooLarge
    } else {
        match descent(pages, root, key) {
            Descent::Leaf { path, leaf } => {
                if !leaf_readable(pages[leaf as int]) {
                    InsertPlan::Unsupported
                } else {
                    let n = spec_decode_leaf(pages[leaf as int]);
                    if holds_key(n.entries, key) {
                        InsertPlan::Duplicate
                    } else {
                        let es = n.entries.insert(insert_pos(n.entries, key), (key, payload));
                        if leaf_size(es) <= PAGE_SIZE {
                            InsertPlan::Rewrite { leaf, node: LeafNodeView { entries: es, next_leaf: n.next_leaf } }
                        } else {
                            let mid = es.len() / 2;
                            let left = es.take(mid as int);
                            let right = es.skip(mid as int);
                            if leaf_size(left) > PAGE_SIZE || leaf_size(right) > PAGE_SIZE || !parent_fits(
                                pages,
                                path,
                                leaf,
                                right[0].0,
                            ) {
                                InsertPlan::Unsupported
                            } else {
                                InsertPlan::Split { path, leaf, left, right, next: n.next_leaf }
                            }
                        }
                    }
                }
            },
            Descent::Stuck => InsertPlan::Unsupported,
            d => InsertPlan::Failed(d),
        }
    }
}

/// Whether `after` and `new_root` with result `r` are what the insert leaves.
pub open spec fn insert_effect(
    pages: Seq<Seq<u8>>,
    root: u32,
    key: Seq<u8>,
    payload: Seq<u8>,
    after: Seq<Seq<u8>>,
    new_root: u32,
    r: Result<(), BTreeError>,
) -> bool {
    match insert_plan(pages, root, key, payload) {
        InsertPlan::TooLarge => r matches Err(BTreeError::RowTooLarge(s, m)) && s == lone_entry_size(key, payload)
            && m == PAGE_SIZE && after == pages && new_root == root,
        InsertPlan::Failed(d) => r matches Err(e) && descent_error(d, e) && after == pages && new_root == root,
        InsertPlan::Duplicate => r matches Err(BTreeError::DuplicateKey) && after == pages && new_root == root,
        InsertPlan::Unsupported => false,
        InsertPlan::Rewrite { leaf, node } => {
            &&& r is Ok
            &&& new_root == root
            &&& after.len() == pages.len()
            &&& leaf_layout(after[leaf as int], node)
            &&& forall|i: int| 0 <= i < pages.len() && i != leaf ==> after[i] == pages[i]
        },
        InsertPlan::Split { path, leaf, left, right, next } => {
            let rn = pages.len() as u32;
            &&& r is Ok
            &&& leaf_layout(after[leaf as int], LeafNodeView { entries: left, next_leaf: rn })
            &&& leaf_layout(after[rn as int], LeafNodeView { entries: right, next_leaf: next })
            &&& if path.len() == 0 {
                &&& after.len() == pages.len() + 2
                &&& new_root == pages.len() + 1
                &&& internal_layout(
                    after[pages.len() + 1 as int],
                    InternalNodeView { entries: seq![(right[0].0, leaf)], rightmost_child: rn },
                )
                &&& forall|i: int| 0 <= i < pages.len() && i != leaf ==> after[i] == pages[i]
            } else {
                let p = path.last();
                &&& after.len() == pages.len() + 1
                &&& new_root == root
                &&& internal_layout(
                    after[p as int],
                    parent_with(spec_decode_internal(pages[p as int]), leaf, right[0].0, rn),
                )
                &&& forall|i: int| 0 <= i < pages.len() && i != leaf && i != p ==> after[i] == pages[i]
            }
        },
    }
}

/// The position of the first entry of `node` whose key is not below `key`.
fn find_insert_pos(node: &LeafNode, key: &[u8]) -> (pos: usize)
    ensures
        pos == insert_pos(node@.entries, key@),
        pos <= node@.entries.len(),
{
    let ghost es = node@.entries;
    let mut pos: usize = 0;
    assert(es.skip(0) =~= es);
    loop
        invariant
            es == node@.entries,
            pos <= es.len(),
            insert_pos(es, key@) == pos + insert_pos(es.skip(pos as int), key@),
        decreases es.len() - pos,
    {
        if pos == node.entries.len() {
            return pos;
        }
        assert(es.skip(pos as int)[0] == node.entries@[pos as int]@);
        if !bytes_less(node.entries[pos].key.as_slice(), key) {
            return pos;
        }
        assert(es.skip(pos as int).drop_first() =~= es.skip(pos + 1));
        pos = pos + 1;
    }
}

/// Whether some entry of `node` has key `key`.
fn leaf_holds_key(node: &LeafNode, key: &[u8]) -> (b: bool)
    ensures
        b == holds_key(node@.entries, key@),
{
    let ghost es = node@.entries;
    let mut i: usize = 0;
    while i < node.entries.len()
        invariant
            es == node@.entries,
            i <= es.len(),
            forall|j: int| 0 <= j < i ==> (#[trigger] es[j]).0 != key@,
        decreases es.len() - i,
    {
        assert(es[i as int] == node.entries@[i as int]@);
        if bytes_equal(node.entries[i].key.as_slice(), key) {
            return true;
        }
        i = i + 1;
    }
    false
}

/// Index of the first separator of `node` whose left child is `c`, or the count of separators.
fn find_child_pos(node: &InternalNode, c: u32) -> (i: usize)
    ensures
        i == child_pos(node@.entries, c),
{
    let ghost es = node@.entries;
    let mut i: usize = 0;
    assert(es.skip(0) =~= es);
    loop
        invariant
            es == node@.entries,
            i <= es.len(),
            child_pos(es, c) == i + child_pos(es.skip(i as int), c),
        decreases es.len() - i,
    {
        if i == node.entries.len() {
            return i;
        }
        assert(es.skip(i as int)[0] == node.entries@[i as int]@);
        if node.entries[i].left_child == c {
            return i;
        }
        assert(es.skip(i as int).drop_first() =~= es.skip(i + 1));
        i = i + 1;
    }
}

impl BTree {
    /// Records that page `left_child` was split at `separator`, its upper half now being
    /// page `right_child`: in the parent, the last page of `path`, or in a new root page
    /// when `left_child` was the root.
    fn insert_into_parent(
        &mut self,
        pager: &mut Pager,
        path: Vec<u32>,
        left_child: u32,
        separator: Vec<u8>,
        right_child: u32,
    ) -> (r: Result<(), BTreeError>)
        requires
            old(pager).wf(),
            path@.len() == 0 ==> old(pager).images().len() < u32::MAX && internal_size(
                seq![(separator@, left_child)],
            ) <= PAGE_SIZE,
            path@.len() > 0 ==> path@.last() < old(pager).images().len() && internal_readable(
                old(pager).images()[path@.last() as int],
            ) && internal_size(
                parent_with(
                    spec_decode_internal(old(pager).images()[path@.last() as int]),
                    left_child,
                    separator@,
                    right_child,
                ).entries,
            ) <= PAGE_SIZE,
        ensures
            final(pager).wf(),
            r is Ok,
            path@.len() == 0 ==> {
                &&& final(pager).images().len() == old(pager).images().len() + 1
                &&& final(self).root_page() == old(pager).images().len()
                &&& internal_layout(
                    final(pager).images()[old(pager).images().len() as int],
                    InternalNodeView { entries: seq![(separator@, left_child)], rightmost_child: right_child },
                )
                &&& forall|i: int| 0 <= i < old(pager).images().len() ==> final(pager).images()[i] == old(pager).images()[i]
            },
            path@.len() > 0 ==> {
                let p = path@.last();
                &&& final(pager).images().len() == old(pager).images().len()
                &&& final(self).root_page() == old(self).root_page()
                &&& internal_layout(
                    final(pager).images()[p as int],
                    parent_with(spec_decode_internal(old(pager).images()[p as int]), left_child, separator@, right_child),
                )
                &&& forall|i: int| 0 <= i < old(pager).images().len() && i != p ==> final(pager).images()[i] == old(pager).images()[i]
            },
    {
        let ghost pages = pager.images();
        let mut path = path;
        match path.pop() {
            None => {
                let new_root_no = match pager.allocate_page() {
                    Ok(n) => n,
                    Err(e) => {
                        return Err(BTreeError::Storage(e));
                    },
                };
                let mut entries: Vec<InternalEntry> = Vec::new();
                entries.push(InternalEntry { key: separator, left_child });
                let new_root = InternalNode { entries, rightmost_child: right_child };
                assert(new_root@.entries =~= seq![(separator@, left_child)]);
                let mut pg = Page::zeroed();
                new_root.encode(&mut pg);
                match pager.put_page(new_root_no, pg) {
                    Ok(()) => {},
                    Err(e) => {
                        return Err(BTreeError::Storage(e));
                    },
                }
                self.root = new_root_no;
                Ok(())
            },
            Some(parent_no) => {
                let page = match pager.get_page(parent_no) {
                    Ok(p) => p,
                    Err(e) => {
                        return Err(BTreeError::Storage(e));
                    },
                };
                let mut node = InternalNode::decode(page);
                let ghost n0 = node@;
                let i = find_child_pos(&node, left_child);
                if i < node.entries.len() {
                    let k = bytes_to_vec(node.entries[i].key.as_slice());
                    node.entries.set(i, InternalEntry { key: k, left_child: right_child });
                    node.entries.insert(i, InternalEntry { key: separator, left_child });
                    assert(node@.entries =~= n0.entries.update(i as int, (n0.entries[i as int].0, right_child)).insert(
                        i as int,
                        (separator@, left_child),
                    ));
                } else {
                    node.rightmost_child = right_child;
                    node.entries.push(InternalEntry { key: separator, left_child });
                    assert(node@.entries =~= n0.entries.push((separator@, left_child)));
                }
                let mut pg = Page::zeroed();
                node.encode(&mut pg);
                match pager.put_page(parent_no, pg) {
                    Ok(()) => {},
                    Err(e) => {
                        return Err(BTreeError::Storage(e));
                    },
                }
                Ok(())
            },
        }
    }
}

impl BTree {
    /// Inserts `key` with `payload`, splitting the leaf when it overflows.
    pub fn insert(&mut self, pager: &mut Pager, key: &[u8], payload: &[u8]) -> (r: Result<(), BTreeError>)
        requires
            old(pager).wf(),
            key@.len() + payload@.len() + 18 <= usize::MAX,
            old(pager).images().len() + 2 <= u32::MAX,
            !(insert_plan(old(pager).images(), old(self).root_page(), key@, payload@) is Unsupported),
        ensures
            final(pager).wf(),
            insert_effect(
                old(pager).images(),
                old(self).root_page(),
                key@,
                payload@,
                final(pager).images(),
                final(self).root_page(),
                r,
            ),
    {
        let ghost pages = pager.images();
        proof {
            pager.lemma_images();
        }
        let size = NODE_HEADER_SIZE + 2 + 2 + key.len() + 2 + payload.len();
        if size > PAGE_SIZE {
            return Err(BTreeError::RowTooLarge(size, PAGE_SIZE));
        }
        proof {
            lemma_descend_leaf(pages, self.root, key@, pages.len());
            lemma_walk_of_descend(pages, self.root, key@, pages.len());
        }
        let (path, leaf_no) = match descend_pages(pager, self.root, key) {
            Ok(x) => x,
            Err(e) => {
                return Err(e);
            },
        };
        let page = match pager.get_page(leaf_no) {
            Ok(p) => p,
            Err(e) => {
                return Err(BTreeError::Storage(e));
            },
        };
        let mut node = LeafNode::decode(page);
        let ghost n0 = node@;
        if leaf_holds_key(&node, key) {
            return Err(BTreeError::DuplicateKey);
        }
        let pos = find_insert_pos(&node, key);
        let ghost es = n0.entries.insert(pos as int, (key@, payload@));
        node.entries.insert(pos, LeafEntry { key: bytes_to_vec(key), payload: bytes_to_vec(payload) });
        assert(node@.entries =~= es);
        proof {
            lemma_readable_leaf_bounds(pages[leaf_no as int]);
            assert forall|i: int| 0 <= i < es.len() implies leaf_cell_len(#[trigger] es[i]) <= PAGE_SIZE by {
                if i > pos {
                    assert(es[i] == n0.entries[i - 1]);
                } else if i < pos {
                    assert(es[i] == n0.entries[i]);
                }
            }
            lemma_leaf_total_bound(es, es.len() as int, PAGE_SIZE as int);
            assert(es.len() * PAGE_SIZE <= (PAGE_SIZE / 2 + 1) * PAGE_SIZE) by (nonlinear_arith)
                requires
                    es.len() <= PAGE_SIZE / 2 + 1,
            ;
        }
        let encoded = node.encoded_size();
        if encoded <= PAGE_SIZE {
            let mut pg = Page::zeroed();
            node.encode(&mut pg);
            match pager.put_page(leaf_no, pg) {
                Ok(()) => {},
                Err(e) => {
                    return Err(BTreeError::Storage(e));
                },
            }
            return Ok(());
        }
        let old_next = node.next_leaf;
        let mid = node.entries.len() / 2;
        let right_entries = node.entries.split_off(mid);
        let right_no = match pager.allocate_page() {
            Ok(n) => n,
            Err(e) => {
                return Err(BTreeError::Storage(e));
            },
        };
        let separator = bytes_to_vec(right_entries[0].key.as_slice());
        let left_node = LeafNode { entries: node.entries, next_leaf: right_no };
        let right_node = LeafNode { entries: right_entries, next_leaf: old_next };
        assert(left_node@.entries =~= es.take(mid as int));
        assert(right_node@.entries =~= es.skip(mid as int));
        let mut left_page = Page::zeroed();
        left_node.encode(&mut left_page);
        match pager.put_page(leaf_no, left_page) {
            Ok(()) => {},
            Err(e) => {
                return Err(BTreeError::Storage(e));
            },
        }
        let mut right_page = Page::zeroed();
        right_node.encode(&mut right_page);
        match pager.put_page(right_no, right_page) {
            Ok(()) => {},
            Err(e) => {
                return Err(BTreeError::Storage(e));
            },
        }
        proof {
            if path@.len() > 0 {
                lemma_walk_suffix(pages, self.root, key@, path@, leaf_no, path@.len() - 1);
                lemma_walk_leaf(pages, self.root, key@, path@, leaf_no);
            }
        }
        self.insert_into_parent(pager, path, leaf_no, separator, right_no)
    }
}

/// Whether a scan can start where `key` descends to: the descent reaches a readable leaf
/// or fails on a missing or foreign page.
pub open spec fn seekable(pages: Seq<Seq<u8>>, root: u32, key: Seq<u8>) -> bool {
    match descent(pages, root, key) {
        Descent::Leaf { leaf, .. } => leaf_readable(pages[leaf as int]),
        Descent::Stuck => false,
        _ => true,
    }
}

/// Whether `r` is a cursor at the first entry of the leaf `key` descends to whose key is
/// not below `from`, or the error of a failed descent.
pub open spec fn seek_result(
    pages: Seq<Seq<u8>>,
    root: u32,
    key: Seq<u8>,
    from: Seq<u8>,
    r: Result<Cursor, BTreeError>,
) -> bool {
    match descent(pages, root, key) {
        Descent::Leaf { leaf, .. } => {
            let n = spec_decode_leaf(pages[leaf as int]);
            r matches Ok(c) && c@ == (CursorView {
                rest: n.entries.skip(insert_pos(n.entries, from)),
                next_leaf: n.next_leaf,
                finished: false,
            })
        },
        Descent::Stuck => false,
        d => r matches Err(e) && descent_error(d, e),
    }
}

impl BTree {
    /// A cursor at the first entry not below `from` in the leaf that `key` descends to.
    fn cursor_at(&self, pager: &Pager, key: &[u8], from: &[u8]) -> (r: Result<Cursor, BTreeError>)
        requires
            pager.wf(),
            seekable(pager.images(), self.root_page(), key@),
        ensures
            seek_result(pager.images(), self.root_page(), key@, from@, r),
    {
        let ghost pages = pager.images();
        proof {
            lemma_descend_leaf(pages, self.root, key@, pages.len());
        }
        let (_, leaf_no) = match descend_pages(pager, self.root, key) {
            Ok(x) => x,
            Err(e) => {
                return Err(e);
            },
        };
        let page = match pager.get_page(leaf_no) {
            Ok(p) => p,
            Err(e) => {
                return Err(BTreeError::Storage(e));
            },
        };
        let node = LeafNode::decode(page);
        let ghost nv = node@;
        let index = find_insert_pos(&node, from);
        let c = Cursor::from_leaf(node.entries, index, node.next_leaf);
        assert(Seq::new(nv.entries.len(), |i: int| nv.entries[i]) =~= nv.entries);
        Ok(c)
    }

    /// A cursor at the start of the leaf the least key descends to.
    pub fn cursor_start(&self, pager: &Pager) -> (r: Result<Cursor, BTreeError>)
        requires
            pager.wf(),
            seekable(pager.images(), self.root_page(), Seq::empty()),
        ensures
            seek_result(pager.images(), self.root_page(), Seq::empty(), Seq::empty(), r),
    {
        let none: Vec<u8> = Vec::new();
        self.cursor_at(pager, none.as_slice(), none.as_slice())
    }

    /// A cursor at the first entry whose key is not below `key`, in the leaf `key` descends to.
    pub fn cursor_seek(&self, pager: &Pager, key: &[u8]) -> (r: Result<Cursor, BTreeError>)
        requires
            pager.wf(),
            seekable(pager.images(), self.root_page(), key@),
        ensures
            seek_result(pager.images(), self.root_page(), key@, key@, r),
    {
        self.cursor_at(pager, key, key)
    }
}

} // verus!
