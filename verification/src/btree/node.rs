use vstd::prelude::*;

use crate::btree::keys::{bytes_less, bytes_lt};
use crate::bytes::{append_bytes, lemma_frame, push_u16_le, push_u32_le};
use crate::storage::page::{
    le16, le32, lemma_le16_of_bytes, lemma_le32_of_bytes, u16_bytes, u32_bytes, Page, PAGE_SIZE,
    PAGE_TYPE_INTERNAL, PAGE_TYPE_LEAF,
};

verus! {

/// Bytes taken by the node header: type, cell count, slot-array end,
/// cell-area start and the right pointer.
pub const NODE_HEADER_SIZE: usize = 12;

/// One key/payload pair stored in a leaf.
#[derive(Debug, Clone, PartialEq)]
pub struct LeafEntry {
    pub key: Vec<u8>,
    pub payload: Vec<u8>,
}

/// A leaf node: its sorted entries and the page number of the next leaf (0 for none).
#[derive(Debug, Clone)]
pub struct LeafNode {
    pub entries: Vec<LeafEntry>,
    pub next_leaf: u32,
}

/// One separator key of an interior node with the child holding the smaller keys.
#[derive(Debug, Clone, PartialEq)]
pub struct InternalEntry {
    pub key: Vec<u8>,
    pub left_child: u32,
}

/// An interior node: separator entries plus the child for keys past the last separator.
#[derive(Debug, Clone)]
pub struct InternalNode {
    pub entries: Vec<InternalEntry>,
    pub rightmost_child: u32,
}

/// The abstract content of a leaf node.
pub struct LeafNodeView {
    pub entries: Seq<(Seq<u8>, Seq<u8>)>,
    pub next_leaf: u32,
}

/// The abstract content of an interior node.
pub struct InternalNodeView {
    pub entries: Seq<(Seq<u8>, u32)>,
    pub rightmost_child: u32,
}

impl View for LeafEntry {
    type V = (Seq<u8>, Seq<u8>);

    open spec fn view(&self) -> (Seq<u8>, Seq<u8>) {
        (self.key@, self.payload@)
    }
}

impl View for InternalEntry {
    type V = (Seq<u8>, u32);

    open spec fn view(&self) -> (Seq<u8>, u32) {
        (self.key@, self.left_child)
    }
}

impl View for LeafNode {
    type V = LeafNodeView;

    open spec fn view(&self) -> LeafNodeView {
        LeafNodeView {
            entries: Seq::new(self.entries@.len(), |i: int| self.entries@[i]@),
            next_leaf: self.next_leaf,
        }
    }
}

impl View for InternalNode {
    type V = InternalNodeView;

    open spec fn view(&self) -> InternalNodeView {
        InternalNodeView {
            entries: Seq::new(self.entries@.len(), |i: int| self.entries@[i]@),
            rightmost_child: self.rightmost_child,
        }
    }
}

// ---------------------------------------------------------------------------
// Leaf layout
// ---------------------------------------------------------------------------

/// Bytes of one leaf cell: key length, key, payload length, payload.
pub open spec fn leaf_cell_len(e: (Seq<u8>, Seq<u8>)) -> int {
    4 + e.0.len() as int + e.1.len() as int
}

/// The serialized form of one leaf cell.
pub open spec fn leaf_cell_bytes(e: (Seq<u8>, Seq<u8>)) -> Seq<u8> {
    u16_bytes(e.0.len() as int) + e.0 + u16_bytes(e.1.len() as int) + e.1
}

/// Total cell bytes of the first `n` entries.
pub open spec fn leaf_cells_total(es: Seq<(Seq<u8>, Seq<u8>)>, n: int) -> int
    decreases n,
{
    if n <= 0 {
        0
    } else {
        leaf_cells_total(es, n - 1) + leaf_cell_len(es[n - 1])
    }
}

/// Bytes a leaf needs when encoded: header, slot array and cells.
pub open spec fn leaf_size(es: Seq<(Seq<u8>, Seq<u8>)>) -> int {
    NODE_HEADER_SIZE + 2 * es.len() + leaf_cells_total(es, es.len() as int)
}

/// Offset of cell `i`: cells are packed downward from the end of the page.
pub open spec fn leaf_cell_off(es: Seq<(Seq<u8>, Seq<u8>)>, i: int) -> int {
    PAGE_SIZE - leaf_cells_total(es, i + 1)
}

/// The exact byte image of a leaf node on a page.
pub open spec fn leaf_layout(d: Seq<u8>, n: LeafNodeView) -> bool {
    let es = n.entries;
    let len = es.len() as int;
    let cell_end = PAGE_SIZE - leaf_cells_total(es, len);
    &&& d.len() == PAGE_SIZE
    &&& d[0] == PAGE_TYPE_LEAF
    &&& d[1] == 0
    &&& d.subrange(2, 4) == u16_bytes(len)
    &&& d.subrange(4, 6) == u16_bytes(NODE_HEADER_SIZE + 2 * len)
    &&& d.subrange(6, 8) == u16_bytes(cell_end)
    &&& d.subrange(8, 12) == u32_bytes(n.next_leaf as int)
    &&& forall|i: int|
        0 <= i < len ==> #[trigger] d.subrange(
            NODE_HEADER_SIZE + 2 * i,
            NODE_HEADER_SIZE + 2 * i + 2,
        ) == u16_bytes(leaf_cell_off(es, i))
    &&& forall|i: int|
        0 <= i < len ==> #[trigger] d.subrange(
            leaf_cell_off(es, i),
            leaf_cell_off(es, i) + leaf_cell_len(es[i]),
        ) == leaf_cell_bytes(es[i])
    &&& forall|k: int| NODE_HEADER_SIZE + 2 * len <= k < cell_end ==> #[trigger] d[k] == 0
}

/// Offset of the cell that slot `i` points at.
pub open spec fn slot_target(d: Seq<u8>, i: int) -> int {
    le16(d, NODE_HEADER_SIZE + 2 * i)
}

/// The entry that slot `i` of a leaf page designates.
pub open spec fn leaf_entry_at(d: Seq<u8>, i: int) -> (Seq<u8>, Seq<u8>) {
    let off = slot_target(d, i);
    let k = le16(d, off);
    let poff = off + 2 + k;
    let p = le16(d, poff);
    (d.subrange(off + 2, off + 2 + k), d.subrange(poff + 2, poff + 2 + p))
}

/// Every read that leaf decoding performs stays inside the page.
pub open spec fn leaf_readable(d: Seq<u8>) -> bool {
    &&& d.len() == PAGE_SIZE
    &&& d[0] == PAGE_TYPE_LEAF
    &&& NODE_HEADER_SIZE + 2 * le16(d, 2) <= PAGE_SIZE
    &&& forall|i: int|
        0 <= i < le16(d, 2) ==> {
            let off = #[trigger] slot_target(d, i);
            let k = le16(d, off);
            let poff = off + 2 + k;
            &&& off + 2 <= PAGE_SIZE
            &&& poff + 2 <= PAGE_SIZE
            &&& poff + 2 + le16(d, poff) <= PAGE_SIZE
        }
}

/// The leaf that a page's bytes describe.
pub open spec fn spec_decode_leaf(d: Seq<u8>) -> LeafNodeView {
    LeafNodeView {
        entries: Seq::new(le16(d, 2) as nat, |i: int| leaf_entry_at(d, i)),
        next_leaf: le32(d, 8) as u32,
    }
}

// ---------------------------------------------------------------------------
// Interior layout
// ---------------------------------------------------------------------------

/// Bytes of one interior cell: key length, key, left child.
pub open spec fn internal_cell_len(e: (Seq<u8>, u32)) -> int {
    6 + e.0.len() as int
}

/// The serialized form of one interior cell.
pub open spec fn internal_cell_bytes(e: (Seq<u8>, u32)) -> Seq<u8> {
    u16_bytes(e.0.len() as int) + e.0 + u32_bytes(e.1 as int)
}

/// Total cell bytes of the first `n` separators.
pub open spec fn internal_cells_total(es: Seq<(Seq<u8>, u32)>, n: int) -> int
    decreases n,
{
    if n <= 0 {
        0
    } else {
        internal_cells_total(es, n - 1) + internal_cell_len(es[n - 1])
    }
}

/// Bytes an interior node needs when encoded.
pub open spec fn internal_size(es: Seq<(Seq<u8>, u32)>) -> int {
    NODE_HEADER_SIZE + 2 * es.len() + internal_cells_total(es, es.len() as int)
}

/// Offset of interior cell `i`.
pub open spec fn internal_cell_off(es: Seq<(Seq<u8>, u32)>, i: int) -> int {
    PAGE_SIZE - internal_cells_total(es, i + 1)
}

/// The exact byte image of an interior node on a page.
pub open spec fn internal_layout(d: Seq<u8>, n: InternalNodeView) -> bool {
    let es = n.entries;
    let len = es.len() as int;
    let cell_end = PAGE_SIZE - internal_cells_total(es, len);
    &&& d.len() == PAGE_SIZE
    &&& d[0] == PAGE_TYPE_INTERNAL
    &&& d[1] == 0
    &&& d.subrange(2, 4) == u16_bytes(len)
    &&& d.subrange(4, 6) == u16_bytes(NODE_HEADER_SIZE + 2 * len)
    &&& d.subrange(6, 8) == u16_bytes(cell_end)
    &&& d.subrange(8, 12) == u32_bytes(n.rightmost_child as int)
    &&& forall|i: int|
        0 <= i < len ==> #[trigger] d.subrange(
            NODE_HEADER_SIZE + 2 * i,
            NODE_HEADER_SIZE + 2 * i + 2,
        ) == u16_bytes(internal_cell_off(es, i))
    &&& forall|i: int|
        0 <= i < len ==> #[trigger] d.subrange(
            internal_cell_off(es, i),
            internal_cell_off(es, i) + internal_cell_len(es[i]),
        ) == internal_cell_bytes(es[i])
    &&& forall|k: int| NODE_HEADER_SIZE + 2 * len <= k < cell_end ==> #[trigger] d[k] == 0
}

/// The separator that slot `i` of an interior page designates.
pub open spec fn internal_entry_at(d: Seq<u8>, i: int) -> (Seq<u8>, u32) {
    let off = slot_target(d, i);
    let k = le16(d, off);
    (d.subrange(off + 2, off + 2 + k), le32(d, off + 2 + k) as u32)
}

/// Every read that interior decoding performs stays inside the page.
pub open spec fn internal_readable(d: Seq<u8>) -> bool {
    &&& d.len() == PAGE_SIZE
    &&& d[0] == PAGE_TYPE_INTERNAL
    &&& NODE_HEADER_SIZE + 2 * le16(d, 2) <= PAGE_SIZE
    &&& forall|i: int|
        0 <= i < le16(d, 2) ==> {
            let off = #[trigger] slot_target(d, i);
            &&& off + 2 <= PAGE_SIZE
            &&& off + 6 + le16(d, off) <= PAGE_SIZE
        }
}

/// The interior node that a page's bytes describe.
pub open spec fn spec_decode_internal(d: Seq<u8>) -> InternalNodeView {
    InternalNodeView {
        entries: Seq::new(le16(d, 2) as nat, |i: int| internal_entry_at(d, i)),
        rightmost_child: le32(d, 8) as u32,
    }
}

/// The child an interior node routes `key` to: the left child of the first
/// separator greater than `key`, else the rightmost child.
pub open spec fn spec_child_for_key(n: InternalNodeView, key: Seq<u8>) -> u32
    decreases n.entries.len(),
{
    if n.entries.len() == 0 {
        n.rightmost_child
    } else if bytes_lt(key, n.entries[0].0) {
        n.entries[0].1
    } else {
        spec_child_for_key(
            InternalNodeView { entries: n.entries.drop_first(), rightmost_child: n.rightmost_child },
            key,
        )
    }
}

// ---------------------------------------------------------------------------
// Lemmas
// ---------------------------------------------------------------------------

proof fn lemma_sub_sub(d: Seq<u8>, a: int, len: int, s: Seq<u8>, x: int, y: int)
    requires
        0 <= a,
        a + len <= d.len(),
        0 <= x <= y <= len,
        d.subrange(a, a + len) == s,
    ensures
        d.subrange(a + x, a + y) == s.subrange(x, y),
{
    assert(d.subrange(a + x, a + y) =~= s.subrange(x, y)) by {
        assert forall|j: int| 0 <= j < y - x implies d.subrange(a + x, a + y)[j] == s.subrange(
            x,
            y,
        )[j] by {
            assert(d[a + x + j] == d.subrange(a, a + len)[x + j]);
        }
    }
}

proof fn lemma_leaf_total_mono(es: Seq<(Seq<u8>, Seq<u8>)>, a: int, b: int)
    requires
        0 <= a <= b,
    ensures
        leaf_cells_total(es, a) <= leaf_cells_total(es, b),
        leaf_cells_total(es, a) >= 0,
    decreases b - a,
{
    if a < b {
        lemma_leaf_total_mono(es, a, b - 1);
    } else {
        lemma_leaf_total_nonneg(es, a);
    }
}

proof fn lemma_leaf_total_nonneg(es: Seq<(Seq<u8>, Seq<u8>)>, a: int)
    ensures
        leaf_cells_total(es, a) >= 0,
    decreases a,
{
    if a > 0 {
        lemma_leaf_total_nonneg(es, a - 1);
    }
}

/// Cells of at most `b` bytes each take at most `n * b` bytes together.
pub proof fn lemma_leaf_total_bound(es: Seq<(Seq<u8>, Seq<u8>)>, n: int, b: int)
    requires
        0 <= n <= es.len(),
        0 <= b,
        forall|i: int| 0 <= i < n ==> leaf_cell_len(#[trigger] es[i]) <= b,
    ensures
        leaf_cells_total(es, n) <= n * b,
    decreases n,
{
    if n > 0 {
        lemma_leaf_total_bound(es, n - 1, b);
        assert(leaf_cell_len(es[n - 1]) <= b);
        assert((n - 1) * b + b == n * b) by (nonlinear_arith);
    }
}

/// The entries read from a leaf page are few and each fits in the page.
pub proof fn lemma_readable_leaf_bounds(d: Seq<u8>)
    requires
        leaf_readable(d),
    ensures
        spec_decode_leaf(d).entries.len() <= PAGE_SIZE / 2,
        forall|i: int|
            0 <= i < spec_decode_leaf(d).entries.len() ==> leaf_cell_len(
                #[trigger] spec_decode_leaf(d).entries[i],
            ) <= PAGE_SIZE,
{
    let es = spec_decode_leaf(d).entries;
    assert forall|i: int| 0 <= i < es.len() implies leaf_cell_len(#[trigger] es[i]) <= PAGE_SIZE by {
        let off = slot_target(d, i);
        assert(off + 2 <= PAGE_SIZE);
        assert(es[i] == leaf_entry_at(d, i));
    }
}

proof fn lemma_internal_total_mono(es: Seq<(Seq<u8>, u32)>, a: int, b: int)
    requires
        0 <= a <= b,
    ensures
        internal_cells_total(es, a) <= internal_cells_total(es, b),
        internal_cells_total(es, a) >= 0,
    decreases b - a,
{
    if a < b {
        lemma_internal_total_mono(es, a, b - 1);
    } else {
        lemma_internal_total_nonneg(es, a);
    }
}

proof fn lemma_internal_total_nonneg(es: Seq<(Seq<u8>, u32)>, a: int)
    ensures
        internal_cells_total(es, a) >= 0,
    decreases a,
{
    if a > 0 {
        lemma_internal_total_nonneg(es, a - 1);
    }
}

proof fn lemma_leaf_entry_decodes(d: Seq<u8>, n: LeafNodeView, i: int)
    requires
        leaf_layout(d, n),
        leaf_size(n.entries) <= PAGE_SIZE,
        0 <= i < n.entries.len(),
    ensures
        ({
            let off = slot_target(d, i);
            let k = le16(d, off);
            let poff = off + 2 + k;
            &&& off + 2 <= PAGE_SIZE
            &&& poff + 2 <= PAGE_SIZE
            &&& poff + 2 + le16(d, poff) <= PAGE_SIZE
        }),
        leaf_entry_at(d, i) == n.entries[i],
{
    let es = n.entries;
    let len = es.len() as int;
    let off = leaf_cell_off(es, i);
    let e = es[i];
    let cl = leaf_cell_len(e);
    lemma_leaf_total_mono(es, i + 1, len);
    lemma_leaf_total_mono(es, i, i + 1);
    assert(d.subrange(NODE_HEADER_SIZE + 2 * i, NODE_HEADER_SIZE + 2 * i + 2) == u16_bytes(off));
    lemma_le16_of_bytes(d, NODE_HEADER_SIZE + 2 * i, off);
    let cb = leaf_cell_bytes(e);
    assert(d.subrange(off, off + cl) == cb);
    let k = e.0.len() as int;
    let p = e.1.len() as int;
    assert(cb.subrange(0, 2) =~= u16_bytes(k));
    assert(cb.subrange(2, 2 + k) =~= e.0);
    assert(cb.subrange(2 + k, 4 + k) =~= u16_bytes(p));
    assert(cb.subrange(4 + k, 4 + k + p) =~= e.1);
    lemma_sub_sub(d, off, cl, cb, 0, 2);
    lemma_sub_sub(d, off, cl, cb, 2, 2 + k);
    lemma_sub_sub(d, off, cl, cb, 2 + k, 4 + k);
    lemma_sub_sub(d, off, cl, cb, 4 + k, 4 + k + p);
    lemma_le16_of_bytes(d, off, k);
    lemma_le16_of_bytes(d, off + 2 + k, p);
}

/// Decoding the byte image of a leaf gives back the leaf.
pub proof fn lemma_leaf_layout_decodes(d: Seq<u8>, n: LeafNodeView)
    requires
        leaf_layout(d, n),
        leaf_size(n.entries) <= PAGE_SIZE,
    ensures
        leaf_readable(d),
        spec_decode_leaf(d) == n,
{
    let es = n.entries;
    let len = es.len() as int;
    lemma_leaf_total_nonneg(es, len);
    lemma_le16_of_bytes(d, 2, len);
    lemma_le32_of_bytes(d, 8, n.next_leaf as int);
    assert forall|i: int| 0 <= i < le16(d, 2) implies {
        let off = #[trigger] slot_target(d, i);
        let k = le16(d, off);
        let poff = off + 2 + k;
        &&& off + 2 <= PAGE_SIZE
        &&& poff + 2 <= PAGE_SIZE
        &&& poff + 2 + le16(d, poff) <= PAGE_SIZE
    } by {
        lemma_leaf_entry_decodes(d, n, i);
    }
    assert forall|i: int| 0 <= i < len implies #[trigger] spec_decode_leaf(d).entries[i] == es[i] by {
        lemma_leaf_entry_decodes(d, n, i);
    }
    assert(spec_decode_leaf(d).entries =~= es);
}

proof fn lemma_internal_entry_decodes(d: Seq<u8>, n: InternalNodeView, i: int)
    requires
        internal_layout(d, n),
        internal_size(n.entries) <= PAGE_SIZE,
        0 <= i < n.entries.len(),
    ensures
        ({
            let off = slot_target(d, i);
            &&& off + 2 <= PAGE_SIZE
            &&& off + 6 + le16(d, off) <= PAGE_SIZE
        }),
        internal_entry_at(d, i) == n.entries[i],
{
    let es = n.entries;
    let len = es.len() as int;
    let off = internal_cell_off(es, i);
    let e = es[i];
    let cl = internal_cell_len(e);
    lemma_internal_total_mono(es, i + 1, len);
    lemma_internal_total_mono(es, i, i + 1);
    assert(d.subrange(NODE_HEADER_SIZE + 2 * i, NODE_HEADER_SIZE + 2 * i + 2) == u16_bytes(off));
    lemma_le16_of_bytes(d, NODE_HEADER_SIZE + 2 * i, off);
    let cb = internal_cell_bytes(e);
    assert(d.subrange(off, off + cl) == cb);
    let k = e.0.len() as int;
    assert(cb.subrange(0, 2) =~= u16_bytes(k));
    assert(cb.subrange(2, 2 + k) =~= e.0);
    assert(cb.subrange(2 + k, 6 + k) =~= u32_bytes(e.1 as int));
    lemma_sub_sub(d, off, cl, cb, 0, 2);
    lemma_sub_sub(d, off, cl, cb, 2, 2 + k);
    lemma_sub_sub(d, off, cl, cb, 2 + k, 6 + k);
    lemma_le16_of_bytes(d, off, k);
    lemma_le32_of_bytes(d, off + 2 + k, e.1 as int);
}

/// Decoding the byte image of an interior node gives back the node.
pub proof fn lemma_internal_layout_decodes(d: Seq<u8>, n: InternalNodeView)
    requires
        internal_layout(d, n),
        internal_size(n.entries) <= PAGE_SIZE,
    ensures
        internal_readable(d),
        spec_decode_internal(d) == n,
{
    let es = n.entries;
    let len = es.len() as int;
    lemma_internal_total_nonneg(es, len);
    lemma_le16_of_bytes(d, 2, len);
    lemma_le32_of_bytes(d, 8, n.rightmost_child as int);
    assert forall|i: int| 0 <= i < le16(d, 2) implies {
        let off = #[trigger] slot_target(d, i);
        &&& off + 2 <= PAGE_SIZE
        &&& off + 6 + le16(d, off) <= PAGE_SIZE
    } by {
        lemma_internal_entry_decodes(d, n, i);
    }
    assert forall|i: int| 0 <= i < len implies #[trigger] spec_decode_internal(d).entries[i] == es[i] by {
        lemma_internal_entry_decodes(d, n, i);
    }
    assert(spec_decode_internal(d).entries =~= es);
}

// ---------------------------------------------------------------------------
// Executable encoding and decoding
// ---------------------------------------------------------------------------

fn leaf_cell(e: &LeafEntry) -> (v: Vec<u8>)
    requires
        e.key@.len() < 65536,
        e.payload@.len() < 65536,
    ensures
        v@ == leaf_cell_bytes(e@),
        v@.len() == leaf_cell_len(e@),
{
    let mut v: Vec<u8> = Vec::new();
    push_u16_le(&mut v, e.key.len() as u16);
    append_bytes(&mut v, e.key.as_slice());
    push_u16_le(&mut v, e.payload.len() as u16);
    append_bytes(&mut v, e.payload.as_slice());
    v
}

fn internal_cell(e: &InternalEntry) -> (v: Vec<u8>)
    requires
        e.key@.len() < 65536,
    ensures
        v@ == internal_cell_bytes(e@),
        v@.len() == internal_cell_len(e@),
{
    let mut v: Vec<u8> = Vec::new();
    push_u16_le(&mut v, e.key.len() as u16);
    append_bytes(&mut v, e.key.as_slice());
    push_u32_le(&mut v, e.left_child);
    v
}

impl LeafNode {
    /// Reads a leaf node from a page holding one.
    pub fn decode(page: &Page) -> (n: LeafNode)
        requires
            page.wf(),
            leaf_readable(page.data@),
        ensures
            n@ == spec_decode_leaf(page.data@),
    {
        let ghost d = page.data@;
        let num_cells = page.read_u16(2) as usize;
        let next_leaf = page.read_u32(8);
        let mut entries: Vec<LeafEntry> = Vec::with_capacity(num_cells);
        let mut i: usize = 0;
        while i < num_cells
            invariant
                page.wf(),
                d == page.data@,
                leaf_readable(d),
                num_cells == le16(d, 2),
                i <= num_cells,
                entries@.len() == i,
                forall|j: int| 0 <= j < i ==> #[trigger] entries@[j]@ == leaf_entry_at(d, j),
            decreases num_cells - i,
        {
            let ghost gi = i as int;
            assert(NODE_HEADER_SIZE + 2 * gi + 2 <= PAGE_SIZE);
            let slot_offset = NODE_HEADER_SIZE + i * 2;
            let cell_offset = page.read_u16(slot_offset) as usize;
            assert(cell_offset == slot_target(d, gi));
            let key_len = page.read_u16(cell_offset) as usize;
            let key = page.read_bytes(cell_offset + 2, key_len);
            let payload_len_offset = cell_offset + 2 + key_len;
            let payload_len = page.read_u16(payload_len_offset) as usize;
            let payload = page.read_bytes(payload_len_offset + 2, payload_len);
            entries.push(LeafEntry { key, payload });
            i = i + 1;
        }
        let n = LeafNode { entries, next_leaf };
        assert(n@.entries =~= spec_decode_leaf(d).entries);
        n
    }

    /// Writes this leaf onto `page`, replacing all its bytes.
    pub fn encode(&self, page: &mut Page)
        requires
            old(page).wf(),
            leaf_size(self@.entries) <= PAGE_SIZE,
        ensures
            final(page).wf(),
            leaf_layout(final(page).data@, self@),
    {
        let ghost es = self@.entries;
        let n = self.entries.len();
        proof {
            lemma_leaf_total_nonneg(es, n as int);
        }
        page.clear();
        page.write_u8(0, PAGE_TYPE_LEAF);
        page.write_u16(2, n as u16);
        page.write_u32(8, self.next_leaf);
        let mut cell_end: usize = PAGE_SIZE;
        let mut i: usize = 0;
        while i < n
            invariant
                page.wf(),
                n == self.entries@.len(),
                es == self@.entries,
                leaf_size(es) <= PAGE_SIZE,
                i <= n,
                cell_end == PAGE_SIZE - leaf_cells_total(es, i as int),
                page.data@[0] == PAGE_TYPE_LEAF,
                page.data@[1] == 0,
                page.data@.subrange(2, 4) == u16_bytes(n as int),
                page.data@.subrange(8, 12) == u32_bytes(self.next_leaf as int),
                forall|k: int| 4 <= k < 8 ==> #[trigger] page.data@[k] == 0,
                forall|j: int|
                    0 <= j < i ==> #[trigger] page.data@.subrange(
                        NODE_HEADER_SIZE + 2 * j,
                        NODE_HEADER_SIZE + 2 * j + 2,
                    ) == u16_bytes(leaf_cell_off(es, j)),
                forall|j: int|
                    0 <= j < i ==> #[trigger] page.data@.subrange(
                        leaf_cell_off(es, j),
                        leaf_cell_off(es, j) + leaf_cell_len(es[j]),
                    ) == leaf_cell_bytes(es[j]),
                forall|k: int|
                    NODE_HEADER_SIZE + 2 * i <= k < cell_end ==> #[trigger] page.data@[k] == 0,
            decreases n - i,
        {
            let ghost gi = i as int;
            proof {
                lemma_leaf_total_mono(es, gi + 1, n as int);
                lemma_leaf_total_mono(es, gi, gi + 1);
            }
            let e = &self.entries[i];
            assert(e@ == es[gi]);
            let cell = leaf_cell(e);
            let off = cell_end - cell.len();
            assert(off == leaf_cell_off(es, gi));
            let ghost d0 = page.data@;
            page.write_bytes(off, cell.as_slice());
            let ghost d1 = page.data@;
            page.write_u16(NODE_HEADER_SIZE + i * 2, off as u16);
            let ghost d2 = page.data@;
            proof {
                let cl = leaf_cell_len(es[gi]);
                assert forall|j: int| 0 <= j < gi implies #[trigger] d2.subrange(
                    NODE_HEADER_SIZE + 2 * j,
                    NODE_HEADER_SIZE + 2 * j + 2,
                ) == u16_bytes(leaf_cell_off(es, j)) by {
                    lemma_frame(d0, d2, NODE_HEADER_SIZE + 2 * j, NODE_HEADER_SIZE + 2 * j + 2);
                }
                assert forall|j: int| 0 <= j < gi implies #[trigger] d2.subrange(
                    leaf_cell_off(es, j),
                    leaf_cell_off(es, j) + leaf_cell_len(es[j]),
                ) == leaf_cell_bytes(es[j]) by {
                    lemma_leaf_total_mono(es, j + 1, gi);
                    lemma_leaf_total_mono(es, j, j + 1);
                    lemma_frame(
                        d0,
                        d2,
                        leaf_cell_off(es, j),
                        leaf_cell_off(es, j) + leaf_cell_len(es[j]),
                    );
                }
                lemma_frame(d1, d2, off as int, off + cl);
                lemma_frame(d0, d2, 2, 4);
                lemma_frame(d0, d2, 8, 12);
            }
            cell_end = off;
            i = i + 1;
        }
        let ghost d3 = page.data@;
        page.write_u16(4, (NODE_HEADER_SIZE + n * 2) as u16);
        let ghost d4 = page.data@;
        page.write_u16(6, cell_end as u16);
        proof {
            let d = page.data@;
            lemma_frame(d4, d, 4, 6);
            assert(d[0] == d3[0]);
            assert(d[1] == d3[1]);
            assert forall|k: int| NODE_HEADER_SIZE + 2 * n <= k < cell_end implies #[trigger] d[k]
                == 0 by {
                assert(d[k] == d3[k]);
            }
            assert forall|j: int| 0 <= j < n implies #[trigger] d.subrange(
                NODE_HEADER_SIZE + 2 * j,
                NODE_HEADER_SIZE + 2 * j + 2,
            ) == u16_bytes(leaf_cell_off(es, j)) by {
                lemma_frame(d3, d, NODE_HEADER_SIZE + 2 * j, NODE_HEADER_SIZE + 2 * j + 2);
            }
            assert forall|j: int| 0 <= j < n implies #[trigger] d.subrange(
                leaf_cell_off(es, j),
                leaf_cell_off(es, j) + leaf_cell_len(es[j]),
            ) == leaf_cell_bytes(es[j]) by {
                lemma_leaf_total_mono(es, j + 1, n as int);
                lemma_leaf_total_mono(es, j, j + 1);
                lemma_frame(
                    d3,
                    d,
                    leaf_cell_off(es, j),
                    leaf_cell_off(es, j) + leaf_cell_len(es[j]),
                );
            }
            lemma_frame(d3, d, 2, 4);
            lemma_frame(d3, d, 8, 12);
        }
    }

    /// Bytes this leaf takes when encoded.
    pub fn encoded_size(&self) -> (size: usize)
        requires
            leaf_size(self@.entries) <= usize::MAX,
        ensures
            size == leaf_size(self@.entries),
    {
        let ghost es = self@.entries;
        let n = self.entries.len();
        proof {
            lemma_leaf_total_nonneg(es, n as int);
        }
        let mut cells: usize = 0;
        let mut i: usize = 0;
        while i < n
            invariant
                n == self.entries@.len(),
                es == self@.entries,
                leaf_size(es) <= usize::MAX,
                i <= n,
                cells == leaf_cells_total(es, i as int),
            decreases n - i,
        {
            proof {
                lemma_leaf_total_mono(es, i + 1, n as int);
            }
            let e = &self.entries[i];
            assert(e@ == es[i as int]);
            cells = cells + 2 + e.key.len() + 2 + e.payload.len();
            i = i + 1;
        }
        NODE_HEADER_SIZE + n * 2 + cells
    }
}

impl InternalNode {
    /// Reads an interior node from a page holding one.
    pub fn decode(page: &Page) -> (n: InternalNode)
        requires
            page.wf(),
            internal_readable(page.data@),
        ensures
            n@ == spec_decode_internal(page.data@),
    {
        let ghost d = page.data@;
        let num_cells = page.read_u16(2) as usize;
        let rightmost_child = page.read_u32(8);
        let mut entries: Vec<InternalEntry> = Vec::with_capacity(num_cells);
        let mut i: usize = 0;
        while i < num_cells
            invariant
                page.wf(),
                d == page.data@,
                internal_readable(d),
                num_cells == le16(d, 2),
                i <= num_cells,
                entries@.len() == i,
                forall|j: int| 0 <= j < i ==> #[trigger] entries@[j]@ == internal_entry_at(d, j),
            decreases num_cells - i,
        {
            let ghost gi = i as int;
            assert(NODE_HEADER_SIZE + 2 * gi + 2 <= PAGE_SIZE);
            let slot_offset = NODE_HEADER_SIZE + i * 2;
            let cell_offset = page.read_u16(slot_offset) as usize;
            assert(cell_offset == slot_target(d, gi));
            let key_len = page.read_u16(cell_offset) as usize;
            let key = page.read_bytes(cell_offset + 2, key_len);
            let left_child = page.read_u32(cell_offset + 2 + key_len);
            entries.push(InternalEntry { key, left_child });
            i = i + 1;
        }
        let n = InternalNode { entries, rightmost_child };
        assert(n@.entries =~= spec_decode_internal(d).entries);
        n
    }

    /// Writes this interior node onto `page`, replacing all its bytes.
    pub fn encode(&self, page: &mut Page)
        requires
            old(page).wf(),
            internal_size(self@.entries) <= PAGE_SIZE,
        ensures
            final(page).wf(),
            internal_layout(final(page).data@, self@),
    {
        let ghost es = self@.entries;
        let n = self.entries.len();
        proof {
            lemma_internal_total_nonneg(es, n as int);
        }
        page.clear();
        page.write_u8(0, PAGE_TYPE_INTERNAL);
        page.write_u16(2, n as u16);
        page.write_u32(8, self.rightmost_child);
        let mut cell_end: usize = PAGE_SIZE;
        let mut i: usize = 0;
        while i < n
            invariant
                page.wf(),
                n == self.entries@.len(),
                es == self@.entries,
                internal_size(es) <= PAGE_SIZE,
                i <= n,
                cell_end == PAGE_SIZE - internal_cells_total(es, i as int),
                page.data@[0] == PAGE_TYPE_INTERNAL,
                page.data@[1] == 0,
                page.data@.subrange(2, 4) == u16_bytes(n as int),
                page.data@.subrange(8, 12) == u32_bytes(self.rightmost_child as int),
                forall|k: int| 4 <= k < 8 ==> #[trigger] page.data@[k] == 0,
                forall|j: int|
                    0 <= j < i ==> #[trigger] page.data@.subrange(
                        NODE_HEADER_SIZE + 2 * j,
                        NODE_HEADER_SIZE + 2 * j + 2,
                    ) == u16_bytes(internal_cell_off(es, j)),
                forall|j: int|
                    0 <= j < i ==> #[trigger] page.data@.subrange(
                        internal_cell_off(es, j),
                        internal_cell_off(es, j) + internal_cell_len(es[j]),
                    ) == internal_cell_bytes(es[j]),
                forall|k: int|
                    NODE_HEADER_SIZE + 2 * i <= k < cell_end ==> #[trigger] page.data@[k] == 0,
            decreases n - i,
        {
            let ghost gi = i as int;
            proof {
                lemma_internal_total_mono(es, gi + 1, n as int);
                lemma_internal_total_mono(es, gi, gi + 1);
            }
            let e = &self.entries[i];
            assert(e@ == es[gi]);
            let cell = internal_cell(e);
            let off = cell_end - cell.len();
            assert(off == internal_cell_off(es, gi));
            let ghost d0 = page.data@;
            page.write_bytes(off, cell.as_slice());
            let ghost d1 = page.data@;
            page.write_u16(NODE_HEADER_SIZE + i * 2, off as u16);
            let ghost d2 = page.data@;
            proof {
                let cl = internal_cell_len(es[gi]);
                assert forall|j: int| 0 <= j < gi implies #[trigger] d2.subrange(
                    NODE_HEADER_SIZE + 2 * j,
                    NODE_HEADER_SIZE + 2 * j + 2,
                ) == u16_bytes(internal_cell_off(es, j)) by {
                    lemma_frame(d0, d2, NODE_HEADER_SIZE + 2 * j, NODE_HEADER_SIZE + 2 * j + 2);
                }
                assert forall|j: int| 0 <= j < gi implies #[trigger] d2.subrange(
                    internal_cell_off(es, j),
                    internal_cell_off(es, j) + internal_cell_len(es[j]),
                ) == internal_cell_bytes(es[j]) by {
                    lemma_internal_total_mono(es, j + 1, gi);
                    lemma_internal_total_mono(es, j, j + 1);
                    lemma_frame(
                        d0,
                        d2,
                        internal_cell_off(es, j),
                        internal_cell_off(es, j) + internal_cell_len(es[j]),
                    );
                }
                lemma_frame(d1, d2, off as int, off + cl);
                lemma_frame(d0, d2, 2, 4);
                lemma_frame(d0, d2, 8, 12);
            }
            cell_end = off;
            i = i + 1;
        }
        let ghost d3 = page.data@;
        page.write_u16(4, (NODE_HEADER_SIZE + n * 2) as u16);
        let ghost d4 = page.data@;
        page.write_u16(6, cell_end as u16);
        proof {
            let d = page.data@;
            lemma_frame(d4, d, 4, 6);
            assert(d[0] == d3[0]);
            assert(d[1] == d3[1]);
            assert forall|k: int| NODE_HEADER_SIZE + 2 * n <= k < cell_end implies #[trigger] d[k]
                == 0 by {
                assert(d[k] == d3[k]);
            }
            assert forall|j: int| 0 <= j < n implies #[trigger] d.subrange(
                NODE_HEADER_SIZE + 2 * j,
                NODE_HEADER_SIZE + 2 * j + 2,
            ) == u16_bytes(internal_cell_off(es, j)) by {
                lemma_frame(d3, d, NODE_HEADER_SIZE + 2 * j, NODE_HEADER_SIZE + 2 * j + 2);
            }
            assert forall|j: int| 0 <= j < n implies #[trigger] d.subrange(
                internal_cell_off(es, j),
                internal_cell_off(es, j) + internal_cell_len(es[j]),
            ) == internal_cell_bytes(es[j]) by {
                lemma_internal_total_mono(es, j + 1, n as int);
                lemma_internal_total_mono(es, j, j + 1);
                lemma_frame(
                    d3,
                    d,
                    internal_cell_off(es, j),
                    internal_cell_off(es, j) + internal_cell_len(es[j]),
                );
            }
            lemma_frame(d3, d, 2, 4);
            lemma_frame(d3, d, 8, 12);
        }
    }

    /// Bytes this interior node takes when encoded.
    pub fn encoded_size(&self) -> (size: usize)
        requires
            internal_size(self@.entries) <= usize::MAX,
        ensures
            size == internal_size(self@.entries),
    {
        let ghost es = self@.entries;
        let n = self.entries.len();
        proof {
            lemma_internal_total_nonneg(es, n as int);
        }
        let mut cells: usize = 0;
        let mut i: usize = 0;
        while i < n
            invariant
                n == self.entries@.len(),
                es == self@.entries,
                internal_size(es) <= usize::MAX,
                i <= n,
                cells == internal_cells_total(es, i as int),
            decreases n - i,
        {
            proof {
                lemma_internal_total_mono(es, i + 1, n as int);
            }
            let e = &self.entries[i];
            assert(e@ == es[i as int]);
            cells = cells + 2 + e.key.len() + 4;
            i = i + 1;
        }
        NODE_HEADER_SIZE + n * 2 + cells
    }

    /// The child page that `key` belongs under.
    pub fn child_for_key(&self, key: &[u8]) -> (c: u32)
        ensures
            c == spec_child_for_key(self@, key@),
    {
        let n = self.entries.len();
        let mut i: usize = 0;
        assert(self@.entries.skip(0) =~= self@.entries);
        while i < n
            invariant
                n == self.entries@.len(),
                i <= n,
                spec_child_for_key(self@, key@) == spec_child_for_key(
                    InternalNodeView {
                        entries: self@.entries.skip(i as int),
                        rightmost_child: self.rightmost_child,
                    },
                    key@,
                ),
            decreases n - i,
        {
            let e = &self.entries[i];
            assert(self@.entries.skip(i as int)[0] == e@);
            if bytes_less(key, e.key.as_slice()) {
                return e.left_child;
            }
            assert(self@.entries.skip(i as int).drop_first() =~= self@.entries.skip(i + 1));
            i = i + 1;
        }
        self.rightmost_child
    }
}

} // verus!
