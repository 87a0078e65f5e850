use chocobase::btree::node::{InternalEntry, InternalNode, LeafEntry, LeafNode};
use chocobase::storage::page::{Page, PAGE_TYPE_INTERNAL, PAGE_TYPE_LEAF};

#[test]
fn leaf_encode_decode_roundtrip() {
    let node = LeafNode {
        entries: vec![
            LeafEntry { key: vec![1, 2], payload: vec![9, 9, 9] },
            LeafEntry { key: vec![1, 2, 3], payload: vec![] },
        ],
        next_leaf: 42,
    };
    let mut page = Page::zeroed();
    node.encode(&mut page);
    let decoded = LeafNode::decode(&page);
    assert_eq!(decoded.entries, node.entries);
    assert_eq!(decoded.next_leaf, 42);
    assert_eq!(page.page_type(), PAGE_TYPE_LEAF);
}

#[test]
fn internal_encode_decode_roundtrip() {
    let node = InternalNode {
        entries: vec![
            InternalEntry { key: vec![5], left_child: 1 },
            InternalEntry { key: vec![10], left_child: 2 },
        ],
        rightmost_child: 3,
    };
    let mut page = Page::zeroed();
    node.encode(&mut page);
    let decoded = InternalNode::decode(&page);
    assert_eq!(decoded.entries, node.entries);
    assert_eq!(decoded.rightmost_child, 3);
    assert_eq!(page.page_type(), PAGE_TYPE_INTERNAL);
}

#[test]
fn child_for_key_routes_correctly() {
    let node = InternalNode {
        entries: vec![
            InternalEntry { key: vec![5], left_child: 100 },
            InternalEntry { key: vec![10], left_child: 200 },
        ],
        rightmost_child: 300,
    };
    assert_eq!(node.child_for_key(&[1]), 100);
    assert_eq!(node.child_for_key(&[5]), 200);
    assert_eq!(node.child_for_key(&[7]), 200);
    assert_eq!(node.child_for_key(&[10]), 300);
    assert_eq!(node.child_for_key(&[99]), 300);
}

#[test]
fn leaf_layout_places_cells_from_the_page_end() {
    let node = LeafNode {
        entries: vec![LeafEntry { key: vec![7], payload: vec![8, 9] }],
        next_leaf: 0x01020304,
    };
    let mut page = Page::zeroed();
    node.encode(&mut page);
    // header: type, count, slot-array end, cell-area start, next leaf
    assert_eq!(page.read_u16(2), 1);
    assert_eq!(page.read_u16(4), 14);
    assert_eq!(page.read_u16(6), 4096 - 7);
    assert_eq!(page.read_u32(8), 0x01020304);
    assert_eq!(page.read_u16(12), 4096 - 7);
    assert_eq!(page.read_bytes(4089, 7), vec![1, 0, 7, 2, 0, 8, 9]);
    assert_eq!(node.encoded_size(), 12 + 2 + 7);
}

#[test]
fn internal_encoded_size_counts_header_slots_and_cells() {
    let node = InternalNode {
        entries: vec![InternalEntry { key: vec![1, 2, 3], left_child: 9 }],
        rightmost_child: 4,
    };
    assert_eq!(node.encoded_size(), 12 + 2 + 2 + 3 + 4);
}

#[test]
fn empty_leaf_roundtrips() {
    let node = LeafNode { entries: vec![], next_leaf: 0 };
    let mut page = Page::zeroed();
    node.encode(&mut page);
    let decoded = LeafNode::decode(&page);
    assert!(decoded.entries.is_empty());
    assert_eq!(decoded.next_leaf, 0);
}
