use chocobase::btree::cursor::Cursor;
use chocobase::btree::node::{InternalEntry, InternalNode, LeafEntry, LeafNode};
use chocobase::btree::tree::BTree;
use chocobase::error::{BTreeError, StorageError};
use chocobase::storage::page::Page;
use chocobase::storage::pager::Pager;

fn write_leaf(pager: &mut Pager, n: u32, node: &LeafNode) {
    let mut page = Page::zeroed();
    node.encode(&mut page);
    pager.put_page(n, page).unwrap();
}

fn write_internal(pager: &mut Pager, n: u32, node: &InternalNode) {
    let mut page = Page::zeroed();
    node.encode(&mut page);
    pager.put_page(n, page).unwrap();
}

fn two_level_tree() -> (Pager, u32) {
    let mut pager = Pager::new();
    let left = pager.allocate_page().unwrap();
    let right = pager.allocate_page().unwrap();
    let root = pager.allocate_page().unwrap();

    let left_node = LeafNode {
        entries: vec![LeafEntry { key: vec![1], payload: vec![b'a'] }],
        next_leaf: right,
    };
    write_leaf(&mut pager, left, &left_node);

    let right_node = LeafNode {
        entries: vec![LeafEntry { key: vec![5], payload: vec![b'b'] }],
        next_leaf: 0,
    };
    write_leaf(&mut pager, right, &right_node);

    let root_node = InternalNode {
        entries: vec![InternalEntry { key: vec![5], left_child: left }],
        rightmost_child: right,
    };
    write_internal(&mut pager, root, &root_node);
    (pager, root)
}

fn empty_tree() -> (Pager, u32) {
    let mut pager = Pager::new();
    let root = pager.allocate_page().unwrap();
    write_leaf(&mut pager, root, &LeafNode { entries: vec![], next_leaf: 0 });
    (pager, root)
}

#[test]
fn search_finds_existing_key_across_levels() {
    let (pager, root) = two_level_tree();
    let bt = BTree::new(root);
    assert_eq!(bt.search(&pager, &[1]).unwrap(), Some(vec![b'a']));
    assert_eq!(bt.search(&pager, &[5]).unwrap(), Some(vec![b'b']));
}

#[test]
fn search_returns_none_for_missing_key() {
    let (pager, root) = two_level_tree();
    let bt = BTree::new(root);
    assert_eq!(bt.search(&pager, &[3]).unwrap(), None);
}

#[test]
fn insert_then_search_finds_key() {
    let (mut pager, root) = empty_tree();
    let mut bt = BTree::new(root);
    bt.insert(&mut pager, &[1], b"one").unwrap();
    bt.insert(&mut pager, &[2], b"two").unwrap();
    assert_eq!(bt.search(&pager, &[1]).unwrap(), Some(b"one".to_vec()));
    assert_eq!(bt.search(&pager, &[2]).unwrap(), Some(b"two".to_vec()));
}

#[test]
fn insert_duplicate_key_errors() {
    let (mut pager, root) = empty_tree();
    let mut bt = BTree::new(root);
    bt.insert(&mut pager, &[1], b"one").unwrap();
    let err = bt.insert(&mut pager, &[1], b"again").unwrap_err();
    assert!(matches!(err, BTreeError::DuplicateKey));
}

#[test]
fn insert_row_too_large_errors() {
    let (mut pager, root) = empty_tree();
    let mut bt = BTree::new(root);
    let huge_payload = vec![0u8; 5000];
    let err = bt.insert(&mut pager, &[1], &huge_payload).unwrap_err();
    assert!(matches!(err, BTreeError::RowTooLarge(_, _)));
}

#[test]
fn inserting_enough_keys_splits_root_and_changes_it() {
    let (mut pager, root) = empty_tree();
    let mut bt = BTree::new(root);
    for i in 0..400i64 {
        bt.insert(&mut pager, &(i as u64).to_be_bytes(), format!("row-{i}").as_bytes()).unwrap();
    }
    assert_ne!(bt.root(), root, "enough inserts must force at least one split");
    for i in 0..400i64 {
        assert_eq!(
            bt.search(&pager, &(i as u64).to_be_bytes()).unwrap(),
            Some(format!("row-{i}").into_bytes())
        );
    }
}

fn build(keys: &[u32]) -> (Pager, u32) {
    let (mut pager, initial_root) = empty_tree();
    let mut bt = BTree::new(initial_root);
    for &k in keys {
        bt.insert(&mut pager, &k.to_be_bytes(), format!("v{k}").as_bytes()).unwrap();
    }
    let final_root = bt.root();
    (pager, final_root)
}

#[test]
fn full_scan_returns_all_keys_in_order() {
    let (pager, root) = build(&[5, 1, 3, 2, 4]);
    let mut cursor = BTree::new(root).cursor_start(&pager).unwrap();
    let mut seen = Vec::new();
    while let Some((k, _)) = cursor.next(&pager).unwrap() {
        seen.push(u32::from_be_bytes(k.try_into().unwrap()));
    }
    assert_eq!(seen, vec![1, 2, 3, 4, 5]);
}

#[test]
fn seek_positions_at_first_key_greater_or_equal() {
    let (pager, root) = build(&[10, 20, 30, 40]);
    let mut cursor = BTree::new(root).cursor_seek(&pager, &25u32.to_be_bytes()).unwrap();
    let (k, _) = cursor.next(&pager).unwrap().unwrap();
    assert_eq!(u32::from_be_bytes(k.try_into().unwrap()), 30);
}

#[test]
fn row_too_large_reports_size_and_page_size() {
    let (mut pager, root) = empty_tree();
    let mut bt = BTree::new(root);
    let err = bt.insert(&mut pager, &[1, 2, 3], &vec![7u8; 4090]).unwrap_err();
    // header 12, slot 2, lengths 4, key 3, payload 4090
    assert!(matches!(err, BTreeError::RowTooLarge(4111, 4096)));
}

#[test]
fn split_keeps_every_key_and_scans_in_order_across_leaves() {
    let (pager, root) = build(&(0..300u32).rev().collect::<Vec<u32>>());
    let bt = BTree::new(root);
    for k in 0..300u32 {
        assert_eq!(bt.search(&pager, &k.to_be_bytes()).unwrap(), Some(format!("v{k}").into_bytes()));
    }
    let mut cursor = bt.cursor_start(&pager).unwrap();
    let mut seen = Vec::new();
    while let Some((k, _)) = cursor.next(&pager).unwrap() {
        seen.push(u32::from_be_bytes(k.try_into().unwrap()));
    }
    assert_eq!(seen, (0..300u32).collect::<Vec<u32>>());
}

#[test]
fn search_through_missing_page_reports_it() {
    let mut pager = Pager::new();
    let root = pager.allocate_page().unwrap();
    write_internal(
        &mut pager,
        root,
        &InternalNode { entries: vec![InternalEntry { key: vec![5], left_child: 77 }], rightmost_child: 78 },
    );
    let bt = BTree::new(root);
    assert!(matches!(bt.search(&pager, &[1]), Err(BTreeError::Storage(StorageError::PageOutOfBounds(77)))));
    assert!(matches!(bt.search(&pager, &[9]), Err(BTreeError::Storage(StorageError::PageOutOfBounds(78)))));
}

#[test]
fn search_on_foreign_page_reports_its_type() {
    let mut pager = Pager::new();
    let root = pager.allocate_page().unwrap();
    let bt = BTree::new(root);
    match bt.search(&pager, &[1]) {
        Err(BTreeError::Storage(StorageError::CorruptPage(n, msg))) => {
            assert_eq!(n, root);
            assert_eq!(msg, "unexpected page type 0");
        }
        other => panic!("unexpected {other:?}"),
    }
}

#[test]
fn empty_cursor_yields_nothing() {
    let pager = Pager::new();
    let mut c = Cursor::empty();
    assert!(c.next(&pager).unwrap().is_none());
}

#[test]
fn insert_that_fits_does_not_change_root() {
    let (mut pager, root) = empty_tree();
    let mut bt = BTree::new(root);
    bt.insert(&mut pager, &[9], b"nine").unwrap();
    bt.insert(&mut pager, &[3], b"three").unwrap();
    assert_eq!(bt.root(), root);
    assert_eq!(bt.search(&pager, &[9]).unwrap(), Some(b"nine".to_vec()));
    assert_eq!(bt.search(&pager, &[4]).unwrap(), None);
}
