use simpledb::btree::{
    LeafNode, NodeType, COMMON_NODE_HEADER_SIZE, IS_ROOT_OFFSET, IS_ROOT_SIZE, LEAF_NODE_CELL_SIZE,
    LEAF_NODE_HEADER_SIZE, LEAF_NODE_KEY_OFFSET, LEAF_NODE_KEY_SIZE, LEAF_NODE_MAX_CELLS,
    LEAF_NODE_NUM_CELLS_OFFSET, LEAF_NODE_NUM_CELLS_SIZE, LEAF_NODE_SPACE_FOR_CELLS,
    LEAF_NODE_VALUE_OFFSET, LEAF_NODE_VALUE_SIZE, NODE_TYPE_OFFSET, NODE_TYPE_SIZE,
    PARENT_POINTER_OFFSET, PARENT_POINTER_SIZE,
};
use simpledb::row::Row;

#[test]
fn leaf_node_layout_constants() {
    assert_eq!(NODE_TYPE_SIZE, 1);
    assert_eq!(NODE_TYPE_OFFSET, 0);
    assert_eq!(IS_ROOT_SIZE, 1);
    assert_eq!(IS_ROOT_OFFSET, 1);
    assert_eq!(PARENT_POINTER_SIZE, 4);
    assert_eq!(PARENT_POINTER_OFFSET, 2);
    assert_eq!(COMMON_NODE_HEADER_SIZE, 6);
    assert_eq!(LEAF_NODE_NUM_CELLS_SIZE, 4);
    assert_eq!(LEAF_NODE_NUM_CELLS_OFFSET, 6);
    assert_eq!(LEAF_NODE_HEADER_SIZE, 10);
    assert_eq!(LEAF_NODE_KEY_SIZE, 4);
    assert_eq!(LEAF_NODE_KEY_OFFSET, 0);
    assert_eq!(LEAF_NODE_VALUE_SIZE, 291);
    assert_eq!(LEAF_NODE_VALUE_OFFSET, 4);
    assert_eq!(LEAF_NODE_CELL_SIZE, 295);
    assert_eq!(LEAF_NODE_SPACE_FOR_CELLS, 4086);
    assert_eq!(LEAF_NODE_MAX_CELLS, 13);
}

#[test]
fn node_types_differ() {
    assert!(matches!(NodeType::Leaf, NodeType::Leaf));
    assert!(!matches!(NodeType::Internal, NodeType::Leaf));
}

#[test]
fn a_new_node_has_no_cells() {
    let mut node = LeafNode::new();
    assert_eq!(node.get_num_cells(), 0);
    for cell_num in 0..13u32 {
        assert_eq!(node.leaf_node_cell(cell_num), &[0u8; 295][..]);
    }
}

#[test]
fn the_cell_count_reads_back() {
    let mut node = LeafNode::new();
    for count in [1u32, 13, 0x01020304, u32::MAX, 0] {
        node.set_num_cells(count);
        assert_eq!(node.get_num_cells(), count);
    }
}

#[test]
fn the_cell_count_does_not_touch_the_cells() {
    let mut node = LeafNode::new();
    node.leaf_node_cell(0).fill(0xab);
    node.set_num_cells(u32::MAX);
    assert!(node.leaf_node_cell(0).iter().all(|b| *b == 0xab));
    assert_eq!(node.get_num_cells(), u32::MAX);
}

#[test]
fn cells_have_their_size_and_do_not_overlap() {
    let mut node = LeafNode::new();
    node.set_num_cells(13);
    for cell_num in 0..13u32 {
        let cell = node.leaf_node_cell(cell_num);
        assert_eq!(cell.len(), 295);
        cell.fill(cell_num as u8 + 1);
    }
    for cell_num in 0..13u32 {
        assert!(node.leaf_node_cell(cell_num).iter().all(|b| *b == cell_num as u8 + 1));
    }
    assert_eq!(node.get_num_cells(), 13);
}

#[test]
fn key_and_value_are_the_two_parts_of_a_cell() {
    let mut node = LeafNode::new();
    assert_eq!(node.leaf_node_key(3).len(), 4);
    assert_eq!(node.leaf_node_value(3).len(), 291);
    node.leaf_node_key(3).copy_from_slice(&[1, 2, 3, 4]);
    node.leaf_node_value(3).fill(9);
    let cell = node.leaf_node_cell(3);
    assert_eq!(&cell[..4], &[1, 2, 3, 4]);
    assert!(cell[4..].iter().all(|b| *b == 9));
    assert!(node.leaf_node_cell(2).iter().all(|b| *b == 0));
    assert!(node.leaf_node_cell(4).iter().all(|b| *b == 0));
}

#[test]
fn a_cell_holds_a_key_and_a_row() {
    let mut node = LeafNode::new();
    let row = Row::new(77, "carol", "carol@example.com");
    node.leaf_node_key(12).copy_from_slice(&77u32.to_ne_bytes());
    row.serialize(node.leaf_node_value(12));
    node.set_num_cells(1);
    assert_eq!(node.leaf_node_key(12), &77u32.to_ne_bytes()[..]);
    let back = Row::deserialize(node.leaf_node_value(12));
    assert_eq!(back.id, 77);
    assert_eq!(back.get_username().unwrap(), "carol");
    assert_eq!(back.get_email().unwrap(), "carol@example.com");
    assert_eq!(node.get_num_cells(), 1);
}
