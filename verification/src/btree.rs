//! The layout of a leaf node: a page that holds a header and, behind it,
//! cells of a key and a row each.
//!
//! The header is a node type (1 byte), a root flag (1 byte), the page number
//! of the parent (4 bytes) and the number of cells (4 bytes). Cell `n` starts
//! at byte `LEAF_NODE_HEADER_SIZE + n * LEAF_NODE_CELL_SIZE`; its first
//! [`LEAF_NODE_KEY_SIZE`] bytes are the key, the rest is the row. Nothing
//! here orders, searches or splits: the module fixes where the bytes lie.

use crate::bytes::{
    lemma_native_bytes,
    native_bytes,
    native_word,
    read_word,
    write_word,
    zeroed,
};
use crate::pager::PAGE_SIZE;
use crate::row::ROW_SIZE;
use vstd::prelude::*;

verus! {

/// Bytes in the node type.
pub const NODE_TYPE_SIZE: usize = 1;

/// Where the node type lies in the header.
pub const NODE_TYPE_OFFSET: usize = 0;

/// Bytes in the root flag.
pub const IS_ROOT_SIZE: usize = 1;

/// Where the root flag lies in the header.
pub const IS_ROOT_OFFSET: usize = NODE_TYPE_OFFSET + NODE_TYPE_SIZE;

/// Bytes in the page number of the parent.
pub const PARENT_POINTER_SIZE: usize = 4;

/// Where the page number of the parent lies in the header.
pub const PARENT_POINTER_OFFSET: usize = IS_ROOT_OFFSET + IS_ROOT_SIZE;

/// Bytes in the part of the header that every node has.
pub const COMMON_NODE_HEADER_SIZE: usize = NODE_TYPE_SIZE + IS_ROOT_SIZE + PARENT_POINTER_SIZE;

/// Bytes in the cell count.
pub const LEAF_NODE_NUM_CELLS_SIZE: usize = 4;

/// Where the cell count lies in the header.
pub const LEAF_NODE_NUM_CELLS_OFFSET: usize = COMMON_NODE_HEADER_SIZE;

/// Bytes in the header of a leaf node.
pub const LEAF_NODE_HEADER_SIZE: usize = COMMON_NODE_HEADER_SIZE + LEAF_NODE_NUM_CELLS_SIZE;

/// Bytes in the key of a cell.
pub const LEAF_NODE_KEY_SIZE: usize = 4;

/// Where the key lies in its cell.
pub const LEAF_NODE_KEY_OFFSET: usize = 0;

/// Bytes in the row of a cell.
pub const LEAF_NODE_VALUE_SIZE: usize = ROW_SIZE;

/// Where the row lies in its cell.
pub const LEAF_NODE_VALUE_OFFSET: usize = LEAF_NODE_KEY_OFFSET + LEAF_NODE_KEY_SIZE;

/// Bytes in a cell.
pub const LEAF_NODE_CELL_SIZE: usize = LEAF_NODE_KEY_SIZE + LEAF_NODE_VALUE_SIZE;

/// Bytes of a page behind the header.
pub const LEAF_NODE_SPACE_FOR_CELLS: usize = PAGE_SIZE - LEAF_NODE_HEADER_SIZE;

/// Cells that fit a page.
pub const LEAF_NODE_MAX_CELLS: usize = LEAF_NODE_SPACE_FOR_CELLS / LEAF_NODE_CELL_SIZE;

/// The byte of the page at which cell `cell_num` starts.
pub open spec fn cell_offset(cell_num: int) -> int {
    LEAF_NODE_HEADER_SIZE + cell_num * LEAF_NODE_CELL_SIZE
}

/// The number of cells that the header of `page` gives.
pub open spec fn cell_count(page: Seq<u8>) -> u32 {
    native_word(
        page.subrange(
            LEAF_NODE_NUM_CELLS_OFFSET as int,
            LEAF_NODE_NUM_CELLS_OFFSET + LEAF_NODE_NUM_CELLS_SIZE,
        ),
    )
}

/// The bytes of cell `cell_num` of `page`.
pub open spec fn cell_bytes(page: Seq<u8>, cell_num: int) -> Seq<u8> {
    page.subrange(cell_offset(cell_num), cell_offset(cell_num) + LEAF_NODE_CELL_SIZE)
}

/// `page` with `bytes` in place of its bytes from `start` up to `end`.
pub open spec fn spliced(page: Seq<u8>, start: int, end: int, bytes: Seq<u8>) -> Seq<u8> {
    page.subrange(0, start) + bytes + page.subrange(end, page.len() as int)
}

/// The header is 10 bytes and a cell 295, so a page has room for 13 cells:
/// each cell below [`LEAF_NODE_MAX_CELLS`] lies behind the header and ends
/// inside the page, and no two of them overlap.
pub proof fn lemma_cell_layout(cell_num: int)
    requires
        0 <= cell_num,
    ensures
        LEAF_NODE_HEADER_SIZE == 10,
        LEAF_NODE_CELL_SIZE == 295,
        LEAF_NODE_MAX_CELLS == 13,
        LEAF_NODE_HEADER_SIZE <= cell_offset(cell_num),
        cell_offset(cell_num) + LEAF_NODE_CELL_SIZE == cell_offset(cell_num + 1),
        cell_num < LEAF_NODE_MAX_CELLS <==> cell_offset(cell_num + 1) <= PAGE_SIZE,
{
    assert(LEAF_NODE_CELL_SIZE == 295);
    assert(4086usize / 295usize == 13);
}

/// The header and the cells lie apart. A cell that is written as a whole
/// holds what was written, and the cell count and every other cell stay as
/// they were; a cell count that is written leaves every cell as it was.
pub proof fn lemma_cells_apart(page: Seq<u8>, cell_num: int, bytes: Seq<u8>, count: u32)
    requires
        page.len() == PAGE_SIZE,
        0 <= cell_num < LEAF_NODE_MAX_CELLS,
        bytes.len() == LEAF_NODE_CELL_SIZE,
    ensures
        cell_bytes(
            spliced(page, cell_offset(cell_num), cell_offset(cell_num + 1), bytes),
            cell_num,
        ) == bytes,
        cell_count(spliced(page, cell_offset(cell_num), cell_offset(cell_num + 1), bytes))
            == cell_count(page),
        forall|other: int|
            0 <= other < LEAF_NODE_MAX_CELLS && other != cell_num ==> #[trigger] cell_bytes(
                spliced(page, cell_offset(cell_num), cell_offset(cell_num + 1), bytes),
                other,
            ) == cell_bytes(page, other),
        forall|other: int|
            0 <= other < LEAF_NODE_MAX_CELLS ==> #[trigger] cell_bytes(
                spliced(
                    page,
                    LEAF_NODE_NUM_CELLS_OFFSET as int,
                    LEAF_NODE_HEADER_SIZE as int,
                    native_bytes(count),
                ),
                other,
            ) == cell_bytes(page, other),
{
    lemma_cell_layout(cell_num);
    lemma_native_bytes(count);
    let written = spliced(page, cell_offset(cell_num), cell_offset(cell_num + 1), bytes);
    assert(cell_bytes(written, cell_num) =~= bytes);
    assert(written.subrange(
        LEAF_NODE_NUM_CELLS_OFFSET as int,
        LEAF_NODE_NUM_CELLS_OFFSET + LEAF_NODE_NUM_CELLS_SIZE,
    ) =~= page.subrange(
        LEAF_NODE_NUM_CELLS_OFFSET as int,
        LEAF_NODE_NUM_CELLS_OFFSET + LEAF_NODE_NUM_CELLS_SIZE,
    ));
    assert forall|other: int|
        0 <= other < LEAF_NODE_MAX_CELLS && other != cell_num implies #[trigger] cell_bytes(
        written,
        other,
    ) == cell_bytes(page, other) by {
        lemma_cell_layout(other);
        assert(cell_bytes(written, other) =~= cell_bytes(page, other));
    }
    let counted = spliced(
        page,
        LEAF_NODE_NUM_CELLS_OFFSET as int,
        LEAF_NODE_HEADER_SIZE as int,
        native_bytes(count),
    );
    assert forall|other: int| 0 <= other < LEAF_NODE_MAX_CELLS implies #[trigger] cell_bytes(
        counted,
        other,
    ) == cell_bytes(page, other) by {
        lemma_cell_layout(other);
        assert(cell_bytes(counted, other) =~= cell_bytes(page, other));
    }
}

/// The two kinds of node that the node type of a header tells apart.
pub enum NodeType {
    Internal,
    Leaf,
}

/// A page laid out as a leaf node.
pub struct LeafNode {
    data: Vec<u8>,
}

impl View for LeafNode {
    type V = Seq<u8>;

    closed spec fn view(&self) -> Seq<u8> {
        self.data@
    }
}

impl LeafNode {
    /// The node is one page long.
    pub open spec fn wf(&self) -> bool {
        self@.len() == PAGE_SIZE
    }

    /// A node of zeros: no cells.
    pub fn new() -> (node: LeafNode)
        ensures
            node@ == Seq::new(PAGE_SIZE as nat, |i: int| 0u8),
            node.wf(),
    {
        LeafNode { data: zeroed(PAGE_SIZE) }
    }

    /// The number of cells that the header gives.
    pub fn get_num_cells(&self) -> (count: u32)
        requires
            self.wf(),
        ensures
            count == cell_count(self@),
    {
        read_word(self.data.as_slice(), LEAF_NODE_NUM_CELLS_OFFSET)
    }

    /// Sets the number of cells in the header.
    pub fn set_num_cells(&mut self, num_cells: u32)
        requires
            old(self).wf(),
        ensures
            final(self)@ == spliced(
                old(self)@,
                LEAF_NODE_NUM_CELLS_OFFSET as int,
                LEAF_NODE_NUM_CELLS_OFFSET + LEAF_NODE_NUM_CELLS_SIZE,
                native_bytes(num_cells),
            ),
            final(self).wf(),
            cell_count(final(self)@) == num_cells,
    {
        proof {
            lemma_native_bytes(num_cells);
        }
        write_word(self.data.as_mut_slice(), LEAF_NODE_NUM_CELLS_OFFSET, num_cells);
        assert(self@.subrange(
            LEAF_NODE_NUM_CELLS_OFFSET as int,
            LEAF_NODE_NUM_CELLS_OFFSET + LEAF_NODE_NUM_CELLS_SIZE,
        ) =~= native_bytes(num_cells));
    }

    /// Cell `cell_num`: its key and its row. What the caller leaves in the
    /// cell is what the node holds there afterwards.
    pub fn leaf_node_cell(&mut self, cell_num: u32) -> (cell: &mut [u8])
        requires
            old(self).wf(),
            cell_num < LEAF_NODE_MAX_CELLS,
        ensures
            cell@ == cell_bytes(old(self)@, cell_num as int),
            final(self)@ == spliced(
                old(self)@,
                cell_offset(cell_num as int),
                cell_offset(cell_num as int) + LEAF_NODE_CELL_SIZE,
                final(cell)@,
            ),
    {
        proof {
            lemma_cell_layout(cell_num as int);
        }
        let offset: usize = LEAF_NODE_HEADER_SIZE + (cell_num as usize * LEAF_NODE_CELL_SIZE);
        let (_, behind) = self.data.as_mut_slice().split_at_mut(offset);
        let (cell, _) = behind.split_at_mut(LEAF_NODE_CELL_SIZE);
        cell
    }

    /// The key of cell `cell_num`: the first [`LEAF_NODE_KEY_SIZE`] bytes of
    /// the cell.
    pub fn leaf_node_key(&mut self, cell_num: u32) -> (key: &mut [u8])
        requires
            old(self).wf(),
            cell_num < LEAF_NODE_MAX_CELLS,
        ensures
            key@ == old(self)@.subrange(
                cell_offset(cell_num as int),
                cell_offset(cell_num as int) + LEAF_NODE_KEY_SIZE,
            ),
            final(self)@ == spliced(
                old(self)@,
                cell_offset(cell_num as int),
                cell_offset(cell_num as int) + LEAF_NODE_KEY_SIZE,
                final(key)@,
            ),
    {
        proof {
            lemma_cell_layout(cell_num as int);
        }
        let (key, _) = self.leaf_node_cell(cell_num).split_at_mut(LEAF_NODE_KEY_SIZE);
        key
    }

    /// The row of cell `cell_num`: the bytes of the cell behind its key.
    pub fn leaf_node_value(&mut self, cell_num: u32) -> (value: &mut [u8])
        requires
            old(self).wf(),
            cell_num < LEAF_NODE_MAX_CELLS,
        ensures
            value@ == old(self)@.subrange(
                cell_offset(cell_num as int) + LEAF_NODE_VALUE_OFFSET,
                cell_offset(cell_num as int) + LEAF_NODE_CELL_SIZE,
            ),
            value@.len() == LEAF_NODE_VALUE_SIZE,
            final(self)@ == spliced(
                old(self)@,
                cell_offset(cell_num as int) + LEAF_NODE_VALUE_OFFSET,
                cell_offset(cell_num as int) + LEAF_NODE_CELL_SIZE,
                final(value)@,
            ),
    {
        proof {
            lemma_cell_layout(cell_num as int);
        }
        let (_, value) = self.leaf_node_cell(cell_num).split_at_mut(LEAF_NODE_KEY_SIZE);
        value
    }
}

} // verus!
