//! The table: rows by number, stored in pages.
//!
//! Row `r` lives in page `r / ROWS_PER_PAGE`, at byte
//! `(r % ROWS_PER_PAGE) * ROW_SIZE` of it. Rows do not straddle pages; the
//! bytes of a page behind its last row are not used.

use crate::cursor::Cursor;
use crate::pager::{file_page, Pager, PagerView, PAGE_SIZE, TABLE_MAX_PAGES};
use crate::row::{lemma_decode_encode, lemma_decode_prefix, RowView, ROW_SIZE};
use vstd::prelude::*;

verus! {

/// Rows in one page.
pub const ROWS_PER_PAGE: usize = PAGE_SIZE / ROW_SIZE;

/// Rows in as many pages as a pager has slots.
pub const TABLE_MAX_ROWS: usize = ROWS_PER_PAGE * TABLE_MAX_PAGES;

/// The page that holds row `row_num`.
pub open spec fn row_page(row_num: int) -> int {
    row_num / (ROWS_PER_PAGE as int)
}

/// The byte of its page at which row `row_num` starts.
pub open spec fn row_offset(row_num: int) -> int {
    (row_num % (ROWS_PER_PAGE as int)) * ROW_SIZE
}

/// How many pages the first `num_rows` rows take, a partly filled last page
/// counted.
pub open spec fn pages_for(num_rows: int) -> int {
    if num_rows % (ROWS_PER_PAGE as int) == 0 {
        num_rows / (ROWS_PER_PAGE as int)
    } else {
        num_rows / (ROWS_PER_PAGE as int) + 1
    }
}

/// A page holds 14 rows: the first 14 rows lie in page 0, and the row behind
/// them starts page 1 at its first byte. Every row starts at a byte of its
/// page from which a whole row fits into the page, and the rows of as many
/// pages as a pager has slots are the rows below [`TABLE_MAX_ROWS`]. The
/// rows up to and with row `row_num` take the pages up to and with its own.
pub proof fn lemma_row_placement(row_num: int)
    requires
        0 <= row_num,
    ensures
        ROWS_PER_PAGE == 14,
        TABLE_MAX_ROWS == 3584,
        0 <= row_offset(row_num) <= PAGE_SIZE - ROW_SIZE,
        row_offset(row_num) == (row_num - row_page(row_num) * 14) * 291,
        row_num < TABLE_MAX_ROWS <==> row_page(row_num) < TABLE_MAX_PAGES,
        row_num < ROWS_PER_PAGE ==> row_page(row_num) == 0,
        row_num == ROWS_PER_PAGE ==> row_page(row_num) == 1 && row_offset(row_num) == 0,
        row_page(row_num) <= pages_for(row_num) <= row_page(row_num) + 1,
        pages_for(row_num + 1) == row_page(row_num) + 1,
{
    assert(ROW_SIZE == 291);
    assert(4096usize / 291usize == 14);
}

/// The state of a table: how many rows it has, and its pager.
#[verifier::ext_equal]
pub struct TableView {
    pub num_rows: nat,
    pub pager: PagerView,
}

impl TableView {
    /// The state of a table that was just opened on `file`.
    pub open spec fn opened(file: Seq<u8>) -> TableView {
        TableView { num_rows: file.len() / (ROW_SIZE as nat), pager: PagerView::opened(file) }
    }

    /// The pager is well-formed. The number of rows is not bounded: rows
    /// that no page can hold cannot be reached.
    pub open spec fn wf(self) -> bool {
        self.pager.wf()
    }

    /// The bytes of its page from the start of row `row_num` to the page's
    /// end.
    pub open spec fn slot(self, row_num: int) -> Seq<u8> {
        self.pager.page(row_page(row_num)).subrange(row_offset(row_num), PAGE_SIZE as int)
    }

    /// The row stored at `row_num`.
    pub open spec fn row(self, row_num: int) -> RowView {
        RowView::decode(self.slot(row_num))
    }

    /// The table with `bytes` in place of the slot of row `row_num`.
    pub open spec fn with_slot(self, row_num: int, bytes: Seq<u8>) -> TableView {
        TableView {
            num_rows: self.num_rows,
            pager: self.pager.with_slot(
                row_page(row_num),
                self.pager.page(row_page(row_num)).subrange(0, row_offset(row_num)) + bytes,
            ),
        }
    }

    /// The table with `row` stored at `row_num`.
    pub open spec fn with_row(self, row_num: int, row: RowView) -> TableView {
        self.with_slot(
            row_num,
            row.encode() + self.slot(row_num).subrange(
                ROW_SIZE as int,
                self.slot(row_num).len() as int,
            ),
        )
    }

    /// The table with `row` added behind its last row.
    pub open spec fn inserted(self, row: RowView) -> TableView {
        TableView {
            num_rows: self.num_rows + 1,
            pager: self.with_row(self.num_rows as int, row).pager,
        }
    }

    /// The table after each of its rows was read: the pages that hold its
    /// rows are cached.
    pub open spec fn loaded(self) -> TableView {
        TableView {
            num_rows: self.num_rows,
            pager: self.pager.loaded_below(pages_for(self.num_rows as int)),
        }
    }

    /// The table after the pages that hold its rows were written back.
    pub open spec fn flushed(self) -> TableView {
        TableView {
            num_rows: self.num_rows,
            pager: self.pager.flushed_below(pages_for(self.num_rows as int)),
        }
    }
}

/// Storing a row at a place changes the row at that place and no other.
pub proof fn lemma_with_row(table: TableView, row_num: int, row: RowView)
    requires
        table.wf(),
        row.wf(),
        0 <= row_num < TABLE_MAX_ROWS,
    ensures
        table.with_row(row_num, row).wf(),
        table.with_row(row_num, row).num_rows == table.num_rows,
        table.with_row(row_num, row).pager.file == table.pager.file,
        table.with_row(row_num, row).row(row_num) == row,
        forall|other: int|
            0 <= other && other != row_num ==> #[trigger] table.with_row(row_num, row).row(other)
                == table.row(other),
{
    lemma_row_placement(row_num);
    lemma_decode_encode(row, Seq::empty());
    let page_num: int = row_page(row_num);
    let offset: int = row_offset(row_num);
    let page = table.pager.page(page_num);
    let slot = table.slot(row_num);
    let stored = table.with_row(row_num, row);
    let new_page = page.subrange(0, offset) + (row.encode() + slot.subrange(
        ROW_SIZE as int,
        slot.len() as int,
    ));
    assert(stored.pager.page(page_num) == new_page);
    assert(stored.slot(row_num).subrange(0, ROW_SIZE as int) =~= row.encode());
    lemma_decode_prefix(stored.slot(row_num), row.encode());
    assert forall|other: int| 0 <= other && other != row_num implies #[trigger] stored.row(other)
        == table.row(other) by {
        lemma_row_placement(other);
        if row_page(other) == page_num {
            let other_offset: int = row_offset(other);
            assert(other_offset + ROW_SIZE <= offset || offset + ROW_SIZE <= other_offset);
            assert(stored.slot(other).subrange(0, ROW_SIZE as int) =~= table.slot(other).subrange(
                0,
                ROW_SIZE as int,
            ));
            lemma_decode_prefix(
                stored.slot(other),
                table.slot(other).subrange(0, ROW_SIZE as int),
            );
            lemma_decode_prefix(
                table.slot(other),
                table.slot(other).subrange(0, ROW_SIZE as int),
            );
        } else {
            assert(stored.pager.page(row_page(other)) == table.pager.page(row_page(other)));
        }
    }
}

/// Writing the table's pages back changes no row of the table, and a table
/// opened on the file afterwards has every row of the table, each as it was.
/// That table counts as many rows as the length of the file gives. The file
/// is no shorter than before, reaches the end of every page that was
/// written, and has not grown beyond the last page that holds rows.
pub proof fn lemma_reopen_after_flush(table: TableView)
    requires
        table.wf(),
    ensures
        table.flushed().wf(),
        forall|row_num: int|
            0 <= row_num ==> #[trigger] table.flushed().slot(row_num) == table.slot(row_num),
        TableView::opened(table.flushed().pager.file).wf(),
        forall|row_num: int|
            0 <= row_num < table.num_rows ==> #[trigger] TableView::opened(
                table.flushed().pager.file,
            ).slot(row_num) == table.slot(row_num),
        forall|row_num: int|
            0 <= row_num < table.num_rows ==> #[trigger] TableView::opened(
                table.flushed().pager.file,
            ).row(row_num) == table.row(row_num),
        TableView::opened(table.flushed().pager.file).num_rows
            == table.flushed().pager.file.len() / (ROW_SIZE as nat),
        table.pager.file.len() <= table.flushed().pager.file.len(),
        table.flushed().pager.file.len() <= table.pager.file.len()
            || table.flushed().pager.file.len() <= pages_for(table.num_rows as int) * PAGE_SIZE,
        forall|p: int|
            0 <= p < pages_for(table.num_rows as int) && #[trigger] table.pager.is_cached(p) ==> (p
                + 1) * PAGE_SIZE <= table.flushed().pager.file.len(),
{
    let count: int = pages_for(table.num_rows as int);
    table.pager.lemma_flushed_below(count);
    let file = table.flushed().pager.file;
    let reopened = TableView::opened(file);
    assert forall|row_num: int| 0 <= row_num implies #[trigger] table.flushed().slot(row_num)
        == table.slot(row_num) by {
        lemma_row_placement(row_num);
        let page_num: int = row_page(row_num);
        assert(file_page(file, page_num) == if page_num < count && table.pager.is_cached(
            page_num,
        ) {
            table.pager.slots[page_num]
        } else {
            file_page(table.pager.file, page_num)
        });
    }
    assert forall|row_num: int| 0 <= row_num < table.num_rows implies #[trigger] reopened.slot(
        row_num,
    ) == table.slot(row_num) by {
        lemma_row_placement(row_num);
        lemma_row_placement(table.num_rows - 1);
        let page_num: int = row_page(row_num);
        assert(page_num <= row_page(table.num_rows - 1));
        assert(page_num < count);
        assert(reopened.pager.page(page_num) == file_page(file, page_num));
    }
}

/// Where the file ended no later than the last page that holds rows and
/// that page is cached, the file ends with that page once the pages were
/// written back. A table opened on it then counts at least the rows of the
/// table, and counts exactly those if and only if they fill their pages and
/// the pages are at most 13: each page adds 22 bytes behind its 14 rows, and
/// 14 pages add a row's worth.
pub proof fn lemma_reopen_row_count(table: TableView)
    requires
        table.wf(),
        0 < table.num_rows <= TABLE_MAX_ROWS,
        table.pager.is_cached(pages_for(table.num_rows as int) - 1),
        table.pager.file.len() <= pages_for(table.num_rows as int) * PAGE_SIZE,
    ensures
        table.flushed().pager.file.len() == pages_for(table.num_rows as int) * PAGE_SIZE,
        TableView::opened(table.flushed().pager.file).num_rows >= table.num_rows,
        TableView::opened(table.flushed().pager.file).num_rows == table.num_rows <==> (
        table.num_rows % (ROWS_PER_PAGE as nat) == 0 && table.num_rows <= 13 * ROWS_PER_PAGE),
{
    lemma_row_placement(table.num_rows as int);
    lemma_reopen_after_flush(table);
    let pages: int = pages_for(table.num_rows as int);
    let len: int = table.flushed().pager.file.len() as int;
    assert(len == pages * 4096);
    assert(1 <= pages <= 256);
    assert(table.num_rows <= pages * 14);
    assert(len / 291 == pages * 14 + (pages * 22) / 291);
}

/// A table of rows in a paged file.
pub struct Table {
    /// The number of rows in the table.
    pub num_rows: usize,
    pub(crate) pager: Pager,
}

impl View for Table {
    type V = TableView;

    open(crate) spec fn view(&self) -> TableView {
        TableView { num_rows: self.num_rows as nat, pager: self.pager_view() }
    }
}

impl Table {
    /// The state of the table's pager.
    pub open(crate) spec fn pager_view(&self) -> PagerView {
        self.pager@
    }

    /// The table stored in the file whose bytes are `file`. It has as many
    /// rows as fit the file's length; bytes behind the last whole row are
    /// not counted.
    pub fn new(file: Vec<u8>) -> (table: Table)
        ensures
            table@ == TableView::opened(file@),
            table@.wf(),
    {
        let pager = Pager::open(file);
        let num_rows: usize = pager.file_length() / ROW_SIZE;
        Table { num_rows, pager }
    }

    /// The bytes of the table's file, as of the last write-back.
    pub fn file(&self) -> (file: &Vec<u8>)
        ensures
            file@ == self@.pager.file,
    {
        self.pager.file()
    }

    /// Writes the table's pages back and gives up the table for the bytes of
    /// its file.
    pub fn close(self) -> (file: Vec<u8>)
        requires
            self@.wf(),
        ensures
            file@ == self@.flushed().pager.file,
    {
        let mut table = self;
        table.flush();
        table.pager.into_file()
    }

    /// The slot of the row at which `cursor` stands: the bytes of the row's
    /// page from the row's first byte to the end of the page. The page is
    /// brought into the cache if it was not there. What the caller leaves in
    /// the slot is what the page holds afterwards.
    ///
    /// The row need not be one of the table's rows: behind the last row the
    /// slot holds whatever the page has there, zeros in a fresh page.
    pub fn cursor_value(&mut self, cursor: &Cursor) -> (slot: &mut [u8])
        requires
            old(self)@.wf(),
            cursor.row_num < TABLE_MAX_ROWS,
        ensures
            slot@ == old(self)@.slot(cursor.row_num as int),
            slot@.len() >= ROW_SIZE,
            final(self)@ == old(self)@.with_slot(cursor.row_num as int, final(slot)@),
    {
        proof {
            lemma_row_placement(cursor.row_num as int);
        }
        let row_num: usize = cursor.row_num;
        let page_num: usize = row_num / ROWS_PER_PAGE;
        let page = self.pager.get_page(page_num);
        let row_offset: usize = row_num % ROWS_PER_PAGE;
        let byte_offset: usize = row_offset * ROW_SIZE;
        let (_, slot) = page.split_at_mut(byte_offset);
        slot
    }

    /// Writes back every cached page that holds rows of the table: the
    /// pages below `pages_for(num_rows)`. Pages behind the last row are not
    /// written.
    pub fn flush(&mut self)
        requires
            old(self)@.wf(),
        ensures
            final(self)@ == old(self)@.flushed(),
            final(self)@.wf(),
    {
        proof {
            lemma_row_placement(self.num_rows as int);
        }
        let mut num_pages: usize = self.num_rows / ROWS_PER_PAGE;
        if self.num_rows % ROWS_PER_PAGE != 0 {
            num_pages += 1;
        }
        if num_pages > TABLE_MAX_PAGES {
            proof {
                self@.pager.lemma_flushed_below(num_pages as int);
            }
            num_pages = TABLE_MAX_PAGES;
        }
        let mut page_idx: usize = 0;
        while page_idx < num_pages
            invariant
                page_idx <= num_pages,
                self.num_rows == old(self).num_rows,
                self@.pager == old(self)@.pager.flushed_below(page_idx as int),
                self@.pager.wf(),
            decreases num_pages - page_idx,
        {
            self.pager.flush(page_idx);
            page_idx += 1;
        }
    }
}

} // verus!
