//! The page cache.
//!
//! A pager owns the bytes of the backing file and up to [`TABLE_MAX_PAGES`]
//! cached pages of [`PAGE_SIZE`] bytes each. A page is brought into the cache
//! the first time it is asked for and stays there; [`Pager::flush`] writes a
//! cached page back over its place in the file.

use crate::bytes::{copy_into, zeroed};
use vstd::prelude::*;
use vstd::slice::slice_subrange;

verus! {

/// Bytes in one page.
pub const PAGE_SIZE: usize = 4096;

/// Number of page slots a pager has.
pub const TABLE_MAX_PAGES: usize = 256;

/// What reading page `page_num` of `file` into a zeroed buffer gives: the
/// file's bytes from `page_num * PAGE_SIZE` on, and zeros from the end of the
/// file on.
pub open spec fn file_page(file: Seq<u8>, page_num: int) -> Seq<u8> {
    Seq::new(
        PAGE_SIZE as nat,
        |k: int|
            if page_num * PAGE_SIZE + k < file.len() {
                file[page_num * PAGE_SIZE + k]
            } else {
                0u8
            },
    )
}

/// `file` after `page` has been written at the place of page `page_num`. A
/// file that ended before the end of that page is extended to it, with zeros
/// in any gap.
pub open spec fn file_with_page(file: Seq<u8>, page_num: int, page: Seq<u8>) -> Seq<u8> {
    let start: int = page_num * PAGE_SIZE;
    let end: int = start + PAGE_SIZE;
    Seq::new(
        if file.len() < end { end as nat } else { file.len() },
        |k: int|
            if start <= k < end {
                page[k - start]
            } else if k < file.len() {
                file[k]
            } else {
                0u8
            },
    )
}

/// The state of a pager: the bytes of the backing file and the cache slots.
/// An empty slot holds no bytes; a filled one holds a page.
#[verifier::ext_equal]
pub struct PagerView {
    pub file: Seq<u8>,
    pub slots: Seq<Seq<u8>>,
}

impl PagerView {
    /// The state of a pager that was just opened on `file`: no page cached.
    pub open spec fn opened(file: Seq<u8>) -> PagerView {
        PagerView { file, slots: Seq::new(TABLE_MAX_PAGES as nat, |i: int| Seq::<u8>::empty()) }
    }

    /// There are [`TABLE_MAX_PAGES`] slots, each empty or one page long.
    pub open spec fn wf(self) -> bool {
        &&& self.slots.len() == TABLE_MAX_PAGES
        &&& forall|i: int|
            0 <= i < self.slots.len() ==> (#[trigger] self.slots[i]).len() == 0
                || self.slots[i].len() == PAGE_SIZE
    }

    /// Slot `page_num` is filled.
    pub open spec fn is_cached(self, page_num: int) -> bool {
        0 <= page_num < self.slots.len() && self.slots[page_num].len() > 0
    }

    /// The bytes that page `page_num` stands for: the cached page if there is
    /// one, else the page as the file has it.
    pub open spec fn page(self, page_num: int) -> Seq<u8> {
        if self.is_cached(page_num) {
            self.slots[page_num]
        } else {
            file_page(self.file, page_num)
        }
    }

    /// The same file, with `page` in slot `page_num`.
    pub open spec fn with_slot(self, page_num: int, page: Seq<u8>) -> PagerView {
        PagerView { file: self.file, slots: self.slots.update(page_num, page) }
    }

    /// The state after the pages below `count` were asked for: each of them
    /// is cached.
    pub open spec fn loaded_below(self, count: int) -> PagerView {
        PagerView {
            file: self.file,
            slots: Seq::new(
                self.slots.len(),
                |i: int| if i < count { self.page(i) } else { self.slots[i] },
            ),
        }
    }

    /// The state after page `page_num` was written back: a cached page
    /// replaces its place in the file, an empty slot changes nothing.
    pub open spec fn flushed(self, page_num: int) -> PagerView {
        if self.is_cached(page_num) {
            PagerView {
                file: file_with_page(self.file, page_num, self.slots[page_num]),
                slots: self.slots,
            }
        } else {
            self
        }
    }

    /// The state after the pages below `count` were written back, in order.
    pub open spec fn flushed_below(self, count: int) -> PagerView
        decreases count,
    {
        if count <= 0 {
            self
        } else {
            self.flushed_below(count - 1).flushed(count - 1)
        }
    }

    /// What writing back the pages below `count` does. The cache stays as it
    /// is. Each page of the file is then the cached page, where that page is
    /// cached and below `count`, and is as it was before otherwise. The file
    /// has grown at most to the end of page `count - 1`, and pages that no
    /// slot has write nothing.
    pub proof fn lemma_flushed_below(self, count: int)
        requires
            self.wf(),
        ensures
            self.flushed_below(count).slots == self.slots,
            self.flushed_below(count).wf(),
            forall|p: int|
                0 <= p ==> #[trigger] file_page(self.flushed_below(count).file, p) == if p < count
                    && self.is_cached(p) {
                    self.slots[p]
                } else {
                    file_page(self.file, p)
                },
            self.file.len() <= self.flushed_below(count).file.len(),
            self.flushed_below(count).file.len() <= self.file.len() || self.flushed_below(
                count,
            ).file.len() <= count * PAGE_SIZE,
            forall|p: int|
                0 <= p < count && #[trigger] self.is_cached(p) ==> (p + 1) * PAGE_SIZE
                    <= self.flushed_below(count).file.len(),
            count >= TABLE_MAX_PAGES ==> self.flushed_below(count) == self.flushed_below(
                TABLE_MAX_PAGES as int,
            ),
        decreases count,
    {
        if count > 0 {
            self.lemma_flushed_below(count - 1);
            let before = self.flushed_below(count - 1);
            if self.is_cached(count - 1) {
                lemma_file_with_page(before.file, count - 1, self.slots[count - 1]);
            }
        }
    }
}

/// Bringing pages into the cache changes no page: each stands for the bytes
/// it stood for before.
pub proof fn lemma_loaded_below(pager: PagerView, count: int)
    requires
        pager.wf(),
    ensures
        pager.loaded_below(count).wf(),
        forall|p: int| #[trigger] pager.loaded_below(count).page(p) == pager.page(p),
        count <= 0 ==> pager.loaded_below(count) == pager,
{
    let loaded = pager.loaded_below(count);
    assert forall|p: int| #[trigger] loaded.page(p) == pager.page(p) by {
        if 0 <= p < pager.slots.len() {
            assert(pager.slots[p].len() == 0 || pager.slots[p].len() == PAGE_SIZE);
        }
    }
    if count <= 0 {
        assert(loaded.slots =~= pager.slots);
    }
}

/// Writing a page into a file makes that page of the file the page written,
/// leaves every other page as it was, and extends the file to the end of the
/// page where it was shorter.
pub proof fn lemma_file_with_page(file: Seq<u8>, page_num: int, page: Seq<u8>)
    requires
        0 <= page_num,
        page.len() == PAGE_SIZE,
    ensures
        file_page(file_with_page(file, page_num, page), page_num) == page,
        forall|p: int|
            0 <= p && p != page_num ==> #[trigger] file_page(
                file_with_page(file, page_num, page),
                p,
            ) == file_page(file, p),
        file_with_page(file, page_num, page).len() == if file.len() < (page_num + 1) * PAGE_SIZE {
            (page_num + 1) * PAGE_SIZE
        } else {
            file.len() as int
        },
{
    let written = file_with_page(file, page_num, page);
    assert(file_page(written, page_num) =~= page);
    assert forall|p: int| 0 <= p && p != page_num implies #[trigger] file_page(written, p)
        == file_page(file, p) by {
        assert(file_page(written, p) =~= file_page(file, p));
    }
}

/// A write-back page cache over the bytes of one file.
pub struct Pager {
    file: Vec<u8>,
    pages: Vec<Vec<u8>>,
}

impl View for Pager {
    type V = PagerView;

    closed spec fn view(&self) -> PagerView {
        PagerView {
            file: self.file@,
            slots: Seq::new(self.pages@.len(), |i: int| self.pages@[i]@),
        }
    }
}

impl Pager {
    /// A pager over the file whose bytes are `file`, with every slot empty.
    pub fn open(file: Vec<u8>) -> (pager: Pager)
        ensures
            pager@ == PagerView::opened(file@),
            pager@.wf(),
    {
        let mut pages: Vec<Vec<u8>> = Vec::new();
        while pages.len() < TABLE_MAX_PAGES
            invariant
                pages.len() <= TABLE_MAX_PAGES,
                forall|i: int| 0 <= i < pages.len() ==> (#[trigger] pages[i]).len() == 0,
            decreases TABLE_MAX_PAGES - pages.len(),
        {
            pages.push(Vec::new());
        }
        let pager = Pager { file, pages };
        assert(pager@.slots =~~= PagerView::opened(file@).slots);
        pager
    }

    /// The length of the file in bytes.
    pub fn file_length(&self) -> (len: usize)
        ensures
            len == self@.file.len(),
    {
        self.file.len()
    }

    /// The bytes of the file.
    pub fn file(&self) -> (file: &Vec<u8>)
        ensures
            file@ == self@.file,
    {
        &self.file
    }

    /// Gives up the pager for the bytes of its file. What is cached and was
    /// not written back is lost.
    pub fn into_file(self) -> (file: Vec<u8>)
        ensures
            file@ == self@.file,
    {
        self.file
    }

    /// The cached buffer of page `page_num`.
    ///
    /// A filled slot is handed out as it is. An empty one is first filled
    /// with a zeroed page, into which the bytes that the file has for this
    /// page are read; where the file ends inside the page or before it, the
    /// rest stays zero. What the caller leaves in the buffer is what the slot
    /// holds afterwards.
    pub fn get_page(&mut self, page_num: usize) -> (page: &mut [u8])
        requires
            old(self)@.wf(),
            page_num < TABLE_MAX_PAGES,
        ensures
            page@ == old(self)@.page(page_num as int),
            final(self)@ == old(self)@.with_slot(page_num as int, final(page)@),
    {
        if self.pages[page_num].len() == 0 {
            let mut page: Vec<u8> = zeroed(PAGE_SIZE);
            let file_length: usize = self.file.len();
            let mut num_total_pages: usize = file_length / PAGE_SIZE;
            if file_length % PAGE_SIZE != 0 {
                num_total_pages += 1;
            }
            if page_num < num_total_pages {
                let page_start: usize = page_num * PAGE_SIZE;
                let available: usize = file_length - page_start;
                let count: usize = if available < PAGE_SIZE {
                    available
                } else {
                    PAGE_SIZE
                };
                let stored = slice_subrange(self.file.as_slice(), page_start, page_start + count);
                copy_into(page.as_mut_slice(), 0, stored);
            }
            assert(page@ =~= file_page(self.file@, page_num as int));
            self.pages[page_num] = page;
        }
        assert(self@.slots =~= old(self)@.slots.update(
            page_num as int,
            old(self)@.page(page_num as int),
        ));
        self.pages[page_num].as_mut_slice()
    }

    /// Writes the cached page `page_num` back over its place in the file,
    /// the whole page, extending the file where it ended before the page's
    /// end. An empty slot, or a number that no slot has, writes nothing.
    pub fn flush(&mut self, page_num: usize)
        requires
            old(self)@.wf(),
        ensures
            final(self)@ == old(self)@.flushed(page_num as int),
    {
        if page_num < TABLE_MAX_PAGES && self.pages[page_num].len() != 0 {
            assert(self@.slots[page_num as int].len() == PAGE_SIZE);
            let page_start: usize = page_num * PAGE_SIZE;
            let page_end: usize = page_start + PAGE_SIZE;
            while self.file.len() < page_end
                invariant
                    self.pages == old(self).pages,
                    old(self).file@.len() <= self.file@.len(),
                    self.file@.len() <= page_end || self.file@ == old(self).file@,
                    self.file@.subrange(0, old(self).file@.len() as int) == old(self).file@,
                    forall|j: int|
                        old(self).file@.len() <= j < self.file@.len() ==> self.file@[j] == 0u8,
                decreases page_end - self.file.len(),
            {
                self.file.push(0);
            }
            copy_into(self.file.as_mut_slice(), page_start, self.pages[page_num].as_slice());
            assert(self.file@ =~= file_with_page(
                old(self)@.file,
                page_num as int,
                old(self)@.slots[page_num as int],
            ));
        }
    }
}

} // verus!
