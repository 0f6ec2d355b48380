//! The flash memory: where things lie in it, and how an image is cut into pages.

use vstd::prelude::*;

verus! {

/// Size of the flash memory in bytes.
pub const FLASH_SIZE: u32 = 0x20_0000;

/// Bytes that are erased and programmed together.
pub const PAGE_SIZE: usize = 4096;

/// Where in flash the page with the download URI lies.
pub const CONFIG_OFFSET: u32 = 0x17_F000;

/// Address at which the processor sees the page with the download URI.
pub const CONFIG_FLASH_PTR: usize = 0x1017_F000;

/// Where in flash a downloaded image begins. It may take all the rest of the flash.
pub const WASM_OFFSET: u32 = 0x18_0000;

/// Address at which the processor sees a downloaded image.
pub const WASM_FLASH_PTR: usize = 0x1018_0000;

/// One page on its way to flash: where it goes and what it holds.
#[verifier::ext_equal]
pub struct PageView {
    pub offset: int,
    pub data: Seq<u8>,
}

/// A page for flash: erase `offset .. end()`, then write `data` at `offset`.
#[derive(Debug)]
pub struct FlashPage {
    pub offset: u32,
    pub data: Vec<u8>,
}

impl View for FlashPage {
    type V = PageView;

    open spec fn view(&self) -> PageView {
        PageView { offset: self.offset as int, data: self.data@ }
    }
}

impl FlashPage {
    /// The page fills one erase unit of the flash.
    pub open spec fn wf(&self) -> bool {
        &&& self.data@.len() == PAGE_SIZE
        &&& self.offset as int % PAGE_SIZE as int == 0
        &&& self.offset + PAGE_SIZE <= FLASH_SIZE
    }

    /// Where the erase unit of this page ends.
    pub fn end(&self) -> (end: u32)
        requires
            self.wf(),
        ensures
            end == self.offset + PAGE_SIZE,
            end <= FLASH_SIZE,
    {
        self.offset + PAGE_SIZE as u32
    }
}

/// What the pages hold, without the types of the executable code.
pub open spec fn page_views(pages: Seq<FlashPage>) -> Seq<PageView> {
    pages.map_values(|p: FlashPage| p@)
}

/// Bytes at the start of a page, and zeros behind them up to its end.
pub open spec fn padded(s: Seq<u8>) -> Seq<u8> {
    s + Seq::new((PAGE_SIZE - s.len()) as nat, |i: int| 0u8)
}

/// How much of an image of `len` bytes page number `k` and the pages before it hold.
pub open spec fn page_end(len: int, k: int) -> int {
    if PAGE_SIZE * (k + 1) <= len {
        PAGE_SIZE * (k + 1)
    } else {
        len
    }
}

/// Page number `k` of an image.
pub open spec fn image_page(image: Seq<u8>, k: int) -> PageView {
    PageView {
        offset: WASM_OFFSET + PAGE_SIZE * k,
        data: padded(image.subrange(PAGE_SIZE * k, page_end(image.len() as int, k))),
    }
}

/// The pages of an image from number `from` up to and without number `to`.
pub open spec fn image_pages_between(image: Seq<u8>, from: int, to: int) -> Seq<PageView> {
    Seq::new((to - from) as nat, |i: int| image_page(image, from + i))
}

/// How many pages `len` bytes of an image fill up.
pub open spec fn full_pages(len: int) -> int {
    len / PAGE_SIZE as int
}

/// Every page that `len` bytes of an image fill up lies within the flash.
pub open spec fn full_pages_fit(len: int) -> bool {
    WASM_OFFSET + PAGE_SIZE * full_pages(len) <= FLASH_SIZE
}

/// How many pages an image takes.
pub open spec fn page_count(len: int) -> int {
    (len + PAGE_SIZE - 1) / PAGE_SIZE as int
}

/// All the pages of an image.
pub open spec fn image_pages(image: Seq<u8>) -> Seq<PageView> {
    image_pages_between(image, 0, page_count(image.len() as int))
}

/// Every page of an image of `len` bytes lies within the flash.
pub open spec fn image_fits(len: int) -> bool {
    WASM_OFFSET + PAGE_SIZE * page_count(len) <= FLASH_SIZE
}

/// Collects the bytes of an image and hands out each page as it fills up.
pub struct PageWriter {
    offset: u32,
    written: usize,
    fill: usize,
    page: Vec<u8>,
    image: Ghost<Seq<u8>>,
}

impl View for PageWriter {
    type V = Seq<u8>;

    /// All the bytes of the image that were taken in so far.
    closed spec fn view(&self) -> Seq<u8> {
        self.image@
    }
}

/// A page of zeros.
fn blank_page() -> (page: Vec<u8>)
    ensures
        page@ == Seq::new(PAGE_SIZE as nat, |i: int| 0u8),
{
    let page: Vec<u8> = vec![0u8; PAGE_SIZE];
    assert(page@ =~= Seq::new(PAGE_SIZE as nat, |i: int| 0u8));
    page
}

impl PageWriter {
    pub closed spec fn wf(&self) -> bool {
        let len = self.image@.len() as int;
        let full = full_pages(len);
        &&& self.offset == WASM_OFFSET + PAGE_SIZE * full
        &&& self.offset <= FLASH_SIZE
        &&& self.written == PAGE_SIZE * full
        &&& self.fill == len % PAGE_SIZE as int
        &&& self.page@ == padded(self.image@.skip(PAGE_SIZE * full))
    }

    /// A writer that has taken in nothing yet.
    pub fn new() -> (w: PageWriter)
        ensures
            w.wf(),
            w@ == Seq::<u8>::empty(),
    {
        let page: Vec<u8> = blank_page();
        let w = PageWriter {
            offset: WASM_OFFSET,
            written: 0,
            fill: 0,
            page,
            image: Ghost(Seq::empty()),
        };
        assert(w.page@ =~= padded(w.image@.skip(0)));
        w
    }

    /// Whether `n` more bytes can be taken in with every page that they fill up within the
    /// flash.
    pub fn fits(&self, n: usize) -> (r: bool)
        requires
            self.wf(),
        ensures
            r == full_pages_fit((self@.len() + n) as int),
    {
        let full: usize = n / PAGE_SIZE;
        let rest: usize = n % PAGE_SIZE;
        let more: usize = if self.fill + rest >= PAGE_SIZE {
            1
        } else {
            0
        };
        let room: usize = (FLASH_SIZE - self.offset) as usize / PAGE_SIZE;
        if full > room {
            false
        } else {
            full + more <= room
        }
    }

    /// Takes in one more byte; hands out the page that it completes.
    fn push(&mut self, byte: u8) -> (r: Option<FlashPage>)
        requires
            old(self).wf(),
            full_pages_fit((old(self)@.len() + 1) as int),
        ensures
            final(self).wf(),
            final(self)@ == old(self)@.push(byte),
            match r {
                Some(p) => {
                    &&& final(self)@.len() as int % PAGE_SIZE as int == 0
                    &&& p.wf()
                    &&& p@ == image_page(final(self)@, full_pages(old(self)@.len() as int))
                },
                None => final(self)@.len() as int % PAGE_SIZE as int != 0,
            },
    {
        let ghost before = self.image@;
        let ghost full = full_pages(before.len() as int);
        assert(self.page@.len() == PAGE_SIZE);
        self.page[self.fill] = byte;
        self.fill = self.fill + 1;
        self.image = Ghost(self.image@.push(byte));
        assert(self.page@ =~= padded(self.image@.skip(PAGE_SIZE * full)));
        if self.fill == PAGE_SIZE {
            let mut data: Vec<u8> = blank_page();
            core::mem::swap(&mut data, &mut self.page);
            let page = FlashPage { offset: self.offset, data };
            self.offset = self.offset + PAGE_SIZE as u32;
            self.written = self.written + PAGE_SIZE;
            self.fill = 0;
            assert(self.page@ =~= padded(self.image@.skip(PAGE_SIZE * (full + 1))));
            assert(self.image@.skip(PAGE_SIZE * full) =~= self.image@.subrange(
                PAGE_SIZE * full,
                page_end(self.image@.len() as int, full),
            ));
            Some(page)
        } else {
            None
        }
    }

    /// Takes in more bytes of the image; hands out the pages that they complete, in order.
    pub fn feed(&mut self, data: &[u8]) -> (pages: Vec<FlashPage>)
        requires
            old(self).wf(),
            full_pages_fit((old(self)@.len() + data@.len()) as int),
        ensures
            final(self).wf(),
            final(self)@ == old(self)@ + data@,
            page_views(pages@) == image_pages_between(
                final(self)@,
                full_pages(old(self)@.len() as int),
                full_pages(final(self)@.len() as int),
            ),
            forall|i: int| 0 <= i < pages@.len() ==> #[trigger] pages@[i].wf(),
    {
        let ghost start = self@;
        let ghost from = full_pages(start.len() as int);
        let mut pages: Vec<FlashPage> = Vec::new();
        let mut i: usize = 0;
        assert(start + data@.take(0) =~= start);
        assert(page_views(pages@) =~= image_pages_between(start, from, from));
        while i < data.len()
            invariant
                i <= data@.len(),
                self.wf(),
                self@ == start + data@.take(i as int),
                from == full_pages(start.len() as int),
                full_pages_fit((start.len() + data@.len()) as int),
                page_views(pages@) == image_pages_between(
                    self@,
                    from,
                    full_pages(self@.len() as int),
                ),
                forall|j: int| 0 <= j < pages@.len() ==> #[trigger] pages@[j].wf(),
            decreases data@.len() - i,
        {
            let ghost before = self@;
            let ghost done = full_pages(before.len() as int);
            let r = self.push(data[i]);
            assert(self@ =~= start + data@.take(i + 1));
            proof {
                assert(self@.take(before.len() as int) =~= before);
                pages_stay(before, self@, from, done);
            }
            i = i + 1;
            match r {
                Some(page) => {
                    let ghost old_pages = pages@;
                    pages.push(page);
                    assert(page_views(pages@) =~= page_views(old_pages).push(page@));
                    assert(page_views(pages@) =~= image_pages_between(self@, from, done + 1));
                },
                None => {},
            }
        }
        assert(data@.take(data@.len() as int) =~= data@);
        pages
    }

    /// Whether `finish` stays within the flash.
    pub fn tail_fits(&self) -> (r: bool)
        requires
            self.wf(),
        ensures
            r == image_fits(self@.len() as int),
    {
        self.fill == 0 || self.offset + PAGE_SIZE as u32 <= FLASH_SIZE
    }

    /// Ends the image: hands out the page that is not full, where there is one, and the
    /// length of the image.
    pub fn finish(self) -> (r: (Option<FlashPage>, usize))
        requires
            self.wf(),
            image_fits(self@.len() as int),
        ensures
            r.1 == self@.len(),
            match r.0 {
                Some(p) => {
                    &&& self@.len() as int % PAGE_SIZE as int != 0
                    &&& p.wf()
                    &&& p@ == image_page(self@, full_pages(self@.len() as int))
                },
                None => self@.len() as int % PAGE_SIZE as int == 0,
            },
    {
        let total: usize = self.written + self.fill;
        if self.fill > 0 {
            let ghost full = full_pages(self.image@.len() as int);
            assert(self.image@.skip(PAGE_SIZE * full) =~= self.image@.subrange(
                PAGE_SIZE * full,
                page_end(self.image@.len() as int, full),
            ));
            assert(self.page@.len() == PAGE_SIZE);
            (Some(FlashPage { offset: self.offset, data: self.page }), total)
        } else {
            (None, total)
        }
    }
}

/// Pages that are full do not change when the image grows.
pub proof fn pages_stay(image: Seq<u8>, longer: Seq<u8>, from: int, to: int)
    requires
        0 <= from <= to,
        PAGE_SIZE * to <= image.len() <= longer.len(),
        longer.take(image.len() as int) == image,
    ensures
        image_pages_between(longer, from, to) == image_pages_between(image, from, to),
{
    let a = image_pages_between(longer, from, to);
    let b = image_pages_between(image, from, to);
    assert forall|i: int| 0 <= i < image.len() implies longer[i] == image[i] by {
        assert(longer.take(image.len() as int)[i] == longer[i]);
    }
    assert forall|i: int| 0 <= i < to - from implies a[i] == b[i] by {
        let k = from + i;
        assert(longer.subrange(PAGE_SIZE * k, PAGE_SIZE * (k + 1)) =~= image.subrange(
            PAGE_SIZE * k,
            PAGE_SIZE * (k + 1),
        ));
    }
    assert(a =~= b);
}

/// The flash after one page was erased and written.
pub open spec fn programmed(flash: Seq<u8>, page: PageView) -> Seq<u8> {
    Seq::new(
        flash.len(),
        |i: int|
            if page.offset <= i < page.offset + page.data.len() {
                page.data[i - page.offset]
            } else {
                flash[i]
            },
    )
}

/// The flash after pages were erased and written one after the other.
pub open spec fn programmed_all(flash: Seq<u8>, pages: Seq<PageView>) -> Seq<u8>
    decreases pages.len(),
{
    if pages.len() == 0 {
        flash
    } else {
        programmed(programmed_all(flash, pages.drop_last()), pages.last())
    }
}

proof fn first_pages_program(flash: Seq<u8>, image: Seq<u8>, n: int)
    requires
        0 <= n <= page_count(image.len() as int),
        WASM_OFFSET + PAGE_SIZE * n <= flash.len(),
    ensures
        ({
            let after = programmed_all(flash, image_pages_between(image, 0, n));
            &&& after.len() == flash.len()
            &&& forall|i: int|
                0 <= i < flash.len() && !(WASM_OFFSET <= i < WASM_OFFSET + PAGE_SIZE * n)
                    ==> after[i] == flash[i]
            &&& forall|i: int|
                0 <= i < PAGE_SIZE * n ==> #[trigger] after[WASM_OFFSET + i] == (if i < image.len() {
                    image[i]
                } else {
                    0u8
                })
        }),
    decreases n,
{
    let pages = image_pages_between(image, 0, n);
    if n > 0 {
        first_pages_program(flash, image, n - 1);
        assert(pages.drop_last() =~= image_pages_between(image, 0, n - 1));
        let before = programmed_all(flash, pages.drop_last());
        let after = programmed_all(flash, pages);
        let last = pages.last();
        assert(last == image_page(image, n - 1));
        assert(last.data.len() == PAGE_SIZE);
        assert forall|i: int| 0 <= i < PAGE_SIZE * n implies #[trigger] after[WASM_OFFSET + i] == (if i
            < image.len() {
            image[i]
        } else {
            0u8
        }) by {
            if i < PAGE_SIZE * (n - 1) {
                assert(after[WASM_OFFSET + i] == before[WASM_OFFSET + i]);
            } else {
                let j = i - PAGE_SIZE * (n - 1);
                assert(after[WASM_OFFSET + i] == last.data[j]);
            }
        }
    } else {
        assert(pages.len() == 0);
    }
}

/// Reading back from flash, behind `WASM_OFFSET`, as many bytes as an image has gives the
/// image, whatever the flash held before it was written. Nothing in front of `WASM_OFFSET`
/// has changed.
pub proof fn image_reads_back(flash: Seq<u8>, image: Seq<u8>)
    requires
        flash.len() == FLASH_SIZE,
        image_fits(image.len() as int),
    ensures
        programmed_all(flash, image_pages(image)).len() == FLASH_SIZE,
        programmed_all(flash, image_pages(image)).subrange(
            WASM_OFFSET as int,
            WASM_OFFSET + image.len(),
        ) == image,
        programmed_all(flash, image_pages(image)).take(WASM_OFFSET as int) == flash.take(
            WASM_OFFSET as int,
        ),
{
    let n = page_count(image.len() as int);
    first_pages_program(flash, image, n);
    let after = programmed_all(flash, image_pages(image));
    assert(after.subrange(WASM_OFFSET as int, WASM_OFFSET + image.len()) =~= image) by {
        assert forall|i: int| 0 <= i < image.len() implies after.subrange(
            WASM_OFFSET as int,
            WASM_OFFSET + image.len(),
        )[i] == image[i] by {
            assert(after[WASM_OFFSET + i] == image[i]);
        }
    }
    assert(after.take(WASM_OFFSET as int) =~= flash.take(WASM_OFFSET as int));
}

/// An image fits exactly when it is no longer than the flash behind `WASM_OFFSET`.
pub proof fn image_fits_by_length(len: nat)
    ensures
        image_fits(len as int) <==> len <= FLASH_SIZE - WASM_OFFSET,
{
}

/// The pages of an image, byte for byte: as many as it takes to hold it, one behind the other
/// from 0x180000 on, 4096 bytes each. Every byte of the image is in its place, and zeros follow
/// the last.
pub proof fn pages_hold_each_byte_of_the_image(image: Seq<u8>, k: int, j: int)
    requires
        0 <= k < image_pages(image).len(),
        0 <= j < 4096,
    ensures
        4096 * (image_pages(image).len() - 1) < image.len() <= 4096 * image_pages(image).len(),
        image_pages(image)[k].offset == 0x18_0000 + 4096 * k,
        image_pages(image)[k].data.len() == 4096,
        image_pages(image)[k].data[j] == (if 4096 * k + j < image.len() {
            image[4096 * k + j]
        } else {
            0
        }),
{
}

/// An image without bytes takes no page.
pub proof fn empty_image_takes_no_page(image: Seq<u8>)
    ensures
        image_pages(image).len() == 0 <==> image.len() == 0,
{
}

/// The flash from 0x180000 on holds half a megabyte: an image of at most that length fits, and
/// the pages that bytes fill up fit until one more page is full.
pub proof fn half_a_megabyte_fits(len: nat)
    ensures
        image_fits(len as int) <==> len <= 0x8_0000,
        full_pages_fit(len as int) <==> len < 0x8_1000,
{
}

/// Writing a page changes the bytes under it, and no others.
pub proof fn writing_changes_only_the_page(flash: Seq<u8>, page: PageView, i: int)
    requires
        0 <= i < flash.len(),
    ensures
        programmed(flash, page).len() == flash.len(),
        0 <= i - page.offset < page.data.len() ==> programmed(flash, page)[i] == page.data[i
            - page.offset],
        !(0 <= i - page.offset < page.data.len()) ==> programmed(flash, page)[i] == flash[i],
{
}

/// What the contracts say of pages is said of the pages that are handed out, in their order,
/// each with its own offset and bytes.
pub proof fn pages_are_seen_as_they_are(pages: Seq<FlashPage>, i: int)
    requires
        0 <= i < pages.len(),
    ensures
        page_views(pages).len() == pages.len(),
        page_views(pages)[i].offset == pages[i].offset,
        page_views(pages)[i].data == pages[i].data@,
        pages[i]@ == page_views(pages)[i],
{
}

/// A page of an image does not depend on how many others are asked for with it.
pub proof fn some_pages_are_among_all(image: Seq<u8>, from: int, to: int, i: int)
    requires
        0 <= from <= to <= image_pages(image).len(),
        0 <= i < to - from,
    ensures
        image_pages_between(image, from, to).len() == to - from,
        image_pages_between(image, from, to)[i] == image_pages(image)[from + i],
{
}

} // verus!
