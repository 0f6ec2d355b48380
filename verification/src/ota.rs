//! Downloading an image over HTTP into flash, and choosing what to boot.

use vstd::prelude::*;
use vstd::slice::slice_subrange;

use crate::bytes::found_where_rest_begins_with_needle;
use crate::bytes::{find, find_spec, find_spec_is_first, first_match, matches_at, occurs};
use crate::bytes::occurs_has_first;
use crate::delay::secs_to_ticks;
use crate::flash::{full_pages, full_pages_fit, image_fits, image_page, image_pages};
use crate::flash::{image_pages_between, image_reads_back, page_count, page_views, pages_stay};
use crate::flash::{programmed_all, FlashPage, PageView, PageWriter};
use crate::flash::{FLASH_SIZE, PAGE_SIZE, WASM_FLASH_PTR, WASM_OFFSET};
use crate::target::{boot_target_spec, target_spec};
use crate::uri::stored_uri_spec;

verus! {

/// How many bytes are read in search of the end of the header.
pub const HEADER_MAX: usize = 1024;

/// How many bytes are read at once behind the header.
pub const READ_MAX: usize = 1024;

/// After how many seconds without an answer a connection is given up.
pub const SOCKET_TIMEOUT_SECS: u64 = 10;

/// After how many seconds the wireless network is tried again.
pub const JOIN_RETRY_SECS: u64 = 1;

/// After how many ticks without an answer a connection is given up.
pub fn socket_timeout_ticks() -> (ticks: u64)
    ensures
        ticks == 10_000_000,
{
    secs_to_ticks(SOCKET_TIMEOUT_SECS)
}

/// After how many ticks the wireless network is tried again.
pub fn join_retry_ticks() -> (ticks: u64)
    ensures
        ticks == 1_000_000,
{
    secs_to_ticks(JOIN_RETRY_SECS)
}

/// The empty line that ends a header.
pub open spec fn header_end() -> Seq<u8> {
    seq![0x0du8, 0x0au8, 0x0du8, 0x0au8]
}

/// The words `200 OK`, with which a server agrees.
pub open spec fn status_ok() -> Seq<u8> {
    seq![0x32u8, 0x30u8, 0x30u8, 0x20u8, 0x4fu8, 0x4bu8]
}

/// How far a download has come.
pub enum DownloadView {
    /// These bytes came in, and the header has not ended.
    Header(Seq<u8>),
    /// The server agreed, and these bytes of the image came in.
    Body(Seq<u8>),
    /// The server did not agree.
    Rejected,
    /// An image of this length came in.
    Complete(int),
}

/// How many bytes the next read may bring.
pub open spec fn wanted_spec(d: DownloadView) -> int {
    match d {
        DownloadView::Header(seen) => HEADER_MAX - seen.len(),
        DownloadView::Body(_) => READ_MAX as int,
        _ => 0,
    }
}

/// Reading the header is over: the bytes from `start` on belong to the image, where the
/// server agreed.
pub open spec fn after_header(seen: Seq<u8>, start: int) -> DownloadView {
    if occurs(seen, status_ok()) {
        DownloadView::Body(seen.skip(start))
    } else {
        DownloadView::Rejected
    }
}

/// A read brought `data`.
pub open spec fn after_data(d: DownloadView, data: Seq<u8>) -> DownloadView {
    match d {
        DownloadView::Header(seen) => match find_spec(seen + data, header_end()) {
            Some(p) => after_header(seen + data, p + 4),
            None => DownloadView::Header(seen + data),
        },
        DownloadView::Body(image) => DownloadView::Body(image + data),
        _ => d,
    }
}

/// A read brought nothing, or failed. Where the header has not ended, all of it is taken
/// for the image.
pub open spec fn after_end(d: DownloadView) -> DownloadView {
    match d {
        DownloadView::Header(seen) => after_header(seen, 0),
        DownloadView::Body(image) => DownloadView::Complete(image.len() as int),
        _ => d,
    }
}

/// The pages that go to flash when a read brings `data`.
pub open spec fn pages_on_data(d: DownloadView, data: Seq<u8>) -> Seq<PageView> {
    match d {
        DownloadView::Body(image) => image_pages_between(
            image + data,
            full_pages(image.len() as int),
            full_pages((image + data).len() as int),
        ),
        _ => Seq::empty(),
    }
}

/// The pages that go to flash when a read brings nothing, or fails.
pub open spec fn pages_on_end(d: DownloadView) -> Seq<PageView> {
    match d {
        DownloadView::Body(image) => image_pages_between(
            image,
            full_pages(image.len() as int),
            page_count(image.len() as int),
        ),
        _ => Seq::empty(),
    }
}

/// A download, between one read and the next.
pub enum Download {
    /// The header has not ended yet.
    Header(Vec<u8>),
    /// The server agreed.
    Body(PageWriter),
    /// The server did not agree.
    Rejected,
    /// An image of this length is in flash.
    Complete(usize),
}

impl View for Download {
    type V = DownloadView;

    open spec fn view(&self) -> DownloadView {
        match self {
            Download::Header(seen) => DownloadView::Header(seen@),
            Download::Body(writer) => DownloadView::Body(writer@),
            Download::Rejected => DownloadView::Rejected,
            Download::Complete(len) => DownloadView::Complete(*len as int),
        }
    }
}

impl Download {
    pub open spec fn wf(&self) -> bool {
        match self {
            Download::Header(seen) => seen@.len() <= HEADER_MAX,
            Download::Body(writer) => writer.wf(),
            _ => true,
        }
    }

    /// The pages that `n` more bytes fill up lie within the flash.
    pub open spec fn data_fits(&self, n: int) -> bool {
        match self {
            Download::Body(writer) => full_pages_fit(writer@.len() + n),
            _ => true,
        }
    }

    /// The last page of the image lies within the flash.
    pub open spec fn end_fits(&self) -> bool {
        match self {
            Download::Body(writer) => image_fits(writer@.len() as int),
            _ => true,
        }
    }

    /// A download for which the request was just sent.
    pub fn new() -> (d: Download)
        ensures
            d.wf(),
            d@ == DownloadView::Header(Seq::empty()),
    {
        Download::Header(Vec::new())
    }

    /// How many bytes the next read may bring.
    pub fn wanted(&self) -> (n: usize)
        requires
            self.wf(),
        ensures
            n == wanted_spec(self@),
    {
        match self {
            Download::Header(seen) => HEADER_MAX - seen.len(),
            Download::Body(_) => READ_MAX,
            _ => 0,
        }
    }

    /// Whether the flash has room for the pages that `n` more bytes fill up.
    pub fn has_room(&self, n: usize) -> (r: bool)
        requires
            self.wf(),
        ensures
            r == self.data_fits(n as int),
    {
        match self {
            Download::Body(writer) => writer.fits(n),
            _ => true,
        }
    }

    /// Whether the flash has room for the last page of the image.
    pub fn has_room_for_end(&self) -> (r: bool)
        requires
            self.wf(),
        ensures
            r == self.end_fits(),
    {
        match self {
            Download::Body(writer) => writer.tail_fits(),
            _ => true,
        }
    }

    /// Ends the reading of the header: the bytes from `start` on belong to the image.
    fn enter_body(seen: Vec<u8>, start: usize) -> (d: Download)
        requires
            seen@.len() <= HEADER_MAX,
            start <= seen@.len(),
        ensures
            d.wf(),
            d@ == after_header(seen@, start as int),
    {
        let ok: [u8; 6] = [0x32, 0x30, 0x30, 0x20, 0x4f, 0x4b];
        assert(ok@ =~= status_ok());
        match find(seen.as_slice(), ok.as_slice()) {
            Some(_) => {
                let mut writer: PageWriter = PageWriter::new();
                let rest: &[u8] = slice_subrange(seen.as_slice(), start, seen.len());
                writer.feed(rest);
                assert(writer@ =~= seen@.skip(start as int));
                Download::Body(writer)
            },
            None => Download::Rejected,
        }
    }

    /// Takes in what a read brought; hands out the pages that must now go to flash.
    pub fn on_data(self, data: &[u8]) -> (r: (Download, Vec<FlashPage>))
        requires
            self.wf(),
            self@ is Header ==> data@.len() <= wanted_spec(self@),
            self.data_fits(data@.len() as int),
        ensures
            r.0.wf(),
            r.0@ == after_data(self@, data@),
            page_views(r.1@) == pages_on_data(self@, data@),
            forall|i: int| 0 <= i < r.1@.len() ==> #[trigger] r.1@[i].wf(),
    {
        let ghost no_pages: Seq<PageView> = Seq::empty();
        match self {
            Download::Header(seen) => {
                let ghost before = seen@;
                let mut seen: Vec<u8> = seen;
                seen.extend_from_slice(data);
                assert(seen@ =~= before + data@);
                let end: [u8; 4] = [0x0d, 0x0a, 0x0d, 0x0a];
                assert(end@ =~= header_end());
                let pages: Vec<FlashPage> = Vec::new();
                assert(page_views(pages@) =~= no_pages);
                match find(seen.as_slice(), end.as_slice()) {
                    Some(p) => (Download::enter_body(seen, p + 4), pages),
                    None => (Download::Header(seen), pages),
                }
            },
            Download::Body(writer) => {
                let mut writer: PageWriter = writer;
                let pages: Vec<FlashPage> = writer.feed(data);
                (Download::Body(writer), pages)
            },
            other => {
                let pages: Vec<FlashPage> = Vec::new();
                assert(page_views(pages@) =~= no_pages);
                (other, pages)
            },
        }
    }

    /// Takes in that a read brought nothing, or failed; hands out the page that must now go
    /// to flash, where there is one.
    pub fn on_end(self) -> (r: (Download, Option<FlashPage>))
        requires
            self.wf(),
            self.end_fits(),
        ensures
            r.0.wf(),
            r.0@ == after_end(self@),
            match r.1 {
                Some(page) => page.wf() && pages_on_end(self@) == seq![page@],
                None => pages_on_end(self@) == Seq::<PageView>::empty(),
            },
    {
        match self {
            Download::Header(seen) => (Download::enter_body(seen, 0), None),
            Download::Body(writer) => {
                let ghost image = writer@;
                let (page, total) = writer.finish();
                proof {
                    let full = full_pages(image.len() as int);
                    let count = page_count(image.len() as int);
                    if image.len() as int % PAGE_SIZE as int == 0 {
                        assert(count == full);
                        assert(image_pages_between(image, full, count) =~= Seq::empty());
                    } else {
                        assert(count == full + 1);
                        assert(image_pages_between(image, full, count) =~= seq![
                            image_page(image, full),
                        ]);
                    }
                }
                (Download::Complete(total), page)
            },
            other => (other, None),
        }
    }
}

/// Where the image that is to run lies.
#[derive(Clone, Copy, Debug, PartialEq, Eq, Structural)]
pub enum BootImage {
    /// In flash, at this address and of this length.
    Flash { addr: usize, len: usize },
    /// In the firmware itself.
    Embedded,
}

/// What to boot: the image that was downloaded, or else the one in the firmware.
pub open spec fn boot_spec(download: Option<DownloadView>) -> BootImage {
    match download {
        Some(DownloadView::Complete(len)) => BootImage::Flash {
            addr: WASM_FLASH_PTR,
            len: len as usize,
        },
        _ => BootImage::Embedded,
    }
}

/// Chooses what to boot, given how the download ended, where there was one.
pub fn boot_image(download: &Option<Download>) -> (image: BootImage)
    ensures
        image == boot_spec(match *download {
            Some(d) => Some(d@),
            None => None,
        }),
{
    match download {
        Some(Download::Complete(len)) => BootImage::Flash { addr: WASM_FLASH_PTR, len: *len },
        _ => BootImage::Embedded,
    }
}

/// How far a download has come after one more read, which brought something; or else it
/// brought nothing, or failed.
pub open spec fn after_read(d: DownloadView, read: Option<Seq<u8>>) -> DownloadView {
    match read {
        Some(data) => after_data(d, data),
        None => after_end(d),
    }
}

/// The pages that go to flash upon a read.
pub open spec fn pages_on_read(d: DownloadView, read: Option<Seq<u8>>) -> Seq<PageView> {
    match read {
        Some(data) => pages_on_data(d, data),
        None => pages_on_end(d),
    }
}

/// How far a download has come after these reads.
pub open spec fn after_reads(reads: Seq<Option<Seq<u8>>>) -> DownloadView
    decreases reads.len(),
{
    if reads.len() == 0 {
        DownloadView::Header(Seq::empty())
    } else {
        after_read(after_reads(reads.drop_last()), reads.last())
    }
}

/// The pages that went to flash upon these reads.
pub open spec fn pages_of_reads(reads: Seq<Option<Seq<u8>>>) -> Seq<PageView>
    decreases reads.len(),
{
    if reads.len() == 0 {
        Seq::empty()
    } else {
        pages_of_reads(reads.drop_last()) + pages_on_read(
            after_reads(reads.drop_last()),
            reads.last(),
        )
    }
}

/// No read brought more than was wanted; what a read brought is not empty.
pub open spec fn proper_reads(reads: Seq<Option<Seq<u8>>>) -> bool
    decreases reads.len(),
{
    reads.len() > 0 ==> {
        &&& proper_reads(reads.drop_last())
        &&& reads.last() matches Some(data) ==> 0 < data.len() <= wanted_spec(
            after_reads(reads.drop_last()),
        )
    }
}

/// No more is read.
pub open spec fn is_over(d: DownloadView) -> bool {
    d is Rejected || d is Complete
}

/// All that the reads brought, one after the other.
pub open spec fn received(reads: Seq<Option<Seq<u8>>>) -> Seq<u8>
    decreases reads.len(),
{
    if reads.len() == 0 {
        Seq::empty()
    } else {
        match reads.last() {
            Some(data) => received(reads.drop_last()) + data,
            None => received(reads.drop_last()),
        }
    }
}

/// The search for the end of the header is over: these bytes hold it, or one of the reads
/// brought nothing.
pub open spec fn header_over(seen: Seq<u8>, reads: Seq<Option<Seq<u8>>>) -> bool {
    occurs(seen, header_end()) || reads.contains(None)
}

/// The bytes that were read in search of the end of the header: up to the end of the read that
/// brought it, or up to the first read that brought nothing.
pub open spec fn header_bytes(reads: Seq<Option<Seq<u8>>>) -> Seq<u8>
    decreases reads.len(),
{
    if reads.len() == 0 {
        Seq::empty()
    } else {
        let seen = header_bytes(reads.drop_last());
        match reads.last() {
            Some(data) => if header_over(seen, reads.drop_last()) {
                seen
            } else {
                seen + data
            },
            None => seen,
        }
    }
}

/// The image that the reads brought: what follows the header, or all that came in where the
/// header did not end.
pub open spec fn image_of(reads: Seq<Option<Seq<u8>>>) -> Seq<u8> {
    match find_spec(header_bytes(reads), header_end()) {
        Some(p) => received(reads).skip(p + 4),
        None => received(reads),
    }
}

proof fn match_in_longer(s: Seq<u8>, more: Seq<u8>, needle: Seq<u8>, i: int)
    ensures
        matches_at(s, needle, i) ==> matches_at(s + more, needle, i),
        i + needle.len() <= s.len() && matches_at(s + more, needle, i) ==> matches_at(s, needle, i),
{
    if 0 <= i && i + needle.len() <= s.len() {
        assert((s + more).subrange(i, i + needle.len()) =~= s.subrange(i, i + needle.len()));
    }
}

proof fn first_match_in_longer(s: Seq<u8>, more: Seq<u8>, needle: Seq<u8>, i: int)
    requires
        first_match(s, needle, i),
    ensures
        first_match(s + more, needle, i),
{
    match_in_longer(s, more, needle, i);
    assert forall|j: int| 0 <= j < i implies !#[trigger] matches_at(s + more, needle, j) by {
        match_in_longer(s, more, needle, j);
        assert(!matches_at(s, needle, j));
    }
}

proof fn occurs_in_longer(s: Seq<u8>, more: Seq<u8>, needle: Seq<u8>)
    requires
        occurs(s, needle),
    ensures
        occurs(s + more, needle),
{
    let i = choose|i: int| #[trigger] matches_at(s, needle, i);
    match_in_longer(s, more, needle, i);
}

/// `d` is how far a download has come, and `pages` went to flash, where the server agreed and
/// `image` is what came in of the image.
spec fn holds_image(d: DownloadView, pages: Seq<PageView>, image: Seq<u8>) -> bool {
    ||| d == DownloadView::Body(image) && pages == image_pages_between(
        image,
        0,
        full_pages(image.len() as int),
    )
    ||| d == DownloadView::Complete(image.len() as int) && pages == image_pages(image)
}

proof fn image_grows(
    d: DownloadView,
    pages: Seq<PageView>,
    image: Seq<u8>,
    read: Option<Seq<u8>>,
    longer: Seq<u8>,
)
    requires
        holds_image(d, pages, image),
        read matches Some(data) ==> 0 < data.len() <= wanted_spec(d) && longer == image + data,
        read is None ==> longer == image,
    ensures
        holds_image(after_read(d, read), pages + pages_on_read(d, read), longer),
{
    let full = full_pages(image.len() as int);
    match read {
        Some(data) => {
            assert(longer.take(image.len() as int) =~= image);
            pages_stay(image, longer, 0, full);
            assert(pages + pages_on_read(d, read) =~= image_pages_between(
                longer,
                0,
                full_pages(longer.len() as int),
            ));
        },
        None => {
            assert(pages + pages_on_read(d, read) =~= image_pages(image));
        },
    }
}

proof fn header_stays_over(reads: Seq<Option<Seq<u8>>>)
    requires
        reads.len() > 0,
        header_over(header_bytes(reads.drop_last()), reads.drop_last()),
    ensures
        header_bytes(reads) == header_bytes(reads.drop_last()),
        header_over(header_bytes(reads), reads),
{
    let before = reads.drop_last();
    if before.contains(None) {
        let i = choose|i: int| 0 <= i < before.len() && before[i] is None;
        assert(reads[i] is None);
    }
}

/// How far a download has come, and what went to flash, told by the bytes that came in.
proof fn reads_so_far(reads: Seq<Option<Seq<u8>>>)
    requires
        proper_reads(reads),
    ensures
        ({
            let head = header_bytes(reads);
            let d = after_reads(reads);
            let pages = pages_of_reads(reads);
            &&& head.len() <= HEADER_MAX
            &&& head.len() <= received(reads).len()
            &&& received(reads).take(head.len() as int) == head
            &&& if !header_over(head, reads) {
                &&& head == received(reads)
                &&& d == DownloadView::Header(head)
                &&& pages == Seq::<PageView>::empty()
            } else if occurs(head, status_ok()) {
                holds_image(d, pages, image_of(reads))
            } else {
                &&& d == DownloadView::Rejected
                &&& pages == Seq::<PageView>::empty()
            }
        }),
    decreases reads.len(),
{
    let head = header_bytes(reads);
    let pages = pages_of_reads(reads);
    if reads.len() == 0 {
        assert(received(reads).take(0) =~= head);
        assert(!reads.contains(None));
        if occurs(head, header_end()) {
            let i = choose|i: int| #[trigger] matches_at(head, header_end(), i);
        }
    } else {
        let before = reads.drop_last();
        let read = reads.last();
        let seen = header_bytes(before);
        let d = after_reads(before);
        reads_so_far(before);
        assert(received(reads).take(seen.len() as int) =~= seen);
        if header_over(seen, before) {
            header_stays_over(reads);
            if occurs(seen, status_ok()) {
                if occurs(seen, header_end()) {
                    occurs_has_first(seen, header_end());
                    let p = find_spec(seen, header_end())->0;
                    assert(matches_at(seen, header_end(), p));
                    if read is Some {
                        assert(image_of(reads) =~= image_of(before) + read->0);
                    }
                }
                image_grows(d, pages_of_reads(before), image_of(before), read, image_of(reads));
            } else {
                assert(pages =~= Seq::<PageView>::empty());
            }
        } else {
            assert(pages =~= Seq::<PageView>::empty());
            assert(received(reads).take(head.len() as int) =~= head);
            if read is None {
                assert(reads[reads.len() - 1] is None);
                assert(reads.contains(None));
                assert(head.skip(0) =~= head);
            } else {
                assert(!reads.contains(None)) by {
                    if reads.contains(None) {
                        let i = choose|i: int| 0 <= i < reads.len() && reads[i] is None;
                        assert(before[i] is None);
                        assert(before.contains(None));
                    }
                }
            }
            if occurs(head, header_end()) {
                occurs_has_first(head, header_end());
            }
            let image = image_of(reads);
            assert(image.len() < PAGE_SIZE);
            assert(image_pages_between(image, 0, 0) =~= Seq::<PageView>::empty());
        }
    }
}

/// A download is over at the latest when two reads bring nothing.
pub proof fn download_ends(d: DownloadView)
    ensures
        is_over(after_end(after_end(d))),
{
}

/// The image in flash is booted if and only if the server agreed, that is, the bytes that were
/// read in search of the end of the header hold `200 OK`, whether that end was found or not.
/// Then the whole image is in flash, each page of it written exactly once and in order; else
/// nothing was written.
pub proof fn boots_downloaded_image_iff_server_agrees(reads: Seq<Option<Seq<u8>>>)
    requires
        proper_reads(reads),
        is_over(after_reads(reads)),
    ensures
        boot_spec(Some(after_reads(reads))) is Flash <==> occurs(header_bytes(reads), status_ok()),
        if occurs(header_bytes(reads), status_ok()) {
            &&& after_reads(reads) == DownloadView::Complete(image_of(reads).len() as int)
            &&& pages_of_reads(reads) == image_pages(image_of(reads))
        } else {
            &&& after_reads(reads) == DownloadView::Rejected
            &&& pages_of_reads(reads) == Seq::<PageView>::empty()
        },
{
    reads_so_far(reads);
}

/// What is booted after a download is, byte for byte, the image that came in, whatever the
/// flash held before and whether the end of the header was found or not.
pub proof fn booted_image_is_what_came_in(flash: Seq<u8>, reads: Seq<Option<Seq<u8>>>)
    requires
        flash.len() == FLASH_SIZE,
        proper_reads(reads),
        is_over(after_reads(reads)),
        boot_spec(Some(after_reads(reads))) is Flash,
        image_fits(image_of(reads).len() as int),
    ensures
        boot_spec(Some(after_reads(reads))) == (BootImage::Flash {
            addr: WASM_FLASH_PTR,
            len: image_of(reads).len() as usize,
        }),
        programmed_all(flash, pages_of_reads(reads)).subrange(
            WASM_OFFSET as int,
            WASM_OFFSET + image_of(reads).len(),
        ) == image_of(reads),
{
    boots_downloaded_image_iff_server_agrees(reads);
    image_reads_back(flash, image_of(reads));
}

/// Where the end of the header never comes, all that came in is taken for the image.
pub proof fn unended_header_is_image(reads: Seq<Option<Seq<u8>>>)
    requires
        !occurs(header_bytes(reads), header_end()),
    ensures
        image_of(reads) == received(reads),
{
}

/// What is booted: the image of the target that the stored URI names, where there is one and
/// its server answered, and else the image in the firmware. `answer` is what was read from the
/// server; nothing where it could not be reached.
pub open spec fn boot_outcome(
    config: Seq<u8>,
    answer: Option<Seq<Option<Seq<u8>>>>,
) -> BootImage {
    match (boot_target_spec(config), answer) {
        (Some(_), Some(reads)) => boot_spec(Some(after_reads(reads))),
        _ => boot_spec(None),
    }
}

/// The image in the firmware is booted if and only if no URI is stored, or the stored one names
/// nothing, or the server could not be reached, or it did not agree.
pub proof fn embedded_image_is_the_fallback(
    config: Seq<u8>,
    answer: Option<Seq<Option<Seq<u8>>>>,
)
    requires
        answer matches Some(reads) ==> proper_reads(reads) && is_over(after_reads(reads)),
    ensures
        boot_outcome(config, answer) == BootImage::Embedded <==> {
            ||| stored_uri_spec(config) is None
            ||| target_spec(stored_uri_spec(config)->0) is None
            ||| answer is None
            ||| !occurs(header_bytes(answer->0), status_ok())
        },
        boot_outcome(config, answer) != BootImage::Embedded ==> boot_outcome(config, answer) == (
        BootImage::Flash { addr: WASM_FLASH_PTR, len: image_of(answer->0).len() as usize }),
{
    if answer is Some {
        boots_downloaded_image_iff_server_agrees(answer->0);
    }
}

/// No read came up empty before `n` bytes were in.
pub open spec fn no_gap_within(reads: Seq<Option<Seq<u8>>>, n: int) -> bool {
    forall|k: int|
        0 <= k < reads.len() && (#[trigger] reads[k]) is None ==> received(reads.take(k)).len() >= n
}

proof fn received_grows(reads: Seq<Option<Seq<u8>>>, k: int)
    requires
        0 <= k <= reads.len(),
    ensures
        received(reads.take(k)).len() <= received(reads).len(),
    decreases reads.len(),
{
    if k == reads.len() {
        assert(reads.take(k) =~= reads);
    } else {
        received_grows(reads.drop_last(), k);
        assert(reads.drop_last().take(k) =~= reads.take(k));
    }
}

/// A header that came in without a gap is among the bytes in which its end was sought.
proof fn whole_header_is_seen(head: Seq<u8>, reads: Seq<Option<Seq<u8>>>)
    requires
        proper_reads(reads),
        first_match(head, header_end(), head.len() - 4),
        head.len() <= received(reads).len(),
        received(reads).take(head.len() as int) == head,
        no_gap_within(reads, head.len() as int),
    ensures
        head.len() <= header_bytes(reads).len(),
        header_bytes(reads).take(head.len() as int) == head,
    decreases reads.len(),
{
    let n = head.len() as int;
    let p = n - 4;
    reads_so_far(reads);
    assert(matches_at(head, header_end(), p));
    if reads.len() > 0 {
        let before = reads.drop_last();
        reads_so_far(before);
        if received(before).len() >= n {
            assert(received(before).take(n) =~= received(reads).take(n));
            assert forall|k: int|
                0 <= k < before.len() && (#[trigger] before[k]) is None implies received(
                before.take(k),
            ).len() >= n by {
                assert(reads[k] is None);
                assert(before.take(k) =~= reads.take(k));
            }
            whole_header_is_seen(head, before);
            let seen = header_bytes(before);
            assert(matches_at(seen, header_end(), p)) by {
                match_in_longer(head, seen.skip(n), header_end(), p);
                assert(head + seen.skip(n) =~= seen);
            }
            header_stays_over(reads);
        } else {
            let seen = header_bytes(before);
            assert(!before.contains(None)) by {
                if before.contains(None) {
                    let k = choose|k: int| 0 <= k < before.len() && before[k] is None;
                    assert(reads[k] is None);
                    assert(before.take(k) =~= reads.take(k));
                    received_grows(before, k);
                }
            }
            if occurs(seen, header_end()) {
                let i = choose|i: int| #[trigger] matches_at(seen, header_end(), i);
                assert(received(reads).take(seen.len() as int) =~= seen);
                let rest = head.skip(seen.len() as int);
                assert(seen + rest =~= head);
                match_in_longer(seen, rest, header_end(), i);
                assert(false);
            }
            assert(header_bytes(reads) == received(reads));
        }
    }
}

/// However the answer of the server is cut into reads, and whatever reads fail behind the
/// header, what follows the header is the image: its pages go to flash, each exactly once and in
/// order, and its length is what is reported.
pub proof fn download_keeps_body(head: Seq<u8>, body: Seq<u8>, reads: Seq<Option<Seq<u8>>>)
    requires
        first_match(head, header_end(), head.len() - 4),
        occurs(head, status_ok()),
        received(reads) == head + body,
        no_gap_within(reads, head.len() as int),
        proper_reads(reads),
        is_over(after_reads(reads)),
    ensures
        image_of(reads) == body,
        after_reads(reads) == DownloadView::Complete(body.len() as int),
        pages_of_reads(reads) == image_pages(body),
{
    let n = head.len() as int;
    assert(matches_at(head, header_end(), n - 4));
    assert(received(reads).take(n) =~= head);
    whole_header_is_seen(head, reads);
    let seen = header_bytes(reads);
    assert(head + seen.skip(n) =~= seen);
    first_match_in_longer(head, seen.skip(n), header_end(), n - 4);
    find_spec_is_first(seen, header_end(), n - 4);
    occurs_in_longer(head, seen.skip(n), status_ok());
    assert(received(reads).skip(n) =~= body);
    boots_downloaded_image_iff_server_agrees(reads);
}

/// The image that runs after a download is, byte for byte, what followed the header of the
/// server's answer, whatever the flash held before.
pub proof fn downloaded_image_boots(
    flash: Seq<u8>,
    head: Seq<u8>,
    body: Seq<u8>,
    reads: Seq<Option<Seq<u8>>>,
)
    requires
        flash.len() == FLASH_SIZE,
        first_match(head, header_end(), head.len() - 4),
        occurs(head, status_ok()),
        received(reads) == head + body,
        no_gap_within(reads, head.len() as int),
        proper_reads(reads),
        is_over(after_reads(reads)),
        image_fits(body.len() as int),
    ensures
        boot_spec(Some(after_reads(reads))) == (BootImage::Flash {
            addr: WASM_FLASH_PTR,
            len: body.len() as usize,
        }),
        programmed_all(flash, pages_of_reads(reads)).subrange(
            WASM_OFFSET as int,
            WASM_OFFSET + body.len(),
        ) == body,
{
    download_keeps_body(head, body, reads);
    booted_image_is_what_came_in(flash, reads);
}

/// Where the server never says that it agrees, nothing goes to flash, and the image in the
/// firmware is booted.
pub proof fn refused_download_writes_nothing(reads: Seq<Option<Seq<u8>>>)
    requires
        proper_reads(reads),
        !occurs(received(reads), status_ok()),
    ensures
        pages_of_reads(reads) == Seq::<PageView>::empty(),
        after_end(after_reads(reads)) == DownloadView::Rejected,
        boot_spec(Some(after_reads(reads))) == BootImage::Embedded,
{
    reads_so_far(reads);
    let seen = header_bytes(reads);
    if occurs(seen, status_ok()) {
        let rest = received(reads).skip(seen.len() as int);
        occurs_in_longer(seen, rest, status_ok());
        assert(seen + rest =~= received(reads));
    }
}

/// The two texts that are sought in a header, as bytes.
proof fn header_texts()
    ensures
        "200 OK"@.len() == 6,
        "\r\n\r\n"@.len() == 4,
        Seq::new(6, |i: int| "200 OK"@[i] as u8) == status_ok(),
        Seq::new(4, |i: int| "\r\n\r\n"@[i] as u8) == header_end(),
{
    reveal_strlit("200 OK");
    reveal_strlit("\r\n\r\n");
    assert(Seq::new(6, |i: int| "200 OK"@[i] as u8) =~= status_ok());
    assert(Seq::new(4, |i: int| "\r\n\r\n"@[i] as u8) =~= header_end());
}

/// What a read leads to while the header has not ended, told by the text of the bytes that came
/// in so far: without an empty line among them the search goes on. With one, the server agreed
/// if they hold `200 OK`, and the image is what follows the first empty line; else the download
/// is refused, and the image in the firmware is booted. Nothing goes to flash meanwhile.
pub proof fn header_with_200_ok_opens_the_image(seen: Seq<u8>, data: Seq<u8>, p: int)
    ensures
        ({
            let ok = Seq::new("200 OK"@.len(), |i: int| "200 OK"@[i] as u8);
            let empty_line = Seq::new("\r\n\r\n"@.len(), |i: int| "\r\n\r\n"@[i] as u8);
            let all = seen + data;
            let next = after_data(DownloadView::Header(seen), data);
            &&& pages_on_data(DownloadView::Header(seen), data).len() == 0
            &&& (forall|i: int|
                0 <= i <= all.len() ==> !empty_line.is_prefix_of(#[trigger] all.skip(i))) ==> next
                == DownloadView::Header(all)
            &&& ({
                &&& 0 <= p <= all.len()
                &&& empty_line.is_prefix_of(all.skip(p))
                &&& forall|i: int|
                    0 <= i < p ==> !empty_line.is_prefix_of(#[trigger] all.skip(i))
            }) ==> {
                let agreed = exists|i: int|
                    0 <= i <= all.len() && ok.is_prefix_of(#[trigger] all.skip(i));
                &&& agreed ==> next == DownloadView::Body(all.skip(p + 4))
                &&& !agreed ==> next == DownloadView::Rejected && boot_spec(Some(next))
                    == BootImage::Embedded
            }
        }),
{
    let ok = Seq::new("200 OK"@.len(), |i: int| "200 OK"@[i] as u8);
    let empty_line = Seq::new("\r\n\r\n"@.len(), |i: int| "\r\n\r\n"@[i] as u8);
    let all = seen + data;
    header_texts();
    assert(ok =~= status_ok());
    assert(empty_line =~= header_end());
    found_where_rest_begins_with_needle(all, status_ok());
    found_where_rest_begins_with_needle(all, header_end());
    if let Some(q) = find_spec(all, header_end()) {
        assert(empty_line.is_prefix_of(all.skip(q)));
    }
}

/// What the end of the answer leads to, told by the bytes that came in: where the header has
/// not ended, they are the image if they hold `200 OK`, and else the download is refused. Where
/// it has ended, the download is complete.
pub proof fn end_of_answer_decides_by_200_ok(seen: Seq<u8>, image: Seq<u8>)
    ensures
        ({
            let ok = Seq::new("200 OK"@.len(), |i: int| "200 OK"@[i] as u8);
            let agreed = exists|i: int|
                0 <= i <= seen.len() && ok.is_prefix_of(#[trigger] seen.skip(i));
            let next = after_end(DownloadView::Header(seen));
            &&& pages_on_end(DownloadView::Header(seen)).len() == 0
            &&& agreed ==> next == DownloadView::Body(seen)
            &&& !agreed ==> next == DownloadView::Rejected && boot_spec(Some(next))
                == BootImage::Embedded
        }),
        after_end(DownloadView::Body(image)) == DownloadView::Complete(image.len() as int),
        image.len() <= usize::MAX ==> boot_spec(Some(after_end(DownloadView::Body(image)))) == (
        BootImage::Flash { addr: 0x1018_0000, len: image.len() as usize }),
{
    header_texts();
    let ok = Seq::new("200 OK"@.len(), |i: int| "200 OK"@[i] as u8);
    assert(ok =~= status_ok());
    found_where_rest_begins_with_needle(seen, status_ok());
    assert(seen.skip(0) =~= seen);
}

/// Only a download that came to its end is booted; without one, before its end, or when it was
/// refused, the image in the firmware is. A download that was refused or is complete takes in
/// nothing more, and writes nothing more.
pub proof fn only_a_complete_download_boots(d: DownloadView, data: Seq<u8>)
    ensures
        boot_spec(None) == BootImage::Embedded,
        !(d is Complete) ==> boot_spec(Some(d)) == BootImage::Embedded,
        d matches DownloadView::Complete(len) ==> boot_spec(Some(d)) == (BootImage::Flash {
            addr: 0x1018_0000,
            len: len as usize,
        }),
        d is Rejected || d is Complete ==> {
            &&& after_data(d, data) == d
            &&& after_end(d) == d
            &&& pages_on_data(d, data).len() == 0
            &&& pages_on_end(d).len() == 0
            &&& wanted_spec(d) == 0
        },
        d matches DownloadView::Header(seen) ==> wanted_spec(d) == 1024 - seen.len(),
        d is Body ==> wanted_spec(d) == 1024,
{
}

/// What a read adds to an image, and what goes to flash upon it: the pages that were not full
/// before and now are, each in its place, with the bytes of the image in it.
pub proof fn read_writes_the_pages_that_it_fills(image: Seq<u8>, data: Seq<u8>, i: int, j: int)
    ensures
        ({
            let all = image + data;
            let pages = pages_on_data(DownloadView::Body(image), data);
            let first = image.len() as int / 4096;
            &&& after_data(DownloadView::Body(image), data) == DownloadView::Body(all)
            &&& pages.len() == all.len() as int / 4096 - first
            &&& 0 <= i < pages.len() ==> {
                &&& pages[i].offset == 0x18_0000 + 4096 * (first + i)
                &&& pages[i].data.len() == 4096
                &&& 0 <= j < 4096 ==> pages[i].data[j] == all[4096 * (first + i) + j]
            }
        }),
{
}

/// What goes to flash at the end of an image: one more page where the last one is not full,
/// with the bytes that are left and zeros behind them; nothing else.
pub proof fn end_writes_the_page_that_is_not_full(image: Seq<u8>, j: int)
    ensures
        ({
            let pages = pages_on_end(DownloadView::Body(image));
            let first = image.len() as int / 4096;
            &&& pages.len() == (if image.len() as int % 4096 == 0 {
                0int
            } else {
                1
            })
            &&& pages.len() == 1 ==> {
                &&& pages[0].offset == 0x18_0000 + 4096 * first
                &&& pages[0].data.len() == 4096
                &&& 0 <= j < 4096 ==> pages[0].data[j] == (if 4096 * first + j < image.len() {
                    image[4096 * first + j]
                } else {
                    0
                })
            }
        }),
{
}

/// However an answer is cut into reads: if the bytes that were read in search of the end of the
/// header do not hold the text `200 OK`, nothing goes to flash, the download ends refused, and
/// the image in the firmware is booted. If they do, the download ends complete, and the image
/// that came in is booted.
pub proof fn answer_is_taken_exactly_with_200_ok(reads: Seq<Option<Seq<u8>>>)
    requires
        proper_reads(reads),
    ensures
        ({
            let ok = Seq::new("200 OK"@.len(), |i: int| "200 OK"@[i] as u8);
            let seen = header_bytes(reads);
            let agreed = exists|i: int|
                0 <= i <= seen.len() && ok.is_prefix_of(#[trigger] seen.skip(i));
            let d = after_reads(reads);
            &&& !agreed ==> {
                &&& pages_of_reads(reads).len() == 0
                &&& after_end(d) == DownloadView::Rejected
                &&& boot_spec(Some(d)) == BootImage::Embedded
                &&& boot_spec(Some(after_end(d))) == BootImage::Embedded
            }
            &&& agreed ==> {
                &&& after_end(after_end(d)) is Complete
                &&& is_over(d) ==> d == DownloadView::Complete(image_of(reads).len() as int)
            }
        }),
{
    header_texts();
    let ok = Seq::new("200 OK"@.len(), |i: int| "200 OK"@[i] as u8);
    assert(ok =~= status_ok());
    found_where_rest_begins_with_needle(header_bytes(reads), status_ok());
    reads_so_far(reads);
}

/// An answer that comes in one read and then ends: without the text `200 OK` in it nothing goes
/// to flash and the image in the firmware is booted. With it, what follows the first empty line
/// is booted, or all of the answer where it has none.
pub proof fn short_answer_is_taken_exactly_with_200_ok(answer: Seq<u8>, p: int)
    requires
        0 < answer.len() <= 1024,
    ensures
        ({
            let ok = Seq::new("200 OK"@.len(), |i: int| "200 OK"@[i] as u8);
            let empty_line = Seq::new("\r\n\r\n"@.len(), |i: int| "\r\n\r\n"@[i] as u8);
            let agreed = exists|i: int|
                0 <= i <= answer.len() && ok.is_prefix_of(#[trigger] answer.skip(i));
            let start = DownloadView::Header(Seq::empty());
            let d = after_data(start, answer);
            let end = after_end(after_end(d));
            let pages = pages_on_data(start, answer) + pages_on_end(d) + pages_on_end(after_end(d));
            &&& !agreed ==> {
                &&& end == DownloadView::Rejected
                &&& pages.len() == 0
                &&& boot_spec(Some(end)) == BootImage::Embedded
            }
            &&& agreed && (forall|i: int|
                0 <= i <= answer.len() ==> !empty_line.is_prefix_of(#[trigger] answer.skip(i)))
                ==> end == DownloadView::Complete(answer.len() as int)
            &&& agreed && ({
                &&& 0 <= p <= answer.len()
                &&& empty_line.is_prefix_of(answer.skip(p))
                &&& forall|i: int|
                    0 <= i < p ==> !empty_line.is_prefix_of(#[trigger] answer.skip(i))
            }) ==> end == DownloadView::Complete(answer.len() - p - 4)
        }),
{
    let start = Seq::<u8>::empty();
    assert(start + answer =~= answer);
    header_with_200_ok_opens_the_image(start, answer, p);
    header_texts();
    let ok = Seq::new("200 OK"@.len(), |i: int| "200 OK"@[i] as u8);
    let empty_line = Seq::new("\r\n\r\n"@.len(), |i: int| "\r\n\r\n"@[i] as u8);
    assert(ok =~= status_ok());
    assert(empty_line =~= header_end());
    end_of_answer_decides_by_200_ok(answer, answer);
    found_where_rest_begins_with_needle(answer, status_ok());
    found_where_rest_begins_with_needle(answer, header_end());
    if let Some(q) = find_spec(answer, header_end()) {
        assert(empty_line.is_prefix_of(answer.skip(q)));
    }
}

/// Half a megabyte of image can be taken in, and no read is turned away before the page that
/// would lie behind it is full. What comes in of the header always fits.
pub proof fn download_has_room_for_half_a_megabyte(d: Download, n: nat)
    ensures
        match d {
            Download::Body(writer) => {
                &&& d.data_fits(n as int) <==> writer@.len() + n < 0x8_1000
                &&& d.end_fits() <==> writer@.len() <= 0x8_0000
            },
            _ => d.data_fits(n as int) && d.end_fits(),
        },
{
}

/// What the contracts say of a download is said of the bytes, the image and the length that it
/// really holds.
pub proof fn download_is_seen_as_it_is(d: Download)
    ensures
        match d {
            Download::Header(seen) => d@ == DownloadView::Header(seen@),
            Download::Body(writer) => d@ == DownloadView::Body(writer@),
            Download::Rejected => d@ == DownloadView::Rejected,
            Download::Complete(len) => d@ == DownloadView::Complete(len as int),
        },
{
}

} // verus!
