use pulley_leds::flash::{FlashPage, PageWriter, FLASH_SIZE, PAGE_SIZE, WASM_FLASH_PTR, WASM_OFFSET};
use pulley_leds::ota::{boot_image, join_retry_ticks, socket_timeout_ticks, BootImage, Download};

const HEAD: &[u8] = b"HTTP/1.1 200 OK\r\nContent-Length: 9\r\n\r\n";

fn body(len: usize) -> Vec<u8> {
    (0..len).map(|i| (i * 7 + i / 251) as u8).collect()
}

/// Plays an answer to a download, at most `step` bytes at a time.
fn play(answer: &[u8], step: usize) -> (Download, Vec<FlashPage>) {
    let mut download = Download::new();
    let mut pages = Vec::new();
    let mut at = 0;
    loop {
        match download {
            Download::Rejected | Download::Complete(_) => return (download, pages),
            _ => {}
        }
        let n = step.min(download.wanted()).min(answer.len() - at);
        if n > 0 {
            assert!(download.has_room(n));
            let (next, more) = download.on_data(&answer[at..at + n]);
            download = next;
            pages.extend(more);
            at += n;
        } else {
            assert!(download.has_room_for_end());
            let (next, more) = download.on_end();
            download = next;
            pages.extend(more);
        }
    }
}

fn flashed(pages: &[FlashPage]) -> Vec<u8> {
    let mut flash = vec![0xffu8; FLASH_SIZE as usize];
    for page in pages {
        let at = page.offset as usize;
        flash[at..page.end() as usize].copy_from_slice(&page.data);
    }
    flash
}

#[test]
fn image_arrives_however_it_is_cut() {
    for len in [1, 9, 1024, 4095, 4096, 4097, 10_000] {
        let image = body(len);
        let answer = [HEAD, &image[..]].concat();
        for step in [1, 3, 38, 39, 40, 500, 1024] {
            let (download, pages) = play(&answer, step);
            assert!(matches!(download, Download::Complete(n) if n == len));
            assert_eq!(pages.len(), (len + 4095) / 4096);
            let at = WASM_OFFSET as usize;
            let flash = flashed(&pages);
            assert_eq!(&flash[at..at + len], &image[..]);
            assert!(flash[..at].iter().all(|b| *b == 0xff));
            assert_eq!(
                boot_image(&Some(download)),
                BootImage::Flash { addr: WASM_FLASH_PTR, len }
            );
        }
    }
}

#[test]
fn last_page_ends_in_zeros() {
    let (_, pages) = play(&[HEAD, &[1u8; 5000][..]].concat(), 1024);
    assert_eq!(pages.len(), 2);
    assert_eq!(pages[0].offset, 0x18_0000);
    assert_eq!(pages[1].offset, 0x18_1000);
    assert_eq!(pages[1].data.len(), PAGE_SIZE);
    assert!(pages[1].data[..904].iter().all(|b| *b == 1));
    assert!(pages[1].data[904..].iter().all(|b| *b == 0));
}

#[test]
fn empty_body_is_an_image_of_no_length() {
    let (download, pages) = play(HEAD, 1024);
    assert!(pages.is_empty());
    assert_eq!(
        boot_image(&Some(download)),
        BootImage::Flash { addr: 0x1018_0000, len: 0 }
    );
}

#[test]
fn server_that_does_not_agree() {
    let (download, pages) = play(b"HTTP/1.1 404 Not Found\r\n\r\nsorry", 1024);
    assert!(matches!(download, Download::Rejected));
    assert!(pages.is_empty());
    assert_eq!(boot_image(&Some(download)), BootImage::Embedded);
}

#[test]
fn no_answer_at_all() {
    let (download, pages) = play(b"", 1024);
    assert!(matches!(download, Download::Rejected));
    assert!(pages.is_empty());
}

#[test]
fn header_that_breaks_off_is_taken_for_the_image() {
    let answer = b"HTTP/1.1 200 OK\r\n";
    let (download, pages) = play(answer, 1024);
    assert!(matches!(download, Download::Complete(17)));
    assert_eq!(&pages[0].data[..17], answer);
}

#[test]
fn header_that_is_too_long_is_taken_for_the_image() {
    let mut answer = b"HTTP/1.1 200 OK\r\n".to_vec();
    answer.resize(1500, b'x');
    let (download, pages) = play(&answer, 1000);
    assert!(matches!(download, Download::Complete(1500)));
    assert_eq!(&pages[0].data[..1500], &answer[..]);
}

#[test]
fn reads_ask_for_what_is_left_of_the_header() {
    let download = Download::new();
    assert_eq!(download.wanted(), 1024);
    let (download, _) = download.on_data(&[b'x'; 1000]);
    assert_eq!(download.wanted(), 24);
    let (download, _) = Download::new().on_data(HEAD);
    assert!(matches!(&download, Download::Body(_)));
    assert_eq!(download.wanted(), 1024);
    assert_eq!(Download::Rejected.wanted(), 0);
}

#[test]
fn end_states_stay() {
    let (download, pages) = Download::Rejected.on_data(b"x");
    assert!(matches!(download, Download::Rejected) && pages.is_empty());
    let (download, page) = Download::Complete(7).on_end();
    assert!(matches!(download, Download::Complete(7)) && page.is_none());
}

#[test]
fn flash_has_room_for_half_a_megabyte() {
    let mut writer = PageWriter::new();
    assert!(writer.fits(0x8_0fff));
    assert!(!writer.fits(0x8_1000));
    assert!(!writer.fits(usize::MAX));
    let pages = writer.feed(&vec![9u8; 0x8_0000]);
    assert_eq!(pages.len(), 128);
    assert_eq!(pages[127].end(), FLASH_SIZE);
    assert!(writer.tail_fits());
    assert!(writer.fits(4095));
    assert!(!writer.fits(4096));
    assert!(writer.feed(&[1]).is_empty());
    assert!(!writer.tail_fits());
}

#[test]
fn writer_reports_the_length() {
    let mut writer = PageWriter::new();
    assert!(writer.feed(&[1, 2, 3]).is_empty());
    let (page, len) = writer.finish();
    assert_eq!(len, 3);
    assert_eq!(&page.unwrap().data[..4], &[1, 2, 3, 0]);
    let (page, len) = PageWriter::new().finish();
    assert!(page.is_none());
    assert_eq!(len, 0);
}

#[test]
fn without_a_download_the_firmware_boots_its_own_image() {
    assert_eq!(boot_image(&None), BootImage::Embedded);
}

#[test]
fn waiting_times() {
    assert_eq!(socket_timeout_ticks(), 10_000_000);
    assert_eq!(join_retry_ticks(), 1_000_000);
}

#[test]
fn agreement_must_come_with_the_header() {
    let answer = b"HTTP/1.1 404 Not Found\r\n\r\n200 OK";
    let (download, pages) = play(answer, 26);
    assert!(matches!(download, Download::Rejected));
    assert!(pages.is_empty());
    assert_eq!(boot_image(&Some(download)), BootImage::Embedded);
    let (download, _) = play(answer, 1024);
    assert_eq!(
        boot_image(&Some(download)),
        BootImage::Flash { addr: WASM_FLASH_PTR, len: 6 }
    );
}

#[test]
fn unended_header_boots_only_where_the_server_agrees() {
    let (download, _) = play(b"HTTP/1.1 200 OK\r\n", 4);
    assert_eq!(
        boot_image(&Some(download)),
        BootImage::Flash { addr: WASM_FLASH_PTR, len: 17 }
    );
    let (download, pages) = play(b"HTTP/1.1 500 Oh\r\n", 4);
    assert!(pages.is_empty());
    assert_eq!(boot_image(&Some(download)), BootImage::Embedded);
}

#[test]
fn bytes_behind_an_early_gap_still_belong_to_the_image() {
    let (download, _) = Download::new().on_data(b"HTTP/1.1 200 OK\r\n");
    let (download, page) = download.on_end();
    assert!(page.is_none());
    let (download, pages) = download.on_data(b"\r\nab");
    assert!(pages.is_empty());
    let (download, page) = download.on_end();
    assert_eq!(&page.unwrap().data[..22], b"HTTP/1.1 200 OK\r\n\r\nab\0");
    assert!(matches!(download, Download::Complete(21)));
}
