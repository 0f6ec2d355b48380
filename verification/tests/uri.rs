use pulley_leds::flash::{CONFIG_FLASH_PTR, CONFIG_OFFSET, PAGE_SIZE, WASM_FLASH_PTR, WASM_OFFSET};
use pulley_leds::text::{is_utf8, trimmed_utf8};
use pulley_leds::uri::{config_page, stored_uri, uri_len, CONFIG_LEN};

#[test]
fn uri_ends_at_zero_or_erased_flash() {
    assert_eq!(uri_len(&[65, 66, 0, 67]), 2);
    assert_eq!(uri_len(&[65, 66, 67, 0xff, 0]), 3);
    assert_eq!(uri_len(&[0, 65]), 0);
    assert_eq!(uri_len(&[0xff; 256]), 0);
}

#[test]
fn uri_without_an_end_is_absent() {
    assert_eq!(uri_len(&[65; 256]), 0);
    assert_eq!(stored_uri(&[65; 256]), None);
    assert_eq!(uri_len(&[]), 0);
}

#[test]
fn stored_uri_must_be_text() {
    let mut config = vec![0xffu8; CONFIG_LEN];
    config[..3].copy_from_slice(b"a/b");
    assert_eq!(stored_uri(&config), Some(b"a/b".to_vec()));
    config[0] = 0xc0;
    assert_eq!(stored_uri(&config), None);
}

#[test]
fn saved_uri_is_read_back_trimmed() {
    let page = config_page(b" \t192.168.1.7:9000/app.pulley\r\n").unwrap();
    assert_eq!(page.offset, CONFIG_OFFSET);
    assert_eq!(page.end(), CONFIG_OFFSET + 4096);
    assert_eq!(page.data.len(), PAGE_SIZE);
    assert_eq!(
        stored_uri(&page.data[..CONFIG_LEN]),
        Some(b"192.168.1.7:9000/app.pulley".to_vec())
    );
    assert!(page.data[27..].iter().all(|b| *b == 0));
}

#[test]
fn longest_uri_that_is_read_back() {
    let page = config_page(&[b'x'; 255]).unwrap();
    assert_eq!(stored_uri(&page.data[..CONFIG_LEN]), Some(vec![b'x'; 255]));
    let page = config_page(&[b'x'; 256]).unwrap();
    assert_eq!(stored_uri(&page.data[..CONFIG_LEN]), None);
}

#[test]
fn empty_uri_clears_the_page() {
    let page = config_page(b"  \n").unwrap();
    assert!(page.data.iter().all(|b| *b == 0));
    assert_eq!(stored_uri(&page.data[..CONFIG_LEN]), None);
}

#[test]
fn zero_byte_cuts_the_uri() {
    let page = config_page(b"ab\0cd").unwrap();
    assert_eq!(stored_uri(&page.data[..CONFIG_LEN]), Some(b"ab".to_vec()));
}

#[test]
fn datagram_that_is_no_text_is_ignored() {
    assert!(config_page(&[0x31, 0xff]).is_none());
    assert!(config_page(&[0xe2, 0x82]).is_none());
}

#[test]
fn text_is_checked_and_trimmed() {
    assert!(is_utf8("\u{20ac}".as_bytes()));
    assert!(!is_utf8(&[0x80]));
    assert_eq!(
        trimmed_utf8("\u{3000}\u{a0}a b\u{2003}\u{85}".as_bytes()),
        Some(b"a b".to_vec())
    );
    assert_eq!(trimmed_utf8("\u{200b}x".as_bytes()), Some("\u{200b}x".as_bytes().to_vec()));
    assert_eq!(trimmed_utf8(&[0xff]), None);
    let once = trimmed_utf8(b" a ").unwrap();
    assert_eq!(trimmed_utf8(&once), Some(once.clone()));
}

#[test]
fn config_page_lies_in_front_of_the_image() {
    assert_eq!(CONFIG_OFFSET + 4096, WASM_OFFSET);
    assert_eq!(WASM_FLASH_PTR - CONFIG_FLASH_PTR, PAGE_SIZE);
    assert_eq!(WASM_FLASH_PTR, 0x1000_0000 + WASM_OFFSET as usize);
}

#[test]
fn trimming_keeps_zero_bytes() {
    assert_eq!(trimmed_utf8(b" \0 a\0\n"), Some(b"\0 a\0".to_vec()));
}
