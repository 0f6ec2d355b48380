use pulley_leds::bytes::{find, split_once};
use pulley_leds::target::{boot_target, parse_decimal, parse_target, request};

#[test]
fn uri_with_port() {
    let t = parse_target(b"192.168.1.20:8000/guests/app.pulley").unwrap();
    assert_eq!(t.octets, [192, 168, 1, 20]);
    assert_eq!(t.port, 8000);
    assert_eq!(t.host, b"192.168.1.20".to_vec());
    assert_eq!(t.path, b"guests/app.pulley".to_vec());
}

#[test]
fn uri_without_port() {
    let t = parse_target(b"10.0.0.1/").unwrap();
    assert_eq!(t.octets, [10, 0, 0, 1]);
    assert_eq!(t.port, 80);
    assert_eq!(t.path, Vec::<u8>::new());
}

#[test]
fn bad_numbers_fall_back() {
    let t = parse_target(b"256.x..+7:70000/p").unwrap();
    assert_eq!(t.octets, [0, 0, 0, 7]);
    assert_eq!(t.port, 80);
    let t = parse_target(b"1.2.3.4:/p").unwrap();
    assert_eq!(t.port, 80);
    let t = parse_target(b"1.2.3.4:65535/p").unwrap();
    assert_eq!(t.port, 65535);
}

#[test]
fn fifth_part_is_ignored() {
    let t = parse_target(b"1.2.3.4.5/p").unwrap();
    assert_eq!(t.octets, [1, 2, 3, 4]);
    assert_eq!(t.host, b"1.2.3.4.5".to_vec());
}

#[test]
fn uri_that_names_nothing() {
    assert!(parse_target(b"1.2.3.4").is_none());
    assert!(parse_target(b"1.2.3/p").is_none());
    assert!(parse_target(b"example:80/p").is_none());
    assert!(parse_target(b"").is_none());
    assert!(parse_target(b"http://1.2.3.4/p").is_none());
}

#[test]
fn colon_and_slash_split_only_once() {
    let t = parse_target(b"1.2.3.4:80:81/a:b/c").unwrap();
    assert_eq!(t.port, 80);
    assert_eq!(t.host, b"1.2.3.4".to_vec());
    assert_eq!(t.path, b"a:b/c".to_vec());
}

#[test]
fn numbers() {
    assert_eq!(parse_decimal(b"0", 255), Some(0));
    assert_eq!(parse_decimal(b"000255", 255), Some(255));
    assert_eq!(parse_decimal(b"+255", 255), Some(255));
    assert_eq!(parse_decimal(b"256", 255), None);
    assert_eq!(parse_decimal(b"", 255), None);
    assert_eq!(parse_decimal(b"+", 255), None);
    assert_eq!(parse_decimal(b"++1", 255), None);
    assert_eq!(parse_decimal(b"-0", 255), None);
    assert_eq!(parse_decimal(b" 1", 255), None);
    assert_eq!(parse_decimal(b"99999999999999999999", 65535), None);
    for n in 0..=65535u16 {
        assert_eq!(parse_decimal(n.to_string().as_bytes(), 65535), Some(n));
    }
}

#[test]
fn numbers_as_in_std() {
    for text in ["1", "01", "+1", "-1", "1.", "300", "", "+", "a", "255", "256", "+255", "0x1"] {
        assert_eq!(
            parse_decimal(text.as_bytes(), 255),
            text.parse::<u8>().ok().map(|n| n as u16)
        );
    }
}

#[test]
fn request_for_a_file() {
    let t = parse_target(b"10.1.2.3:8080/a/b.pulley").unwrap();
    assert_eq!(
        request(&t),
        b"GET /a/b.pulley HTTP/1.1\r\nHost: 10.1.2.3\r\nConnection: close\r\n\r\n".to_vec()
    );
}

#[test]
fn search_and_split() {
    assert_eq!(find(b"abcabc", b"ca"), Some(2));
    assert_eq!(find(b"abcabc", b"abc"), Some(0));
    assert_eq!(find(b"ab", b"abc"), None);
    assert_eq!(find(b"aab", b"b"), Some(2));
    assert_eq!(split_once(b"a.b.c", b'.'), Some((&b"a"[..], &b"b.c"[..])));
    assert_eq!(split_once(b"abc", b'.'), None);
}

#[test]
fn image_is_fetched_from_the_stored_uri() {
    let mut config = [0u8; 256];
    config[..14].copy_from_slice(b"10.0.0.7:81/ab");
    let t = boot_target(&config).unwrap();
    assert_eq!(t.octets, [10, 0, 0, 7]);
    assert_eq!(t.port, 81);
    assert_eq!(t.host, b"10.0.0.7".to_vec());
    assert_eq!(t.path, b"ab".to_vec());
}

#[test]
fn nothing_is_fetched_without_a_uri_that_names_something() {
    assert!(boot_target(&[0xffu8; 256]).is_none());
    assert!(boot_target(&[0u8; 256]).is_none());
    assert!(boot_target(&[b'/'; 256]).is_none());
    let mut config = [0u8; 256];
    config[..9].copy_from_slice(b"example/p");
    assert!(boot_target(&config).is_none());
    config[..9].copy_from_slice(b"1.2.3.4/\xc0");
    assert!(boot_target(&config).is_none());
}
