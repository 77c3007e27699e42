use tg_unblock::ipv4::{format_ipv4, parse_ipv4};
use tg_unblock::ipv6::format_ipv6;
use tg_unblock::telegram::{dc_from_ip, dc_from_text, is_telegram_ip, ws_url};

#[test]
fn parse_ipv4_accepts_dotted_quads() {
    assert_eq!(parse_ipv4("149.154.167.51"), Some([149, 154, 167, 51]));
    assert_eq!(parse_ipv4("0.0.0.0"), Some([0, 0, 0, 0]));
    assert_eq!(parse_ipv4("255.255.255.255"), Some([255, 255, 255, 255]));
}

#[test]
fn parse_ipv4_rejects_other_text() {
    assert_eq!(parse_ipv4(""), None);
    assert_eq!(parse_ipv4("1.2.3"), None);
    assert_eq!(parse_ipv4("1.2.3.4.5"), None);
    assert_eq!(parse_ipv4("256.1.1.1"), None);
    assert_eq!(parse_ipv4("01.2.3.4"), None);
    assert_eq!(parse_ipv4("1.2.3.04"), None);
    assert_eq!(parse_ipv4("1.2.3.4 "), None);
    assert_eq!(parse_ipv4("1..3.4"), None);
    assert_eq!(parse_ipv4("1.2.3.1000"), None);
    assert_eq!(parse_ipv4("web.telegram.org"), None);
    assert_eq!(parse_ipv4("::1"), None);
}

#[test]
fn ipv4_text_round_trips() {
    for o in [[0u8, 0, 0, 0], [1, 2, 3, 4], [10, 100, 200, 255], [149, 154, 175, 50]] {
        let s = format_ipv4(o);
        assert_eq!(parse_ipv4(&s), Some(o));
    }
    assert_eq!(format_ipv4([91, 108, 56, 100]), "91.108.56.100");
}

#[test]
fn ipv6_text_is_canonical() {
    assert_eq!(format_ipv6([0x2001, 0xdb8, 0, 0, 0, 0, 0, 1]), "2001:db8::1");
    assert_eq!(format_ipv6([0; 8]), "::");
    assert_eq!(format_ipv6([0, 0, 0, 0, 0, 0, 0, 1]), "::1");
    assert_eq!(format_ipv6([1, 0, 0, 0, 0, 0, 0, 0]), "1::");
    assert_eq!(format_ipv6([1, 0, 2, 3, 4, 5, 6, 7]), "1:0:2:3:4:5:6:7");
    assert_eq!(format_ipv6([1, 0, 0, 2, 0, 0, 3, 4]), "1::2:0:0:3:4");
    assert_eq!(format_ipv6([1, 0, 0, 2, 0, 0, 0, 4]), "1:0:0:2::4");
    assert_eq!(format_ipv6([0xabcd, 0xef01, 0x2345, 0x6789, 0xa, 0xb, 0xc, 0xffff]), "abcd:ef01:2345:6789:a:b:c:ffff");
}

#[test]
fn ipv6_mapped_ipv4_is_dotted() {
    assert_eq!(format_ipv6([0, 0, 0, 0, 0, 0xffff, 0xc00a, 0x2ff]), "::ffff:192.10.2.255");
    assert_eq!(format_ipv6([0, 0, 0, 0, 0, 0, 0xc00a, 0x2ff]), "::c00a:2ff");
}

#[test]
fn dc_table_matches_announced_subnets() {
    assert_eq!(dc_from_ip([149, 154, 160, 1]), Some(1));
    assert_eq!(dc_from_ip([149, 154, 163, 255]), Some(1));
    assert_eq!(dc_from_ip([149, 154, 164, 0]), Some(2));
    assert_eq!(dc_from_ip([149, 154, 167, 51]), Some(2));
    assert_eq!(dc_from_ip([149, 154, 168, 10]), Some(3));
    assert_eq!(dc_from_ip([149, 154, 175, 50]), Some(1));
    assert_eq!(dc_from_ip([149, 154, 200, 1]), Some(2));
    assert_eq!(dc_from_ip([91, 108, 12, 1]), Some(4));
    assert_eq!(dc_from_ip([91, 108, 56, 100]), Some(5));
    assert_eq!(dc_from_ip([91, 108, 8, 1]), Some(3));
    assert_eq!(dc_from_ip([91, 108, 4, 1]), Some(2));
    assert_eq!(dc_from_ip([91, 105, 192, 100]), Some(2));
    assert_eq!(dc_from_ip([185, 76, 151, 1]), Some(2));
    assert_eq!(dc_from_ip([8, 8, 8, 8]), None);
    assert_eq!(dc_from_ip([149, 155, 160, 1]), None);
}

#[test]
fn telegram_addresses_are_recognised_in_text() {
    assert!(is_telegram_ip("149.154.167.51"));
    assert!(is_telegram_ip("91.108.56.100"));
    assert!(!is_telegram_ip("8.8.8.8"));
    assert!(!is_telegram_ip("web.telegram.org"));
    assert!(!is_telegram_ip("149.154.167.051"));
    assert!(!is_telegram_ip("2001:db8::1"));
    assert_eq!(dc_from_text("91.108.12.7"), Some(4));
}

#[test]
fn ws_url_names_the_dc() {
    assert_eq!(ws_url(1), "wss://pluto.web.telegram.org/apiws");
    assert_eq!(ws_url(2), "wss://venus.web.telegram.org/apiws");
    assert_eq!(ws_url(3), "wss://aurora.web.telegram.org/apiws");
    assert_eq!(ws_url(4), "wss://vesta.web.telegram.org/apiws");
    assert_eq!(ws_url(5), "wss://flora.web.telegram.org/apiws");
}
