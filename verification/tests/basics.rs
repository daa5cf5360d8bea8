//! The building blocks: texts, their parts, addresses, times.

use netchecker::engine::bypass::{port_list, sounds_like_tunnel, Confidence};
use netchecker::engine::http::parse;
use netchecker::engine::trace::{is_private, same_24};
use netchecker::net::{IpAddr, Ipv4Addr};
use netchecker::scan::{
    contains, join, lines, pad_left, pad_right, part, part_back, part_by, since_last, since_text,
    split, strip_prefix, trim, trim_end, until_any, until_first, words,
};
use netchecker::text::{comes_before, decimal, decimal2, lower, parse_u16, same};
use netchecker::time::{Duration, SystemTime};

fn owned(a: &str, b: &str) -> Option<(String, String)> {
    Some((a.to_string(), b.to_string()))
}

#[test]
fn letters_of_every_script_are_lowered() {
    assert_eq!(lower("YaNDeX.RU"), "yandex.ru");
    assert_eq!(lower("ПРОВЕРКА Ω"), "проверка ω");
    assert_eq!(lower("İ").chars().count(), 2);
}

#[test]
fn numbers_are_written_and_read() {
    assert_eq!(decimal(0), "0");
    assert_eq!(decimal(340282366920938463463374607431768211455), u128::MAX.to_string());
    assert_eq!(decimal2(7), "07");
    assert_eq!(decimal2(123), "123");
    assert_eq!(parse_u16("+80"), Some(80));
    assert_eq!(parse_u16("00443"), Some(443));
    assert_eq!(parse_u16("65535"), Some(65535));
    assert_eq!(parse_u16("65536"), None);
    assert_eq!(parse_u16(""), None);
    assert_eq!(parse_u16("+"), None);
    assert_eq!(parse_u16("4a"), None);
}

#[test]
fn texts_are_compared_by_their_characters() {
    assert!(same("обход", "обход"));
    assert!(!same("обход", "обходы"));
    for (a, b) in [("a", "b"), ("a", "ab"), ("", "a"), ("Z", "a"), ("я", "\u{10000}")] {
        assert!(comes_before(a, b), "{a} {b}");
        assert!(!comes_before(b, a), "{a} {b}");
    }
    assert!(!comes_before("a", "a"));
}

#[test]
fn texts_are_taken_apart() {
    assert_eq!(until_first("host:80:x", ':'), "host");
    assert_eq!(until_first("host", ':'), "host");
    assert_eq!(until_any("host?x/y", &['/', '?']), "host");
    assert_eq!(since_last("a@b@c", '@'), "c");
    assert_eq!(since_last("abc", '@'), "abc");
    assert_eq!(part("a=b=c", '='), owned("a", "b=c"));
    assert_eq!(part("abc", '='), None);
    assert_eq!(part_back("a:b:c", ':'), owned("a:b", "c"));
    assert_eq!(part_by("head\r\n\r\nbody\r\n\r\n", "\r\n\r\n"), owned("head", "body\r\n\r\n"));
    assert_eq!(since_text("a — b — c", " — "), "c");
    assert_eq!(since_text("abc", " — "), "abc");
    assert_eq!(strip_prefix("https://x", "https://"), Some("x".to_string()));
    assert_eq!(strip_prefix("http", "https"), None);
    assert_eq!(split("a..b", '.'), vec!["a", "", "b"]);
    assert!(contains("abcabd", "abd") && !contains("abc", "abcd") && contains("abc", ""));
}

#[test]
fn blanks_of_every_kind_are_trimmed() {
    assert_eq!(trim("\u{3000}\t a b \u{a0}\n"), "a b");
    assert_eq!(trim(" \r\n "), "");
    assert_eq!(trim_end("ya.ru...", '.'), "ya.ru");
    assert_eq!(words(" one\u{2003}two\tthree "), vec!["one", "two", "three"]);
    assert_eq!(lines("a\r\nb\n\nc\n"), vec!["a", "b", "", "c"]);
}

#[test]
fn texts_are_put_together() {
    let list = vec!["a".to_string(), "".to_string(), "c".to_string()];
    assert_eq!(join(&list, ", "), "a, , c");
    assert_eq!(join(&vec![], ", "), "");
    assert_eq!(pad_left("сеть", 6), "  сеть");
    assert_eq!(pad_right("сеть", 6), "сеть  ");
    assert_eq!(pad_right("подключение", 6), "подключение");
}

#[test]
fn broken_characters_are_replaced() {
    let response = parse(b"HTTP/1.1 200 OK\r\n\r\n\xD0\x9F\xFF!", Duration::zero());
    assert_eq!(response.status, 200);
    assert_eq!(response.body, "П\u{FFFD}!");
}

#[test]
fn addresses_know_their_ranges() {
    let v4 = Ipv4Addr::new;
    assert!(v4(0, 0, 0, 0).is_unspecified() && !v4(0, 0, 0, 1).is_unspecified());
    assert!(v4(127, 1, 2, 3).is_loopback() && !v4(128, 0, 0, 1).is_loopback());
    assert!(v4(169, 254, 9, 9).is_link_local() && !v4(169, 253, 9, 9).is_link_local());
    for (addr, private) in [
        (v4(10, 0, 0, 1), true),
        (v4(172, 15, 255, 255), false),
        (v4(172, 16, 0, 0), true),
        (v4(172, 31, 255, 255), true),
        (v4(172, 32, 0, 0), false),
        (v4(192, 168, 1, 1), true),
        (v4(192, 169, 1, 1), false),
    ] {
        assert_eq!(addr.is_private(), private, "{addr:?}");
        assert_eq!(is_private(addr), private, "{addr:?}");
    }
    assert!(same_24(v4(10, 0, 0, 1), v4(10, 0, 0, 254)));
    assert!(!same_24(v4(10, 0, 0, 1), v4(10, 0, 1, 1)));
    assert_eq!(IpAddr::V6("::1".to_string()).text(), "::1");
    assert_eq!(v4(255, 0, 10, 9).text(), "255.0.10.9");
}

#[test]
fn times_are_counted_in_whole_units() {
    let d = Duration::from_nanos(2_999_999_999);
    assert_eq!(d.as_millis(), 2_999);
    assert_eq!(d.as_secs(), 2);
    assert_eq!(d.min(Duration::from_secs(2)), Duration::from_secs(2));
    assert_eq!(d.max(Duration::from_secs(2)), d);
    let early = SystemTime::from_unix(10, 900_000_000);
    let late = SystemTime::from_unix(12, 100_000_000);
    assert_eq!(late.duration_since(early), Some(Duration::from_millis(1200)));
    assert_eq!(early.duration_since(late), None);
}

#[test]
fn tunnels_are_known_by_their_names() {
    assert!(sounds_like_tunnel("wintun userspace tunnel"));
    assert!(!sounds_like_tunnel("realtek pcie gbe"));
    assert!(Confidence::Active.is_stronger(Confidence::Found));
    assert!(!Confidence::Found.is_stronger(Confidence::Found));
    assert!(Confidence::Active > Confidence::Found);
    assert!(port_list().iter().any(|(port, _)| *port == 1080));
}
