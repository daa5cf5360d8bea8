//! What goes over the wire and comes back: TLS, DNS, HTTP, ICMP, certificates.

use netchecker::engine::cert::{from_handshake, matches_name, parse, tlv, Info};
use netchecker::engine::dns::{decode_answer, encode_query, Answer};
use netchecker::engine::http::{host_of, looks_like_stub, Response};
use netchecker::engine::icmp::{checksum, echo_request, strip_ip_header, ReplyKind};
use netchecker::engine::probe::TcpOutcome;
use netchecker::engine::tls::{
    classify_response, client_hello_versioned, handshake_messages, Outcome,
};
use netchecker::net::Ipv4Addr;
use netchecker::time::Duration;

fn info(subject: &str, issuer: &str, names: &[&str]) -> Info {
    Info {
        subject: Some(subject.into()),
        issuer: Some(issuer.into()),
        names: names.iter().map(|s| s.to_string()).collect(),
    }
}

#[test]
fn wildcard_covers_exactly_one_level() {
    assert!(matches_name("*.example.com", "www.example.com"));
    assert!(!matches_name("*.example.com", "a.b.example.com"));
    assert!(!matches_name("*.example.com", "example.com"));
    assert!(matches_name("example.com", "example.com"));
}

#[test]
fn certificate_for_another_site_does_not_cover_ours() {
    let cert = info("provider-filter", "provider-filter", &["*.provider.ru"]);
    assert!(!cert.covers("discord.com"));
    assert!(cert.self_signed());
}

#[test]
fn real_certificate_covers_its_names() {
    let cert = info("*.example.com", "Some CA", &["example.com", "*.example.com"]);
    assert!(cert.covers("example.com"));
    assert!(cert.covers("www.example.com"));
    assert!(!cert.self_signed());
}

#[test]
fn trailing_dot_in_domain_is_ignored() {
    let cert = info("example.com", "CA", &["example.com"]);
    assert!(cert.covers("example.com."));
}

#[test]
fn broken_input_does_not_panic() {
    assert!(parse(&[]).is_none());
    assert!(parse(&[0x30, 0x82, 0xFF]).is_none());
    assert!(parse(&[0x30, 0x03, 0x30, 0x01, 0x00]).is_none());
    assert!(from_handshake(&[(11, vec![0, 0, 3, 0, 0])]).is_none());
}

#[test]
fn long_form_length_is_read_correctly() {
    // A SEQUENCE of 300 bytes: 0x82 says that the length takes two bytes.
    let mut der = vec![0x30, 0x82, 0x01, 0x2C];
    der.extend(vec![0u8; 300]);
    let element = tlv(&der, 0).unwrap();
    assert_eq!(element.tag, 0x30);
    assert_eq!(element.end - element.start, 300);
}

#[test]
fn query_is_encoded_in_wire_format() {
    let q = encode_query(0xABCD, "ya.ru").unwrap();
    assert_eq!(&q[0..2], &[0xAB, 0xCD]);
    assert_eq!(&q[4..6], &[0, 1], "there must be exactly one question");
    // 2 "ya" 2 "ru" 0
    assert_eq!(&q[12..], &[2, b'y', b'a', 2, b'r', b'u', 0, 0, 1, 0, 1]);
}

#[test]
fn overlong_label_is_rejected() {
    let long = "a".repeat(64);
    assert!(encode_query(1, &long).is_err());
}

#[test]
fn answer_with_one_address_is_decoded() {
    let mut packet = vec![
        0xAB, 0xCD, // id
        0x81, 0x80, // flags, rcode 0
        0, 1, // questions
        0, 1, // answers
        0, 0, 0, 0,
    ];
    packet.extend_from_slice(&[2, b'y', b'a', 2, b'r', b'u', 0]);
    packet.extend_from_slice(&[0, 1, 0, 1]); // type and class of the question
    packet.extend_from_slice(&[0xC0, 0x0C]); // the name, by reference
    packet.extend_from_slice(&[0, 1, 0, 1]); // A, IN
    packet.extend_from_slice(&300u32.to_be_bytes());
    packet.extend_from_slice(&[0, 4]);
    packet.extend_from_slice(&[77, 88, 55, 242]);

    let answer = decode_answer(&packet).unwrap();
    assert_eq!(answer.addresses, vec![Ipv4Addr::new(77, 88, 55, 242)]);
    assert_eq!(answer.rcode, 0);
    assert_eq!(answer.min_ttl, Some(300));
}

#[test]
fn truncated_packet_does_not_panic() {
    let mut packet = vec![0, 1, 0x81, 0x80, 0, 1, 0, 1, 0, 0, 0, 0];
    packet.extend_from_slice(&[2, b'y', b'a']); // the name breaks off
    assert!(decode_answer(&packet).is_err() || decode_answer(&packet).unwrap().is_empty());
}

#[test]
fn stub_answers_are_recognised() {
    let stub = Answer {
        addresses: vec![Ipv4Addr::new(0, 0, 0, 0)],
        rcode: 0,
        min_ttl: None,
        elapsed: Duration::zero(),
    };
    assert!(stub.is_blackhole());

    let live = Answer {
        addresses: vec![Ipv4Addr::new(77, 88, 55, 242)],
        rcode: 0,
        min_ttl: None,
        elapsed: Duration::zero(),
    };
    assert!(!live.is_blackhole());
}

fn response(status: u16, body: &str, location: Option<&str>) -> Response {
    Response {
        status,
        location: location.map(str::to_string),
        body: body.to_string(),
        elapsed: Duration::from_millis(30),
    }
}

#[test]
fn status_and_headers_are_parsed() {
    let raw = b"HTTP/1.1 302 Found\r\nLocation: http://block.isp.ru/\r\n\r\n<html>";
    let parsed = netchecker::engine::http::parse(raw, Duration::from_millis(10));
    assert_eq!(parsed.status, 302);
    assert_eq!(parsed.location.as_deref(), Some("http://block.isp.ru/"));
}

#[test]
fn stub_wording_is_recognised() {
    let stub = response(200, "<h1>Доступ ограничен по решению суда</h1>", None);
    assert!(looks_like_stub(&stub, "example.com").is_some());
}

#[test]
fn redirect_to_own_domain_is_not_a_stub() {
    let redirect = response(301, "", Some("https://www.example.com/"));
    assert!(looks_like_stub(&redirect, "example.com").is_none());
}

#[test]
fn redirect_to_a_foreign_domain_is_suspicious() {
    let redirect = response(302, "", Some("http://blocked.provider.ru/notice"));
    assert!(looks_like_stub(&redirect, "example.com").is_some());
}

#[test]
fn ordinary_page_is_left_alone() {
    let page = response(200, "<html><body>Пример страницы</body></html>", None);
    assert!(looks_like_stub(&page, "example.com").is_none());
}

#[test]
fn host_is_extracted_from_url() {
    assert_eq!(host_of("http://a.b.ru:8080/x?y=1").as_deref(), Some("a.b.ru"));
    assert_eq!(host_of("не ссылка"), None);
}

#[test]
fn checksum_of_packet_with_its_own_sum_is_zero() {
    let packet = echo_request(0x1234, 1);
    assert_eq!(checksum(&packet), 0);
}

#[test]
fn ip_header_is_stripped_only_when_present() {
    let mut with_header = vec![0x45, 0, 0, 0, 0, 0, 0, 0, 0, 0, 0, 0, 0, 0, 0, 0, 0, 0, 0, 0];
    with_header.extend_from_slice(&[0, 0, 0, 0, 0, 0, 0, 0]);
    assert_eq!(strip_ip_header(&with_header).unwrap().len(), 8);

    let bare = vec![0u8, 0, 0, 0, 0, 0, 0, 0];
    assert_eq!(strip_ip_header(&bare).unwrap().len(), 8);
}

#[test]
fn response_kinds_are_classified() {
    assert!(ReplyKind::TtlExpired.got_response());
    assert!(!ReplyKind::Timeout.got_response());
    assert!(!ReplyKind::Error.got_response());
}

#[test]
fn outcomes_describe_themselves() {
    assert!(TcpOutcome::Timeout.describe().contains("тайм-аут"));
    assert!(TcpOutcome::Open { rtt: Duration::from_millis(12) }.is_open());
}

/// An ordinary probe offers TLS 1.3.
fn client_hello(sni: &str) -> Vec<u8> {
    client_hello_versioned(sni, true)
}

#[test]
fn hello_offers_a_key_share_for_tls13() {
    let hello = client_hello("example.com");
    let key_share = [0x00u8, 0x33];
    assert!(
        hello.windows(2).any(|w| w == key_share),
        "no key_share extension in the ClientHello"
    );
}

#[test]
fn hello_is_a_well_formed_tls_record() {
    let hello = client_hello("example.com");
    assert_eq!(hello[0], 0x16, "the record must be a handshake");
    let record_len = u16::from_be_bytes([hello[3], hello[4]]) as usize;
    assert_eq!(record_len, hello.len() - 5, "the record length must agree");

    let handshake_len =
        ((hello[6] as usize) << 16) | ((hello[7] as usize) << 8) | hello[8] as usize;
    assert_eq!(handshake_len, hello.len() - 9, "the handshake length must agree");
}

#[test]
fn hello_carries_the_requested_name() {
    let hello = client_hello("rutracker.org");
    let needle = b"rutracker.org";
    assert!(
        hello.windows(needle.len()).any(|w| w == needle),
        "the name is not in the ClientHello"
    );
}

#[test]
fn different_names_give_different_packets() {
    let a = client_hello("a.example");
    let b = client_hello("bb.example");
    assert_ne!(a, b);
}

#[test]
fn certificate_mode_hello_offers_no_tls13() {
    let hello = client_hello_versioned("example.com", false);
    for extension in [[0x00u8, 0x2B], [0x00, 0x33]] {
        assert!(
            !hello.windows(2).any(|w| w == extension),
            "extensions of TLS 1.3 are left in the probe for the certificate"
        );
    }
}

#[test]
fn handshake_messages_are_reassembled_across_records() {
    // A message of type 11 with 6 bytes, laid out over two records.
    let message = [11u8, 0, 0, 6, 1, 2, 3, 4, 5, 6];
    let mut stream = Vec::new();
    stream.extend_from_slice(&[0x16, 0x03, 0x03, 0x00, 0x05]);
    stream.extend_from_slice(&message[..5]);
    stream.extend_from_slice(&[0x16, 0x03, 0x03, 0x00, 0x05]);
    stream.extend_from_slice(&message[5..]);

    let messages = handshake_messages(&stream);
    assert_eq!(messages.len(), 1);
    assert_eq!(messages[0].0, 11);
    assert_eq!(messages[0].1, vec![1, 2, 3, 4, 5, 6]);
}

#[test]
fn truncated_records_do_not_panic() {
    assert!(handshake_messages(&[0x16, 0x03]).is_empty());
    assert!(handshake_messages(&[0x16, 0x03, 0x03, 0xFF, 0xFF, 0x01]).is_empty());
}

#[test]
fn outcomes_are_classified() {
    assert!(Outcome::ServerHello { rtt: Duration::from_millis(10) }.is_answered());
    assert!(Outcome::Reset { after: Duration::from_millis(2) }.is_broken());
    assert!(Outcome::Timeout.is_broken());
    assert!(!Outcome::Timeout.is_answered());
}

#[test]
fn tls_alert_record_is_recognised() {
    let bytes = [0x15, 0x03, 0x03, 0x00, 0x02, 0x02, 0x28];
    let outcome = classify_response(&bytes, Duration::from_millis(5));
    assert_eq!(
        outcome,
        Outcome::Alert { rtt: Duration::from_millis(5), code: 0x28 }
    );
}
