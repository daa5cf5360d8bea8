//! Packets to the byte: what is built, what is understood, what is refused.

use netchecker::engine::cert::{fits, from_handshake, parse, read, tlv, Info};
use netchecker::engine::dns::{
    decode_answer, encode_query, list_text, query_id, rcode_name, read_reply, Answer,
};
use netchecker::engine::http::{
    enough, finish, host_of, looks_like_stub, parse_text, related, request, stub_sign,
    written_host, Response,
};
use netchecker::engine::icmp::{
    checksum, echo_request, from_error_code, from_status, read_reply as read_echo,
    strip_ip_header, Reply, ReplyKind,
};
use netchecker::engine::probe::{ms, tcp_connect, ErrorKind, TcpOutcome};
use netchecker::engine::tls::{
    classify_error, classify_response, client_hello_versioned, client_hello_with,
    handshake_messages, has_certificate, portions, Delivery, Dialogue, Outcome, SocketAction,
    SocketEvent,
};
use netchecker::net::{IpAddr, Ipv4Addr};
use netchecker::time::Duration;

fn millis(n: u64) -> Duration {
    Duration::from_millis(n)
}

// ---------------------------------------------------------------------------
// TLS
// ---------------------------------------------------------------------------

#[test]
fn split_delivery_loses_nothing() {
    let hello = client_hello_versioned("www.example.com", true);
    let whole = portions(&hello, Delivery::Whole);
    assert_eq!(whole, vec![hello.clone()]);

    let parts = portions(&hello, Delivery::Split);
    assert_eq!(parts.len(), 2);
    assert_eq!(parts[0].len(), hello.len() / 2);
    assert_eq!([parts[0].clone(), parts[1].clone()].concat(), hello);

    assert_eq!(portions(&[7], Delivery::Split), vec![vec![7], vec![]]);
}

#[test]
fn split_delivery_cuts_every_name() {
    for name in ["ya.ru", "vk.com", "x.com", "medium.com", "signal.org", "www.example.com"] {
        for allow_tls13 in [true, false] {
            let hello = client_hello_versioned(name, allow_tls13);
            let parts = portions(&hello, Delivery::Split);
            let has = |bytes: &[u8]| bytes.windows(name.len()).any(|w| w == name.as_bytes());
            assert!(has(&hello));
            assert!(!has(&parts[0]) && !has(&parts[1]), "{name}");
            assert_eq!(parts.concat(), hello);
        }
    }
    let hello = client_hello_versioned("ya.ru", true);
    let parts = portions(&hello, Delivery::Split);
    assert!(parts[0].ends_with(b"ya") && parts[1].starts_with(b".ru"));
    // A single letter cannot be parted: it comes whole, but not at once.
    let parts = portions(&client_hello_versioned("a", true), Delivery::Split);
    assert!(parts[1].starts_with(b"a"));
}

#[test]
fn hello_is_the_same_for_the_same_bytes() {
    let random = [7u8; 32];
    let key = [9u8; 32];
    let hello = client_hello_with("ab", false, &random, &key);
    let mut expected = vec![
        0x16, 0x03, 0x01, 0, 104, // record
        0x01, 0, 0, 100, // handshake
        0x03, 0x03, // TLS 1.2
    ];
    expected.extend_from_slice(&random);
    expected.push(0);
    expected.extend_from_slice(&[
        0x00, 0x12, 0x13, 0x01, 0x13, 0x02, 0x13, 0x03, 0xC0, 0x2B, 0xC0, 0x2F, 0xC0, 0x2C, 0xC0,
        0x30, 0x00, 0x9C, 0x00, 0x9D,
    ]);
    expected.extend_from_slice(&[1, 0]);
    expected.extend_from_slice(&[0, 41]);
    expected.extend_from_slice(&[0, 0, 0, 7, 0, 5, 0, 0, 2, b'a', b'b']);
    expected.extend_from_slice(&[0, 0x0A, 0, 6, 0x00, 0x04, 0x00, 0x1D, 0x00, 0x17]);
    expected.extend_from_slice(&[0, 0x0B, 0, 2, 0x01, 0x00]);
    expected.extend_from_slice(&[
        0, 0x0D, 0, 10, 0x00, 0x08, 0x04, 0x03, 0x08, 0x04, 0x04, 0x01, 0x02, 0x01,
    ]);
    assert_eq!(hello, expected);
    // The key is of use in TLS 1.3 only.
    assert_eq!(client_hello_with("ab", true, &random, &key).len(), expected.len() + 57);
}

#[test]
fn probes_are_not_copies_of_each_other() {
    let hellos: Vec<Vec<u8>> =
        (0..4).map(|_| client_hello_versioned("example.com", true)).collect();
    assert!(hellos.iter().any(|h| *h != hellos[0]));
}

#[test]
fn several_messages_in_one_record_are_told_apart() {
    let stream = [
        0x17, 3, 3, 0, 1, 9, // not a handshake
        0x16, 3, 3, 0, 11, 2, 0, 0, 1, 5, 11, 0, 0, 2, 6, 7, // two messages
    ];
    let messages = handshake_messages(&stream);
    assert_eq!(messages, vec![(2, vec![5]), (11, vec![6, 7])]);
    assert!(has_certificate(&stream));
    assert!(!has_certificate(&stream[..6]));
}

#[test]
fn socket_errors_are_told_apart() {
    let after = millis(3);
    assert_eq!(classify_error(ErrorKind::ConnectionReset, after), Outcome::Reset { after });
    assert_eq!(classify_error(ErrorKind::ConnectionAborted, after), Outcome::Reset { after });
    assert_eq!(classify_error(ErrorKind::TimedOut, after), Outcome::Timeout);
    assert_eq!(classify_error(ErrorKind::WouldBlock, after), Outcome::Timeout);
    assert_eq!(classify_error(ErrorKind::Other, after), Outcome::Closed { after });
}

#[test]
fn responses_are_told_apart() {
    let rtt = millis(5);
    assert_eq!(classify_response(&[0x16, 3, 3], rtt), Outcome::ServerHello { rtt });
    assert_eq!(classify_response(&[0x15, 3, 3], rtt), Outcome::Alert { rtt, code: 0 });
    assert_eq!(classify_response(&[0x48], rtt), Outcome::Closed { after: rtt });
    assert_eq!(classify_response(&[], rtt), Outcome::Closed { after: rtt });
}

#[test]
fn outcomes_of_a_handshake_are_described() {
    let texts: Vec<String> = [
        Outcome::ServerHello { rtt: millis(12) },
        Outcome::Alert { rtt: millis(12), code: 112 },
        Outcome::Reset { after: millis(2) },
        Outcome::Closed { after: millis(7) },
        Outcome::Timeout,
        Outcome::ConnectFailed { error: "нет маршрута".into() },
    ]
    .iter()
    .map(|o| o.describe())
    .collect();
    assert_eq!(
        texts,
        [
            "сервер ответил за 12 мс",
            "сервер отклонил соединение за 12 мс (код 112)",
            "соединение сброшено через 2 мс",
            "соединение закрыто без ответа через 7 мс",
            "ответа нет",
            "не удалось соединиться: нет маршрута",
        ]
    );
    assert_eq!(Outcome::Timeout.latency(), None);
    assert_eq!(Outcome::Alert { rtt: millis(4), code: 1 }.latency(), Some(millis(4)));
}

fn done(action: SocketAction) -> (Outcome, Vec<u8>) {
    match action {
        SocketAction::Done { outcome, received } => (outcome, received),
        other => panic!("not done: {:?}", other),
    }
}

#[test]
fn a_probe_sends_reads_and_ends() {
    let mut probe = Dialogue::new("example.com", Delivery::Split, true);
    let hello = probe.hello.clone();
    match probe.step(SocketEvent::Connected, millis(0)) {
        SocketAction::Send { pieces } => {
            assert_eq!(pieces.len(), 2);
            assert_eq!(pieces.concat(), hello);
        }
        other => panic!("{:?}", other),
    }
    assert!(matches!(probe.step(SocketEvent::Sent, millis(0)), SocketAction::Read));
    let (outcome, received) =
        done(probe.step(SocketEvent::Data { bytes: vec![0x16, 3, 3] }, millis(20)));
    assert_eq!(outcome, Outcome::ServerHello { rtt: millis(20) });
    assert_eq!(received, vec![0x16, 3, 3]);
}

#[test]
fn a_probe_for_a_certificate_reads_until_it_comes() {
    let mut probe = Dialogue::new("example.com", Delivery::Whole, false);
    let first = SocketEvent::Data { bytes: vec![0x16, 3, 3, 0, 5, 11, 0] };
    assert!(matches!(probe.step(first, millis(5)), SocketAction::Read));
    let (outcome, received) =
        done(probe.step(SocketEvent::Data { bytes: vec![0, 1, 9] }, millis(8)));
    assert_eq!(outcome, Outcome::ServerHello { rtt: millis(8) });
    assert_eq!(received.len(), 10);

    let mut probe = Dialogue::new("example.com", Delivery::Whole, false);
    let long = SocketEvent::Data { bytes: vec![0x16; 32769] };
    assert_eq!(done(probe.step(long, millis(8))).1.len(), 32769);
}

#[test]
fn a_probe_that_fails_says_how() {
    let new = || Dialogue::new("example.com", Delivery::Whole, true);
    let failed = SocketEvent::ConnectFailed { error: "отказ".into() };
    assert_eq!(
        done(new().step(failed, millis(1))).0,
        Outcome::ConnectFailed { error: "отказ".into() }
    );
    assert_eq!(
        done(new().step(SocketEvent::SetupFailed, millis(1))).0,
        Outcome::ConnectFailed { error: "не удалось настроить сокет".into() }
    );
    let unsent = SocketEvent::SendFailed { kind: ErrorKind::ConnectionReset };
    assert_eq!(done(new().step(unsent, millis(2))).0, Outcome::Reset { after: millis(2) });
    let unread = SocketEvent::ReadFailed { kind: ErrorKind::TimedOut };
    assert_eq!(done(new().step(unread, millis(9))).0, Outcome::Timeout);
    assert_eq!(
        done(new().step(SocketEvent::End, millis(4))).0,
        Outcome::Closed { after: millis(4) }
    );

    // What came before an error counts.
    let mut probe = Dialogue::new("example.com", Delivery::Whole, false);
    probe.step(SocketEvent::Data { bytes: vec![0x15, 3, 3, 0, 2, 2, 40] }, millis(3));
    let unread = SocketEvent::ReadFailed { kind: ErrorKind::TimedOut };
    assert_eq!(
        done(probe.step(unread, millis(9))).0,
        Outcome::Alert { rtt: millis(9), code: 40 }
    );
}

// ---------------------------------------------------------------------------
// TCP
// ---------------------------------------------------------------------------

#[test]
fn connection_attempts_are_told_apart() {
    let t = millis(30);
    let failed = |kind| tcp_connect(Some((kind, "сбой".to_string())), t);
    assert_eq!(tcp_connect(None, t), TcpOutcome::Open { rtt: t });
    assert_eq!(failed(ErrorKind::TimedOut), TcpOutcome::Timeout);
    assert_eq!(failed(ErrorKind::ConnectionRefused), TcpOutcome::Refused { rtt: t });
    assert_eq!(failed(ErrorKind::ConnectionReset), TcpOutcome::Refused { rtt: t });
    assert_eq!(failed(ErrorKind::Other), TcpOutcome::Unreachable { error: "сбой".into() });
    assert_eq!(tcp_connect(None, t).describe(), "соединение установлено за 30 мс");
    assert_eq!(failed(ErrorKind::ConnectionReset).describe(), "узел ответил отказом за 30 мс");
    assert_eq!(failed(ErrorKind::Other).describe(), "сеть недоступна: сбой");
    assert_eq!(ms(Duration::from_nanos(1_999_999)), 1);
}

// ---------------------------------------------------------------------------
// DNS
// ---------------------------------------------------------------------------

fn record(kind: u16, ttl: u32, data: &[u8]) -> Vec<u8> {
    let mut out = vec![0xC0, 0x0C];
    out.extend_from_slice(&kind.to_be_bytes());
    out.extend_from_slice(&[0, 1]);
    out.extend_from_slice(&ttl.to_be_bytes());
    out.extend_from_slice(&(data.len() as u16).to_be_bytes());
    out.extend_from_slice(data);
    out
}

fn reply(rcode: u8, records: &[Vec<u8>]) -> Vec<u8> {
    let mut packet = vec![0, 0, 0x81, 0x80 | rcode, 0, 1, 0, records.len() as u8, 0, 0, 0, 0];
    packet.extend_from_slice(&[2, b'y', b'a', 2, b'r', b'u', 0, 0, 1, 0, 1]);
    for r in records {
        packet.extend_from_slice(r);
    }
    packet
}

#[test]
fn labels_that_cannot_be_sent_are_named() {
    assert_eq!(encode_query(1, "a..b").unwrap_err(), "недопустимая часть имени: «»");
    assert_eq!(encode_query(1, "").unwrap_err(), "недопустимая часть имени: «»");
    let long = "a".repeat(64);
    let name = format!("ok.{long}.ru");
    assert_eq!(
        encode_query(1, &name).unwrap_err(),
        format!("недопустимая часть имени: «{long}»")
    );
    // Dots at the end do not count, and 63 bytes are allowed.
    assert_eq!(encode_query(5, "ya.ru.").unwrap(), encode_query(5, "ya.ru").unwrap());
    assert!(encode_query(1, &"a".repeat(63)).is_ok());
    // The length is one of bytes, not of characters.
    assert!(encode_query(1, &"я".repeat(32)).is_err());
    assert!(encode_query(1, &"я".repeat(31)).is_ok());
}

#[test]
fn a_query_reads_as_an_answer_without_addresses() {
    let query = encode_query(0x1234, "example.com").unwrap();
    let answer = decode_answer(&query).unwrap();
    assert!(answer.is_empty());
    assert_eq!(answer.rcode, 0);
    assert_eq!(answer.min_ttl, None);
}

#[test]
fn the_smallest_ttl_counts_and_other_records_do_not() {
    let packet = reply(
        0,
        &[
            record(5, 7, &[1, 2, 3]),
            record(1, 300, &[1, 2, 3, 4]),
            record(1, 60, &[5, 6, 7, 8]),
            record(28, 1, &[0; 16]),
        ],
    );
    let answer = decode_answer(&packet).unwrap();
    assert_eq!(
        answer.addresses,
        vec![Ipv4Addr::new(1, 2, 3, 4), Ipv4Addr::new(5, 6, 7, 8)]
    );
    assert_eq!(answer.min_ttl, Some(60));

    let read = read_reply(&packet, millis(15)).unwrap();
    assert_eq!(read.elapsed, millis(15));
    assert_eq!(read.describe(), "1.2.3.4, 5.6.7.8, TTL 60 с, за 15 мс");
}

#[test]
fn broken_answers_are_refused_or_cut_short() {
    assert_eq!(decode_answer(&[0; 11]).unwrap_err(), "ответ короче заголовка");
    let whole = reply(0, &[record(1, 9, &[1, 2, 3, 4]), record(1, 3, &[5, 6, 7, 8])]);
    // The second record breaks off: the first one stays.
    let cut = decode_answer(&whole[..whole.len() - 1]).unwrap();
    assert_eq!(cut.addresses, vec![Ipv4Addr::new(1, 2, 3, 4)]);
    assert_eq!(cut.min_ttl, Some(9));
    // A label that leads out of the packet.
    let mut packet = vec![0, 1, 0x81, 0x80, 0, 1, 0, 1, 0, 0, 0, 0];
    packet.extend_from_slice(&[60, b'y', b'a']);
    assert_eq!(decode_answer(&packet).unwrap_err(), "имя выходит за границы пакета");
    assert!(read_reply(&packet, millis(1)).is_err());
}

#[test]
fn an_answer_without_addresses_is_described_by_its_code() {
    let answer = decode_answer(&reply(3, &[])).unwrap();
    assert_eq!(answer.describe(), "код ответа 3 (имя не существует), адресов нет");
    let names: Vec<&str> = (0u8..7).map(rcode_name).collect();
    assert_eq!(
        names,
        [
            "успех",
            "ошибка формата запроса",
            "сбой сервера",
            "имя не существует",
            "запрос не поддерживается",
            "отказано",
            "неизвестный код",
        ]
    );
}

#[test]
fn one_live_address_is_no_blackhole() {
    let answer = |addresses: Vec<Ipv4Addr>| Answer {
        addresses,
        rcode: 0,
        min_ttl: None,
        elapsed: Duration::zero(),
    };
    let zero = Ipv4Addr::new(0, 0, 0, 0);
    let own = Ipv4Addr::new(127, 3, 2, 1);
    assert!(answer(vec![zero, own]).is_blackhole());
    assert!(!answer(vec![zero, Ipv4Addr::new(8, 8, 8, 8)]).is_blackhole());
    assert!(!answer(vec![]).is_blackhole());
    assert_eq!(list_text(&vec![zero, own]), "0.0.0.0, 127.3.2.1");
}

#[test]
fn the_identifier_of_a_query_is_that_of_the_process_and_the_name() {
    assert_eq!(query_id(0x1_2345, "ya.ru"), 0x2345 ^ 5);
    assert_eq!(query_id(7, ""), 7);
}

// ---------------------------------------------------------------------------
// HTTP
// ---------------------------------------------------------------------------

#[test]
fn the_request_is_written_to_the_letter() {
    assert_eq!(
        request("ya.ru"),
        "GET / HTTP/1.1\r\nHost: ya.ru\r\nUser-Agent: netchecker\r\nAccept: text/html\r\n\
         Connection: close\r\n\r\n"
    );
    assert!(!enough(16384));
    assert!(enough(16385));
}

#[test]
fn responses_are_read_whatever_they_look_like() {
    let t = millis(12);
    let response = finish("HTTP/1.1 200 OK\r\nX: y\r\n\r\nпривет".as_bytes(), t).unwrap();
    assert_eq!((response.status, response.location.clone()), (200, None));
    assert_eq!(response.body, "привет");
    assert_eq!(response.describe(), "код 200, ответ за 12 мс");
    assert_eq!(finish(&[], t).unwrap_err(), "ответа нет");

    let odd = parse_text("nonsense", t);
    assert_eq!((odd.status, odd.body.as_str()), (0, ""));
    let moved = parse_text("HTTP/1.0 301 x\r\nLOCATION:  https://a.ru/:1 \r\n\r\n", t);
    assert_eq!(moved.location.as_deref(), Some("https://a.ru/:1"));
    assert_eq!(moved.describe(), "код 301, перенаправление на https://a.ru/:1, ответ за 12 мс");
    let big = parse_text(&format!("HTTP/1.1 99999 x\r\n\r\n{}", "я".repeat(5000)), t);
    assert_eq!(big.status, 0);
    assert_eq!(big.body.chars().count(), 4096);
}

#[test]
fn bytes_that_are_no_text_do_not_stop_the_reading() {
    let mut raw = b"HTTP/1.1 403 x\r\n\r\n".to_vec();
    raw.extend_from_slice(&[0xFF, b'a']);
    let response = finish(&raw, millis(1)).unwrap();
    assert_eq!(response.status, 403);
    assert_eq!(response.body, "\u{FFFD}a");
}

#[test]
fn a_stub_is_named_by_its_sign() {
    let page = |body: &str, location: Option<&str>| Response {
        status: 200,
        location: location.map(str::to_string),
        body: body.to_string(),
        elapsed: millis(1),
    };
    assert_eq!(
        looks_like_stub(&page("САЙТ ЗАБЛОКИРОВАН", None), "a.ru").unwrap(),
        "в ответе есть слова «сайт заблокирован»"
    );
    assert_eq!(
        looks_like_stub(&page("", Some("http://Warn.ISP.ru/x")), "a.ru").unwrap(),
        "перенаправление на чужой домен warn.isp.ru"
    );
    // The words may stand in the link as well.
    assert_eq!(
        looks_like_stub(&page("", Some("http://a.ru/zapret-info")), "a.ru").unwrap(),
        "в ответе есть слова «zapret-info»"
    );
    assert_eq!(looks_like_stub(&page("", Some("/local")), "a.ru"), None);
    assert_eq!(stub_sign("blocked by", None, "a.ru").unwrap(), "в ответе есть слова «blocked by»");
}

#[test]
fn a_domain_and_its_subdomains_are_akin() {
    assert!(related("example.com", "a.b.example.com"));
    assert!(related("example.com.", "www.example.com"));
    assert!(!related("example.com", "example.org"));
    assert!(!related("com", "example.com"));
}

#[test]
fn a_host_is_cut_out_of_a_link() {
    assert_eq!(host_of(" https://User@Site.RU:1/p#q ").as_deref(), Some("site.ru"));
    assert_eq!(written_host("http://Site.RU?x").as_deref(), Some("Site.RU"));
    assert_eq!(host_of("http:///x"), None);
    assert_eq!(host_of("ftp://a.ru"), None);
}

// ---------------------------------------------------------------------------
// ICMP
// ---------------------------------------------------------------------------

#[test]
fn the_checksum_is_that_of_the_internet() {
    assert_eq!(checksum(&[]), 0xFFFF);
    assert_eq!(checksum(&[0x00, 0x01, 0xF2, 0x03, 0xF4, 0xF5, 0xF6, 0xF7]), 0x220D);
    assert_eq!(checksum(&[0x12]), !0x1200);
}

#[test]
fn an_echo_carries_its_numbers() {
    let packet = echo_request(0x1234, 0x0506);
    assert_eq!(packet.len(), 40);
    assert_eq!(&packet[..2], &[8, 0]);
    assert_eq!(&packet[4..8], &[0x12, 0x34, 0x05, 0x06]);
    assert_eq!(&packet[8..], b"netchecker icmp probe 0123456789");
    assert_eq!(checksum(&packet), 0);
}

#[test]
fn short_packets_have_no_message() {
    assert!(strip_ip_header(&[0; 7]).is_none());
    assert!(strip_ip_header(&[0x45; 20]).is_none());
    assert_eq!(strip_ip_header(&[0x45; 21]).unwrap().len(), 1);
}

fn seen(bytes: &[u8]) -> Reply {
    read_echo(bytes, Some(Ipv4Addr::new(10, 0, 0, 1)), Ipv4Addr::new(1, 1, 1, 1), millis(4))
}

#[test]
fn replies_are_told_apart() {
    let kind = |t: u8, c: u8| seen(&[t, c, 0, 0, 0, 0, 0, 0]).kind;
    assert_eq!(kind(0, 0), ReplyKind::Echo);
    assert_eq!(kind(11, 0), ReplyKind::TtlExpired);
    assert_eq!(kind(3, 13), ReplyKind::Prohibited);
    assert_eq!(kind(3, 4), ReplyKind::TooBig);
    assert_eq!(kind(3, 1), ReplyKind::Unreachable);

    let odd = seen(&[5, 0, 0, 0, 0, 0, 0, 0]);
    assert_eq!(odd.kind, ReplyKind::Unreachable);
    assert_eq!(odd.detail.as_deref(), Some("тип ICMP 5"));
    assert_eq!(odd.rtt, Some(millis(4)));
    assert_eq!(odd.from, Some(IpAddr::V4(Ipv4Addr::new(10, 0, 0, 1))));

    let short = seen(&[0; 3]);
    assert_eq!(short.kind, ReplyKind::Error);
    assert_eq!(short.detail.as_deref(), Some("слишком короткий ответ"));

    // Without a sender the answer is taken for that of the target.
    let own = read_echo(&[0; 8], None, Ipv4Addr::new(1, 1, 1, 1), millis(4));
    assert_eq!(own.from, Some(IpAddr::V4(Ipv4Addr::new(1, 1, 1, 1))));
}

#[test]
fn codes_of_the_system_are_told_apart() {
    assert_eq!(from_error_code(11010).kind, ReplyKind::Timeout);
    assert_eq!(from_error_code(11013).kind, ReplyKind::TtlExpired);
    let other = from_error_code(87);
    assert_eq!(other.kind, ReplyKind::Error);
    assert_eq!(other.detail.as_deref(), Some("IcmpSendEcho: код 87"));

    let from = Ipv4Addr::new(9, 9, 9, 9);
    let kind = |status| from_status(status, from, 7).kind;
    assert_eq!(kind(0), ReplyKind::Echo);
    assert_eq!(kind(11013), ReplyKind::TtlExpired);
    for status in [11002, 11003, 11004, 11005, 11012] {
        assert_eq!(kind(status), ReplyKind::Unreachable);
    }
    assert_eq!(kind(11009), ReplyKind::TooBig);
    assert_eq!(kind(11010), ReplyKind::Timeout);
    assert_eq!(from_status(0, from, 7).rtt, Some(millis(7)));
    let odd = from_status(11050, from, 7);
    assert_eq!((odd.kind, odd.rtt), (ReplyKind::Unreachable, None));
    assert_eq!(odd.detail.as_deref(), Some("код состояния 11050"));
}

#[test]
fn replies_are_described() {
    let all = [
        (ReplyKind::Echo, "ответ получен"),
        (ReplyKind::TtlExpired, "истёк TTL на промежуточном узле"),
        (ReplyKind::Unreachable, "узел недостижим"),
        (ReplyKind::Prohibited, "прохождение запрещено административно"),
        (ReplyKind::TooBig, "пакет слишком велик, фрагментация запрещена"),
        (ReplyKind::Timeout, "ответа нет"),
        (ReplyKind::Error, "не удалось отправить запрос"),
    ];
    for (kind, text) in all {
        assert_eq!(kind.describe(), text);
    }
    assert_eq!(Reply::timeout().kind, ReplyKind::Timeout);
    assert_eq!(Reply::error("x").detail.as_deref(), Some("x"));
}

// ---------------------------------------------------------------------------
// Certificates
// ---------------------------------------------------------------------------

fn der(tag: u8, content: &[u8]) -> Vec<u8> {
    let mut out = vec![tag];
    if content.len() < 128 {
        out.push(content.len() as u8);
    } else {
        out.push(0x82);
        out.extend_from_slice(&(content.len() as u16).to_be_bytes());
    }
    out.extend_from_slice(content);
    out
}

fn name(cn: &[u8]) -> Vec<u8> {
    let pair = [der(0x06, &[0x55, 0x04, 0x03]), der(0x0C, cn)].concat();
    let country = [der(0x06, &[0x55, 0x04, 0x06]), der(0x13, b"RU")].concat();
    der(0x30, &[der(0x31, &der(0x30, &country)), der(0x31, &der(0x30, &pair))].concat())
}

fn certificate(subject: &[u8], issuer: &[u8], names: &[&[u8]], critical: bool) -> Vec<u8> {
    let list: Vec<u8> = names.iter().flat_map(|n| der(0x82, n)).collect();
    let mut san = der(0x06, &[0x55, 0x1D, 0x11]);
    if critical {
        san.extend(der(0x01, &[0xFF]));
    }
    san.extend(der(0x04, &der(0x30, &[der(0x87, &[1, 2, 3, 4]), list].concat())));
    let tbs = [
        der(0xA0, &der(0x02, &[2])),
        der(0x02, &[1]),
        der(0x30, &[]),
        name(issuer),
        der(0x30, &[]),
        name(subject),
        der(0xA3, &der(0x30, &der(0x30, &san))),
    ]
    .concat();
    der(0x30, &der(0x30, &tbs))
}

#[test]
fn a_certificate_is_read() {
    for critical in [false, true] {
        let cert = certificate(b"site.ru", b"Some CA", &[b"site.ru", b"*.site.ru"], critical);
        let info = parse(&cert).unwrap();
        assert_eq!(
            info,
            Info {
                subject: Some("site.ru".into()),
                issuer: Some("Some CA".into()),
                names: vec!["site.ru".into(), "*.site.ru".into()],
            }
        );
        assert!(info.covers("WWW.Site.RU"));
        assert!(!info.covers("a.www.site.ru"));
        assert_eq!(
            info.describe(),
            "выдан «site.ru», кем выдан: «Some CA», действителен для: site.ru, *.site.ru"
        );
    }
}

#[test]
fn a_certificate_is_found_in_a_handshake() {
    let cert = certificate(b"me", b"me", &[], false);
    let len = cert.len();
    let mut body = vec![0, 0, 0, 0, (len >> 8) as u8, len as u8];
    body.extend_from_slice(&cert);
    let info = from_handshake(&[(2, vec![1]), (11, body.clone())]).unwrap();
    assert!(info.self_signed());
    assert!(info.names.is_empty());
    assert_eq!(info.describe(), "выдан «me», кем выдан: «me»");
    assert!(from_handshake(&[(2, body.clone())]).is_none());
    body.pop();
    assert!(from_handshake(&[(11, body)]).is_none());
}

#[test]
fn names_that_are_no_text_are_mended() {
    let cert = certificate(&[0xFF, b'a'], b"CA", &[&[0xFE]], false);
    let raw = read(&cert).unwrap();
    assert_eq!(raw.subject, Some(vec![0xFF, b'a']));
    assert_eq!(raw.names, vec![vec![0xFE]]);
    let info = parse(&cert).unwrap();
    assert_eq!(info.subject.as_deref(), Some("\u{FFFD}a"));
    assert_eq!(info.names, vec!["\u{FFFD}".to_string()]);
}

#[test]
fn elements_end_within_their_bytes() {
    assert_eq!(tlv(&[4, 2, 9], 0), None);
    assert_eq!(tlv(&[4, 0x80, 9], 0), None);
    assert_eq!(tlv(&[4, 0x85, 0, 0, 0, 0, 1, 9], 0), None);
    let element = tlv(&[0, 4, 0x81, 1, 9], 1).unwrap();
    assert_eq!((element.tag, element.start, element.end), (4, 4, 5));
    assert_eq!(tlv(&[4], 0), None);
    assert_eq!(tlv(&[4], 9), None);
}

#[test]
fn patterns_fit_one_level() {
    assert!(fits("*.a.ru", "b.a.ru"));
    assert!(!fits("*.a.ru", "a.ru"));
    assert!(!fits("*.ru", "localhost"));
    assert!(fits("a.ru", "a.ru"));
}
