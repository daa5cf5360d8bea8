//! What is concluded from the probes: filtering, bypasses, speed, the route.

use netchecker::engine::bypass::{dedup, BypassKind, Confidence};
use netchecker::engine::censorship::{judge, looks_injected, Probe, Transit, Verdict};
use netchecker::engine::dns::Answer;
use netchecker::engine::l1_l2::is_apipa;
use netchecker::engine::speed::{Measurement, Rate, UNEVEN_FACTOR};
use netchecker::engine::tls::Outcome;
use netchecker::engine::trace::{classify, format_rtt, is_cgnat, Hop, Segment, Trace};
use netchecker::engine::{bypass, speed};
use netchecker::net::{IpAddr, Ipv4Addr};
use netchecker::time::Duration;

fn finding(name: &str, kind: BypassKind, confidence: Confidence) -> bypass::Finding {
    bypass::Finding {
        kind,
        name: name.to_string(),
        evidence: String::new(),
        confidence,
    }
}

#[test]
fn duplicates_keep_the_stronger_signal() {
    let mut list = vec![
        finding("WireGuard", BypassKind::Vpn, Confidence::Found),
        finding("WireGuard", BypassKind::Vpn, Confidence::Active),
    ];
    dedup(&mut list);
    assert_eq!(list.len(), 1);
    assert_eq!(list[0].confidence, Confidence::Active);
}

#[test]
fn idle_tunnel_does_not_count_as_tunneled_traffic() {
    let report = bypass::Report {
        findings: vec![finding("Туннель", BypassKind::Vpn, Confidence::Found)],
    };
    assert!(!report.traffic_is_tunneled());

    let report = bypass::Report {
        findings: vec![finding("Туннель", BypassKind::Vpn, Confidence::Active)],
    };
    assert!(report.traffic_is_tunneled());
}

#[test]
fn empty_report_says_so_plainly() {
    assert!(bypass::Report::default().summary().contains("не обнаружено"));
}

fn answer(addrs: &[[u8; 4]], rcode: u8) -> Answer {
    Answer {
        addresses: addrs.iter().map(|a| Ipv4Addr::new(a[0], a[1], a[2], a[3])).collect(),
        rcode,
        min_ttl: Some(300),
        elapsed: Duration::from_millis(5),
    }
}

fn ms(n: u64) -> Duration {
    Duration::from_millis(n)
}

#[test]
fn stub_answer_against_real_one_is_spoofing() {
    let mut p = Probe::new("example.com");
    p.system_dns = Some(answer(&[[0, 0, 0, 0]], 0));
    p.doh = Some(answer(&[[93, 184, 216, 34]], 0));
    assert_eq!(judge(&p).verdict, Verdict::DnsSpoofed);
}

#[test]
fn nxdomain_from_system_but_not_from_doh_is_spoofing() {
    let mut p = Probe::new("example.com");
    p.system_dns = Some(answer(&[], 3));
    p.doh = Some(answer(&[[93, 184, 216, 34]], 0));
    assert_eq!(judge(&p).verdict, Verdict::DnsSpoofed);
}

#[test]
fn broken_with_name_but_alive_without_it_is_name_filtering() {
    let mut p = Probe::new("example.com");
    p.address = Some(Ipv4Addr::new(93, 184, 216, 34));
    p.baseline = Some(ms(40));
    p.real_sni = Some(Outcome::Reset { after: ms(2) });
    p.neutral_sni = Some(Outcome::ServerHello { rtt: ms(45) });

    let f = judge(&p);
    assert_eq!(f.verdict, Verdict::NameFiltered);
    assert!(f.expert.contains("быстрее"), "the injection must be mentioned");
}

#[test]
fn silence_for_every_name_is_not_name_filtering() {
    let mut p = Probe::new("example.com");
    p.real_sni = Some(Outcome::Timeout);
    p.neutral_sni = Some(Outcome::Timeout);
    p.baseline = Some(ms(30));
    assert_eq!(judge(&p).verdict, Verdict::SiteDown);
}

#[test]
fn working_site_is_reachable() {
    let mut p = Probe::new("ya.ru");
    p.real_sni = Some(Outcome::ServerHello { rtt: ms(12) });
    p.neutral_sni = Some(Outcome::Alert { rtt: ms(12), code: 112 });
    assert_eq!(judge(&p).verdict, Verdict::Reachable);
}

#[test]
fn nearby_server_is_not_mistaken_for_injection() {
    let fast = Outcome::Reset { after: ms(1) };
    assert!(!looks_injected(&fast, Some(ms(2))));
    assert!(looks_injected(&fast, Some(ms(60))));
}

#[test]
fn confidence_needs_more_than_one_site() {
    let one = Transit { name_filtered: 1, injected: 1, split_helps: 1, total: 5 };
    assert!(one.has_signals());
    assert!(!one.is_confident());

    let two = Transit { name_filtered: 2, ..one };
    assert!(two.is_confident());
}

#[test]
fn apipa_range_is_recognised() {
    assert!(is_apipa(Ipv4Addr::new(169, 254, 13, 7)));
    assert!(!is_apipa(Ipv4Addr::new(192, 168, 1, 10)));
    assert!(!is_apipa(Ipv4Addr::new(169, 253, 1, 1)));
}

/// A measurement; the rate is given in tenths of a megabit per second.
fn m(name: &str, tenths: Option<u32>, ttfb_ms: Option<u64>) -> Measurement {
    Measurement {
        name: name.into(),
        mbps: tenths.map(Rate::from_tenths),
        first_byte: ttfb_ms.map(Duration::from_millis),
        note: None,
    }
}

#[test]
fn similar_speeds_are_even() {
    let verdict = speed::judge(&[m("A", Some(900), Some(30)), m("B", Some(600), Some(40))]);
    assert!(matches!(verdict, speed::Verdict::Even { .. }));
}

#[test]
fn distant_endpoint_is_not_called_throttled() {
    let verdict = speed::judge(&[
        m("Близкая", Some(1140), Some(160)),
        m("Далёкая", Some(21), Some(424)),
    ]);
    assert!(
        matches!(verdict, speed::Verdict::Inconclusive { .. }),
        "got {:?}",
        verdict
    );
}

#[test]
fn one_sided_drop_is_reported() {
    let verdict = speed::judge(&[
        m("Быстрая", Some(800), Some(30)),
        m("Медленная", Some(50), Some(30)),
    ]);
    match verdict {
        speed::Verdict::Uneven { fast, slow, ratio } => {
            assert_eq!(fast, "Быстрая");
            assert_eq!(slow, "Медленная");
            assert!(ratio.num >= UNEVEN_FACTOR * ratio.den);
        }
        other => panic!("a drop was expected, got {other:?}"),
    }
}

#[test]
fn uniformly_slow_link_is_not_called_throttling() {
    let verdict = speed::judge(&[m("A", Some(30), Some(300)), m("B", Some(25), Some(320))]);
    assert!(matches!(verdict, speed::Verdict::Even { .. }));
}

#[test]
fn quick_answer_with_slow_transfer_is_flagged() {
    let verdict = speed::judge(&[m("A", Some(6), Some(20))]);
    assert!(matches!(verdict, speed::Verdict::SlowBody { .. }));
}

#[test]
fn no_successful_measurements_means_unavailable() {
    assert!(matches!(
        speed::judge(&[m("A", None, None)]),
        speed::Verdict::Unavailable
    ));
}

#[test]
fn cgnat_range_is_recognised() {
    assert!(is_cgnat(Ipv4Addr::new(100, 64, 0, 1)));
    assert!(is_cgnat(Ipv4Addr::new(100, 127, 255, 254)));
    assert!(!is_cgnat(Ipv4Addr::new(100, 63, 0, 1)));
    assert!(!is_cgnat(Ipv4Addr::new(100, 128, 0, 1)));
}

#[test]
fn private_hop_is_neither_local_nor_provider() {
    let mine = [Ipv4Addr::new(192, 168, 20, 198)];
    assert_eq!(classify(Ipv4Addr::new(192, 168, 20, 1), &mine), Segment::Local);
    assert_eq!(classify(Ipv4Addr::new(192, 168, 1, 1), &mine), Segment::PrivateTransit);
    assert_eq!(classify(Ipv4Addr::new(10, 55, 0, 1), &mine), Segment::PrivateTransit);
    assert_eq!(classify(Ipv4Addr::new(46, 138, 240, 1), &mine), Segment::Public);
    assert!(!Segment::PrivateTransit.is_external());
    assert!(Segment::Public.is_external());
}

#[test]
fn sub_millisecond_latency_is_not_shown_as_zero() {
    assert_eq!(format_rtt(Duration::from_millis(0)), "меньше 1 мс");
    assert_eq!(format_rtt(Duration::from_millis(24)), "24 мс");
}

#[test]
fn silent_tail_counts_only_the_trailing_silence() {
    let hop = |addr: Option<IpAddr>| Hop {
        ttl: 1,
        address: addr,
        rtt: None,
        lost: 0,
        segment: None,
        prohibited: false,
    };
    let trace = Trace {
        hops: vec![
            hop(Some(IpAddr::V4(Ipv4Addr::new(192, 168, 1, 1)))),
            hop(None),
            hop(Some(IpAddr::V4(Ipv4Addr::new(10, 0, 0, 1)))),
            hop(None),
            hop(None),
        ],
        reached: false,
        first_external: None,
    };
    assert_eq!(trace.silent_tail(), 2);
    assert!(trace.break_after().is_some());
}
