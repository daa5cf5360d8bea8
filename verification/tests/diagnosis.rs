//! The run of a diagnosis: what is asked, what is reported, what is concluded.

use netchecker::bus::{EngineEvent, Reporter};
use netchecker::engine::bypass::{
    detect, is_tunnel, recognise, scan_interfaces, scan_processes, scan_proxy_ports, BypassKind,
    Confidence,
};
use netchecker::engine::censorship::{judge, transit_signals, Probe, Transit, Verdict};
use netchecker::engine::cert::Info;
use netchecker::engine::checks::{
    anchor_list, check_anchors, check_bypass, check_router, report_no_icmp, router_plan,
    router_port_list, AnchorProbe, RouterPlan, RouterProbe,
};
use netchecker::engine::dns::Answer;
use netchecker::engine::http;
use netchecker::engine::icmp::{Reply, ReplyKind};
use netchecker::engine::inquiry::{
    doh_endpoints, Inquiry, Question, Response, Stage, NEUTRAL_SNI,
};
use netchecker::engine::l1_l2::{self, Gateway, Interface, LinkInfo, Network};
use netchecker::engine::names::{
    check_dns_interception, check_names, check_site, nowhere_resolver, pick_names, Resolution,
    SiteConnection,
};
use netchecker::engine::ping::{ping_stats, PingStats};
use netchecker::engine::pipeline::{Run, STEPS};
use netchecker::engine::probe::TcpOutcome;
use netchecker::engine::route::{
    check_route, find_prohibiting, report_hop, report_no_route, trace_target,
};
use netchecker::engine::speed::{endpoints, Measurement, Rate, Transfer};
use netchecker::engine::survey::{status_for, Survey};
use netchecker::engine::tls::{Delivery, Outcome};
use netchecker::engine::trace::{Hop, Route, Segment, Trace};
use netchecker::engine::verdict::{verdict, Observations};
use netchecker::engine::{bypass, speed};
use netchecker::model::{CheckResult, Layer, NodeId, Status};
use netchecker::net::{IpAddr, Ipv4Addr};
use netchecker::privileged::{Capabilities, IcmpBackend};
use netchecker::targets::TargetList;
use netchecker::time::Duration;

fn millis(n: u64) -> Duration {
    Duration::from_millis(n)
}

fn v4(a: u8, b: u8, c: u8, d: u8) -> Ipv4Addr {
    Ipv4Addr::new(a, b, c, d)
}

fn checks(rep: &mut Reporter) -> Vec<CheckResult> {
    rep.take()
        .into_iter()
        .filter_map(|e| match e {
            EngineEvent::Check(c) => Some(*c),
            _ => None,
        })
        .collect()
}

fn only(rep: &mut Reporter) -> CheckResult {
    let mut all = checks(rep);
    assert_eq!(all.len(), 1);
    all.remove(0)
}

fn interface(name: &str) -> Interface {
    Interface {
        name: name.to_string(),
        friendly_name: None,
        description: None,
        kind: "Ethernet".to_string(),
        tunnel_type: false,
        up: true,
        loopback: false,
        tun: false,
        ipv4: vec![Network { addr: v4(192, 168, 1, 5), prefix_len: 24 }],
        dhcp_v4_enabled: Some(true),
        mac: Some("00:11:22:33:44:55".to_string()),
        gateway: Some(Gateway { ipv4: vec![v4(192, 168, 1, 1)], mac: "aa:bb".to_string() }),
        dns_servers: vec![IpAddr::V4(v4(192, 168, 1, 1))],
    }
}

// ---------------------------------------------------------------------------
// The link
// ---------------------------------------------------------------------------

#[test]
fn a_working_link_is_reported() {
    let mut rep = Reporter::new();
    let link = l1_l2::run(vec![interface("eth0")], Some(interface("eth0")), &mut rep);
    assert_eq!(link.gateway, Some(IpAddr::V4(v4(192, 168, 1, 1))));
    assert!(!link.through_vpn && !link.default_is_tunnel);
    assert_eq!(link.local_v4, vec![v4(192, 168, 1, 5)]);
    let all = checks(&mut rep);
    let ids: Vec<&str> = all.iter().map(|c| c.id.as_str()).collect();
    assert_eq!(ids, ["l1.link", "l2.addr", "l2.gateway"]);
    assert!(all.iter().all(|c| c.status == Status::Good));
    assert_eq!(all[0].simple, "Сетевое подключение есть: eth0 (Ethernet).");
    assert_eq!(all[1].expert, "IPv4 192.168.1.5/24, DHCP: включён.");
    assert_eq!(all[1].evidence, vec!["MAC: 00:11:22:33:44:55"]);
    assert_eq!(all[2].expert, "Шлюз по умолчанию 192.168.1.1, MAC aa:bb.");
}

#[test]
fn without_a_link_the_other_checks_are_skipped_not_lost() {
    let mut rep = Reporter::new();
    let mut down = interface("eth0");
    down.up = false;
    let link = l1_l2::run(vec![down], None, &mut rep);
    assert!(link.interface.is_none() && link.gateway.is_none());
    let all = checks(&mut rep);
    let seen: Vec<(&str, Status)> = all.iter().map(|c| (c.id.as_str(), c.status)).collect();
    assert_eq!(
        seen,
        [
            ("l1.link", Status::Fail),
            ("l2.addr", Status::Skipped),
            ("l2.gateway", Status::Skipped),
        ]
    );
}

#[test]
fn troubles_of_a_link_are_told_apart() {
    let mut rep = Reporter::new();
    let mut lost = interface("eth0");
    lost.ipv4 = vec![Network { addr: v4(169, 254, 3, 4), prefix_len: 16 }];
    lost.gateway = None;
    let link = l1_l2::run(vec![lost.clone()], None, &mut rep);
    assert_eq!(link.gateway, None);
    let all = checks(&mut rep);
    assert_eq!(all[1].status, Status::Fail);
    assert_eq!(
        all[1].expert,
        "Адрес 169.254.3.4 из диапазона APIPA 169.254.0.0/16 — DHCP не ответил."
    );
    assert_eq!(all[2].status, Status::Fail);

    lost.ipv4 = vec![];
    lost.mac = None;
    l1_l2::run(vec![lost], None, &mut rep);
    assert_eq!(checks(&mut rep)[1].expert, "На интерфейсе нет ни одного адреса IPv4.");
}

#[test]
fn a_tunnel_is_mentioned() {
    let mut rep = Reporter::new();
    let mut tunnel = interface("wg0");
    tunnel.description = Some("WireGuard Tunnel".to_string());
    assert!(l1_l2::is_vpn_like(&tunnel));
    assert!(is_tunnel(&tunnel));
    let link = l1_l2::run(vec![interface("eth0"), tunnel.clone()], None, &mut rep);
    assert!(link.through_vpn);
    assert!(!link.default_is_tunnel);
    let all = checks(&mut rep);
    assert_eq!(all[3].id, "l2.vpn");
    assert_eq!(
        all[3].expert,
        "Обнаружен туннельный интерфейс: WireGuard Tunnel (Ethernet)."
    );
    let link = l1_l2::run(vec![tunnel.clone()], Some(tunnel), &mut rep);
    assert!(link.default_is_tunnel);
    assert!(!l1_l2::is_vpn_like(&interface("eth0")));
}

// ---------------------------------------------------------------------------
// Tools
// ---------------------------------------------------------------------------

#[test]
fn known_tools_are_recognised() {
    assert_eq!(recognise("winws"), Some((BypassKind::DpiBypass, "zapret (winws)")));
    assert_eq!(recognise("my-xray-core"), Some((BypassKind::Proxy, "Xray")));
    assert_eq!(recognise("bash"), None);
    // The first mark in the list counts, and capital letters do not matter.
    let found = scan_processes(&vec!["WinWS_zapret.EXE".to_string(), "bash".to_string()]);
    assert_eq!(found.len(), 1);
    assert_eq!(found[0].name, "zapret (winws)");
    assert_eq!(found[0].evidence, "запущен процесс WinWS_zapret.EXE");
    assert_eq!(found[0].confidence, Confidence::Found);
}

#[test]
fn tunnels_and_ports_are_found() {
    let mut tunnel = interface("tun0");
    tunnel.friendly_name = Some("Мой VPN".to_string());
    let mut off = tunnel.clone();
    off.up = false;
    let found = scan_interfaces(&vec![interface("eth0"), tunnel, off], true);
    assert_eq!(found.len(), 1);
    assert_eq!(found[0].name, "Туннель «Мой VPN»");
    assert_eq!(
        found[0].evidence,
        "поднят туннельный интерфейс Мой VPN, через него идёт маршрут по умолчанию"
    );
    assert_eq!(found[0].confidence, Confidence::Active);

    let found = scan_proxy_ports(&vec![9050, 22]);
    assert_eq!(found.len(), 1);
    assert_eq!(found[0].name, "прокси на порту 9050");
    assert_eq!(found[0].evidence, "порт 127.0.0.1:9050 принимает соединения (Tor)");
}

#[test]
fn each_tool_is_listed_once_by_name() {
    let processes = vec!["xray".to_string(), "openvpn".to_string(), "XRAY2".to_string()];
    let report = detect(&processes, &vec![], false, &vec![1080]);
    let names: Vec<&str> = report.findings.iter().map(|f| f.name.as_str()).collect();
    assert_eq!(names, ["OpenVPN", "Xray", "прокси на порту 1080"]);
    // Of two findings alike the earlier one stays.
    assert_eq!(report.findings[1].evidence, "запущен процесс xray");
    assert_eq!(report.summary(), "Найдено: OpenVPN, Xray, прокси на порту 1080.");
    assert_eq!(report.dpi_bypass_name(), None);
    let report = detect(&vec!["goodbyedpi.exe".to_string()], &vec![], false, &vec![]);
    assert_eq!(report.dpi_bypass_name().as_deref(), Some("GoodbyeDPI"));
}

#[test]
fn tools_are_reported() {
    let mut rep = Reporter::new();
    check_bypass(&mut rep, &bypass::Report::new());
    assert_eq!(only(&mut rep).status, Status::Good);

    let report = detect(&vec!["zapret".to_string()], &vec![], false, &vec![]);
    check_bypass(&mut rep, &report);
    let check = only(&mut rep);
    assert_eq!(check.status, Status::Warn);
    assert!(check.simple.starts_with("Найдено: zapret. Средства запущены"));
    assert_eq!(check.evidence, vec!["Обход блокировок · zapret — запущен процесс zapret"]);

    report_no_icmp(&mut rep, IcmpBackend::Fallback);
    let check = only(&mut rep);
    assert_eq!((check.id.as_str(), check.status), ("l3.icmp", Status::Skipped));
    assert_eq!(check.expert, IcmpBackend::Fallback.explanation());
}

// ---------------------------------------------------------------------------
// Router and anchors
// ---------------------------------------------------------------------------

fn echo(rtt: u64) -> Reply {
    Reply {
        kind: ReplyKind::Echo,
        from: Some(IpAddr::V4(v4(1, 1, 1, 1))),
        rtt: Some(millis(rtt)),
        detail: None,
    }
}

fn stats(replies: Vec<Reply>) -> PingStats {
    ping_stats(&replies)
}

#[test]
fn a_series_of_echoes_is_summed_up() {
    let s = stats(vec![echo(20), Reply::timeout(), echo(5), echo(9)]);
    assert_eq!((s.sent, s.received), (4, 3));
    assert_eq!(s.describe(), "ответов 3/4, лучшее время 5 мс, разброс до 15 мс, ответ получен");

    let silent = || vec![Reply::timeout(), Reply::timeout(), Reply::timeout(), Reply::timeout()];
    assert_eq!(stats(silent()).describe(), "4 из 4 запросов без ответа, ответа нет");
    assert_eq!(stats(silent()).best_text(), "—");

    let mut replies = silent();
    replies[1] = Reply::error("нет прав");
    replies[2].kind = ReplyKind::Prohibited;
    assert_eq!(
        stats(replies).describe(),
        "4 из 4 запросов без ответа, прохождение запрещено административно (нет прав)"
    );
}

#[test]
fn the_router_is_tried_as_best_it_can_be() {
    let gw = Some(IpAddr::V4(v4(192, 168, 1, 1)));
    assert_eq!(router_plan(true, &gw), RouterPlan::Ping(v4(192, 168, 1, 1)));
    assert_eq!(router_plan(false, &gw), RouterPlan::Connect);
    assert_eq!(router_plan(true, &Some(IpAddr::V6("fe80::1".into()))), RouterPlan::Connect);
    assert_eq!(router_plan(true, &None), RouterPlan::Skip);
    assert_eq!(router_port_list(), [80, 443, 53]);
}

#[test]
fn the_router_is_reported() {
    let mut rep = Reporter::new();
    let gateway = || IpAddr::V4(v4(192, 168, 1, 1));

    assert_eq!(check_router(&mut rep, &RouterProbe::Skipped), None);
    assert_eq!(only(&mut rep).status, Status::Skipped);

    let pinged = RouterProbe::Pinged {
        gateway: gateway(),
        stats: stats(vec![echo(0), echo(0), echo(0), echo(0)]),
    };
    assert_eq!(check_router(&mut rep, &pinged), Some(true));
    let check = only(&mut rep);
    assert_eq!(
        check.simple,
        "Роутер 192.168.1.1 отвечает, время отклика — меньше 1 мс. Связь с ним есть."
    );
    assert_eq!(
        check.evidence,
        vec!["192.168.1.1: ответов 4/4, лучшее время меньше 1 мс, ответ получен"]
    );

    let refused = RouterProbe::Connected {
        gateway: gateway(),
        outcomes: vec![
            TcpOutcome::Timeout,
            TcpOutcome::Refused { rtt: millis(2) },
            TcpOutcome::Timeout,
        ],
    };
    assert_eq!(check_router(&mut rep, &refused), Some(true));
    let check = only(&mut rep);
    assert_eq!(check.status, Status::Good);
    assert_eq!(
        check.evidence,
        vec![
            "TCP 192.168.1.1:80 — ответа нет, тайм-аут",
            "TCP 192.168.1.1:443 — узел ответил отказом за 2 мс",
            "TCP 192.168.1.1:53 — ответа нет, тайм-аут",
        ]
    );

    let silent = RouterProbe::Connected {
        gateway: gateway(),
        outcomes: vec![TcpOutcome::Timeout, TcpOutcome::Timeout, TcpOutcome::Timeout],
    };
    assert_eq!(check_router(&mut rep, &silent), Some(false));
    assert_eq!(only(&mut rep).status, Status::Warn);
}

fn caps() -> Capabilities {
    Capabilities { icmp: IcmpBackend::LinuxDgram, elevated: false }
}

#[test]
fn the_anchors_are_reported() {
    let mut rep = Reporter::new();
    let names: Vec<&str> = anchor_list().iter().map(|a| a.0).collect();
    assert_eq!(names, ["Cloudflare", "Google", "Яндекс"]);

    let probes = vec![
        AnchorProbe::Connected(TcpOutcome::Refused { rtt: millis(1) }),
        AnchorProbe::Connected(TcpOutcome::Open { rtt: millis(30) }),
        AnchorProbe::Connected(TcpOutcome::Open { rtt: millis(40) }),
    ];
    assert_eq!(check_anchors(&mut rep, &probes, caps()), Some(v4(8, 8, 8, 8)));
    let events = rep.take();
    match &events[0] {
        EngineEvent::Node { id, subtitle, address } => {
            assert_eq!(*id, NodeId::Internet);
            assert_eq!(subtitle, "отвечает Google");
            assert_eq!(address.as_deref(), Some("8.8.8.8"));
        }
        other => panic!("{:?}", other),
    }
    match &events[1] {
        EngineEvent::Check(check) => {
            assert_eq!(check.simple, "Интернет доступен: отвечают Google, Яндекс.");
            assert_eq!(check.expert, "Ответили 2 из 3 опорных узлов.");
            assert_eq!(
                check.evidence[1],
                "Cloudflare 1.1.1.1:443 — узел ответил отказом за 1 мс"
            );
        }
        other => panic!("{:?}", other),
    }

    let silent = || AnchorProbe::Pinged(stats((0..4).map(|_| Reply::timeout()).collect()));
    assert_eq!(check_anchors(&mut rep, &vec![silent(), silent(), silent()], caps()), None);
    assert_eq!(only(&mut rep).status, Status::Fail);
}

// ---------------------------------------------------------------------------
// The route
// ---------------------------------------------------------------------------

fn expired(from: Ipv4Addr) -> Reply {
    Reply {
        kind: ReplyKind::TtlExpired,
        from: Some(IpAddr::V4(from)),
        rtt: Some(millis(8)),
        detail: None,
    }
}

#[test]
fn a_trace_goes_on_to_its_target() {
    let mut route = Route::new(vec![v4(192, 168, 1, 5)]);
    let path = [v4(192, 168, 1, 1), v4(10, 1, 1, 1), v4(100, 70, 0, 1)];
    for (i, node) in path.iter().enumerate() {
        assert_eq!(route.next_probe(), Some(i as u8 + 1));
        assert!(!route.feed(expired(*node)));
        assert!(!route.feed(Reply::timeout()));
        assert!(route.feed(expired(*node)));
    }
    for _ in 0..3 {
        route.feed(echo(20));
    }
    assert_eq!(route.next_probe(), None);
    let trace = route.trace;
    assert!(trace.reached);
    assert_eq!(trace.hops.len(), 4);
    assert_eq!(trace.hops[1].segment, Some(Segment::PrivateTransit));
    assert_eq!(trace.first_external.as_ref().map(|h| h.ttl), Some(3));
    assert_eq!(
        trace.hops[0].describe(),
        " 1. 192.168.1.1 — 8 мс, ваша сеть, потеряно проб: 1/3"
    );
    assert!(trace.break_after().is_none());
}

#[test]
fn a_trace_stops_at_a_wall_and_at_its_limit() {
    let mut route = Route::new(vec![]);
    for _ in 0..3 {
        route.feed(expired(v4(10, 0, 0, 1)));
    }
    let mut probes = 3;
    while route.next_probe().is_some() {
        route.feed(Reply::timeout());
        probes += 1;
    }
    assert_eq!(probes, 18);
    assert_eq!(route.trace.silent_tail(), 5);
    assert_eq!(route.trace.hops[5].describe(), " 6. нет ответа");

    let mut route = Route::new(vec![]);
    while route.next_probe().is_some() {
        route.feed(expired(v4(10, 0, 0, 1)));
    }
    assert_eq!(route.trace.hops.len(), 30);
    assert_eq!(route.trace.hops[29].ttl, 30);
    assert!(!route.trace.reached);
}

fn hop(ttl: u8, address: Option<Ipv4Addr>, prohibited: bool) -> Hop {
    Hop {
        ttl,
        address: address.map(IpAddr::V4),
        rtt: None,
        lost: 0,
        segment: address.map(|_| Segment::Public),
        prohibited,
    }
}

#[test]
fn a_route_is_reported() {
    let mut rep = Reporter::new();
    let first = hop(2, Some(v4(5, 5, 5, 5)), false);
    let trace = Trace {
        hops: vec![hop(1, None, false), first.clone(), hop(3, None, false)],
        reached: false,
        first_external: Some(first),
    };
    check_route(&mut rep, &trace);
    let all = checks(&mut rep);
    assert_eq!(all[0].status, Status::Good);
    assert_eq!(
        all[0].expert,
        "Первый внешний хоп 5.5.5.5 на TTL 2, участок: провайдер и дальше. Всего узлов: 3."
    );
    assert_eq!(all[0].evidence.len(), 3);
    assert_eq!(all[1].status, Status::Warn);
    assert!(all[1].simple.starts_with("Путь обрывается после узла 5.5.5.5 (провайдер и дальше)."));

    let banned = hop(4, Some(v4(6, 6, 6, 6)), true);
    let trace = Trace { hops: vec![banned.clone()], reached: true, first_external: None };
    assert_eq!(find_prohibiting(&trace.hops).map(|h| h.ttl), Some(4));
    check_route(&mut rep, &trace);
    let all = checks(&mut rep);
    assert_eq!(all[0].status, Status::Fail);
    assert_eq!(all[1].status, Status::Fail);
    assert_eq!(
        all[1].expert,
        "Хоп 4 (6.6.6.6) вернул ICMP «прохождение запрещено административно»."
    );

    check_route(&mut rep, &Trace { hops: vec![], reached: true, first_external: None });
    assert_eq!(checks(&mut rep)[1].status, Status::Good);
    check_route(&mut rep, &Trace::new());
    assert_eq!(checks(&mut rep)[1].status, Status::Skipped);

    report_no_route(&mut rep);
    assert_eq!(only(&mut rep).status, Status::Skipped);
    report_hop(&mut rep, &hop(7, None, false));
    match &rep.take()[0] {
        EngineEvent::Progress { done, label } => {
            assert_eq!((*done, label.as_str()), (4, "Маршрут: узел 7 из 30"));
        }
        other => panic!("{:?}", other),
    }
    assert_eq!(trace_target(None, v4(1, 1, 1, 1)), v4(1, 1, 1, 1));
    assert_eq!(trace_target(Some(v4(8, 8, 8, 8)), v4(1, 1, 1, 1)), v4(8, 8, 8, 8));
}

// ---------------------------------------------------------------------------
// Names
// ---------------------------------------------------------------------------

#[test]
fn names_are_reported() {
    let (list, _) = TargetList::parse("1.1.1.1\na.ru\nb.ru\nc.ru\nd.ru");
    let names = pick_names(list.items());
    assert_eq!(names, vec!["a.ru", "b.ru", "c.ru"]);

    let mut rep = Reporter::new();
    let servers = vec![IpAddr::V4(v4(8, 8, 8, 8)), IpAddr::V6("::1".into())];
    let results = vec![
        Resolution::Addresses(vec!["1.2.3.4".into(), "::2".into()]),
        Resolution::Addresses(vec![]),
        Resolution::Failed("сбой".into()),
    ];
    assert!(check_names(&mut rep, &servers, &names, &results));
    let check = only(&mut rep);
    assert_eq!(check.status, Status::Good);
    assert_eq!(
        check.evidence,
        vec![
            "DNS-серверы системы: 8.8.8.8, ::1",
            "a.ru → 1.2.3.4, ::2",
            "b.ru — имя не разрешилось ни в один адрес",
            "c.ru — ошибка разрешения имени: сбой",
        ]
    );
    assert!(!check_names(&mut rep, &vec![], &names, &vec![
        Resolution::Failed("x".into()),
        Resolution::Failed("x".into()),
        Resolution::Failed("x".into()),
    ]));
    assert_eq!(only(&mut rep).status, Status::Fail);
    assert!(!check_names(&mut rep, &vec![], &vec![], &vec![]));
    let check = only(&mut rep);
    assert_eq!(check.status, Status::Skipped);
    assert_eq!(check.evidence, vec!["DNS-серверы системы: система не сообщила список"]);
}

#[test]
fn a_site_is_reported() {
    let mut rep = Reporter::new();
    let connection = |outcome| {
        Some(SiteConnection {
            ip: "1.2.3.4".into(),
            address: "1.2.3.4:443".into(),
            outcome,
        })
    };
    check_site(&mut rep, "a.ru", &connection(TcpOutcome::Open { rtt: millis(33) }));
    let check = only(&mut rep);
    assert_eq!(check.title, "Соединение с a.ru");
    assert_eq!(check.simple, "Сайт a.ru открывается, ответ за 33 мс.");
    assert_eq!(check.expert, "TCP 1.2.3.4:443 установлено за 33 мс.");
    check_site(&mut rep, "a.ru", &connection(TcpOutcome::Timeout));
    let check = only(&mut rep);
    assert_eq!(check.status, Status::Fail);
    assert_eq!(check.expert, "TCP 1.2.3.4:443: ответа нет, тайм-аут");
    check_site(&mut rep, "a.ru", &None);
    assert_eq!(only(&mut rep).status, Status::Skipped);
}

fn answer(addrs: &[Ipv4Addr], rcode: u8) -> Answer {
    Answer {
        addresses: addrs.to_vec(),
        rcode,
        min_ttl: Some(300),
        elapsed: millis(5),
    }
}

#[test]
fn interception_of_dns_is_reported() {
    assert_eq!(nowhere_resolver(), v4(192, 0, 2, 1));
    let mut rep = Reporter::new();
    check_dns_interception(&mut rep, &Some(answer(&[v4(7, 7, 7, 7)], 0)), &vec![]);
    let check = only(&mut rep);
    assert_eq!(check.status, Status::Warn);
    assert_eq!(check.evidence, vec!["ответ от 192.0.2.1: 7.7.7.7, TTL 300 с, за 5 мс"]);
    check_dns_interception(&mut rep, &None, &vec![]);
    let check = only(&mut rep);
    assert_eq!(check.status, Status::Good);
    assert_eq!(
        check.expert,
        "Запрос к 192.0.2.1:53 остался без ответа, как и должно быть. Системные серверы: не сообщены."
    );
}

// ---------------------------------------------------------------------------
// Blocking
// ---------------------------------------------------------------------------

#[test]
fn a_connection_that_failed_is_not_called_open() {
    let failed = || Some(Outcome::ConnectFailed { error: "нет маршрута".into() });
    let answered = || Some(Outcome::ServerHello { rtt: millis(20) });
    let mut p = Probe::new("a.ru");
    p.real_sni = failed();
    for neutral in [failed(), answered(), Some(Outcome::Timeout)] {
        p.neutral_sni = neutral;
        let f = judge(&p);
        assert_eq!(f.verdict, Verdict::Unclear);
        assert_eq!(f.simple, "Проверить сайт a.ru не удалось.");
        assert_eq!(f.expert, "Не хватает результатов проб TLS.");
    }
    p.real_sni = Some(Outcome::Timeout);
    p.neutral_sni = failed();
    assert_eq!(judge(&p).verdict, Verdict::Unclear);
    p.real_sni = answered();
    assert_eq!(judge(&p).verdict, Verdict::Reachable);
    p.real_sni = Some(Outcome::Alert { rtt: millis(20), code: 40 });
    assert_eq!(judge(&p).verdict, Verdict::Reachable);
}

#[test]
fn each_reason_has_its_verdict() {
    let blank = || Probe::new("a.ru");
    assert_eq!(judge(&blank()).verdict, Verdict::Unclear);

    let mut p = blank();
    p.real_sni = Some(Outcome::Timeout);
    p.neutral_sni = Some(Outcome::Timeout);
    assert_eq!(judge(&p).verdict, Verdict::AddressBlocked);

    let mut p = blank();
    p.certificate = Some(Info {
        subject: Some("x".into()),
        issuer: Some("x".into()),
        names: vec![],
    });
    let f = judge(&p);
    assert_eq!(f.verdict, Verdict::CertificateSwapped);
    assert_eq!(f.expert, "Сертификат выписан сам себе: выдан «x», кем выдан: «x».");
    assert_eq!(f.evidence, vec!["сертификат: выдан «x», кем выдан: «x»"]);

    let mut p = blank();
    p.certificate = Some(Info { subject: Some("A.RU".into()), issuer: None, names: vec![] });
    p.http_stub = Some("слова".into());
    p.http = Some(http::Response {
        status: 200,
        location: None,
        body: String::new(),
        elapsed: millis(3),
    });
    let f = judge(&p);
    assert_eq!(f.verdict, Verdict::StubPage);
    assert_eq!(f.expert, "Запрос по HTTP с именем a.ru вернул заглушку: слова.");
    assert_eq!(f.evidence[1], "ответ по HTTP: код 200, ответ за 3 мс");

    let titles: Vec<&str> = [
        Verdict::Reachable,
        Verdict::DnsSpoofed,
        Verdict::NameFiltered,
        Verdict::AddressBlocked,
        Verdict::StubPage,
        Verdict::CertificateSwapped,
        Verdict::SiteDown,
        Verdict::Unclear,
    ]
    .iter()
    .map(|v| v.headline())
    .collect();
    assert_eq!(
        titles,
        [
            "открывается",
            "подменён адрес",
            "блокировка по имени сайта",
            "блокировка по адресу",
            "подставлена страница-заглушка",
            "подменён сертификат",
            "сайт не отвечает",
            "не удалось определить",
        ]
    );
}

#[test]
fn a_forged_answer_comes_before_everything_else() {
    let mut p = Probe::new("a.ru");
    p.system_dns = Some(answer(&[v4(127, 0, 0, 1)], 0));
    p.doh = Some(answer(&[v4(5, 5, 5, 5)], 0));
    p.real_sni = Some(Outcome::ServerHello { rtt: millis(1) });
    p.neutral_sni = Some(Outcome::ServerHello { rtt: millis(1) });
    p.http_stub = Some("слова".into());
    assert_eq!(judge(&p).verdict, Verdict::DnsSpoofed);
    // An empty answer without an error is no forgery.
    p.system_dns = Some(answer(&[], 0));
    assert_eq!(judge(&p).verdict, Verdict::StubPage);
}

fn filtered(name: &str) -> Probe {
    let mut p = Probe::new(name);
    p.baseline = Some(millis(40));
    p.real_sni = Some(Outcome::Reset { after: millis(2) });
    p.neutral_sni = Some(Outcome::ServerHello { rtt: millis(45) });
    p.split_sni = Some(Outcome::ServerHello { rtt: millis(50) });
    p
}

#[test]
fn signs_of_a_filter_add_up() {
    let mut plain = filtered("c.ru");
    plain.split_sni = None;
    plain.real_sni = Some(Outcome::Reset { after: millis(39) });
    let mut fine = filtered("d.ru");
    fine.real_sni = Some(Outcome::ServerHello { rtt: millis(41) });
    let probes = vec![filtered("a.ru"), filtered("b.ru"), plain, fine];
    let findings: Vec<_> = probes.iter().map(judge).collect();
    let t = transit_signals(&probes, &findings);
    assert_eq!(t, Transit { name_filtered: 3, injected: 2, split_helps: 2, total: 4 });
    assert!(t.is_confident());
    assert_eq!(
        t.expert(),
        "Проверено сайтов: 4. Обрыв зависит от имени: 3. Ответ пришёл быстрее физически \
         возможного: 2. Помогает разделение первого пакета: 2."
    );
    assert!(t.simple().contains("перестают открываться 3 не связанных"));
    let one = Transit { name_filtered: 1, injected: 0, split_helps: 0, total: 7 };
    assert!(one.simple().starts_with("Один сайт из 7 обрывается по имени."));
}

// ---------------------------------------------------------------------------
// Inquiries
// ---------------------------------------------------------------------------

fn target(value: &str) -> netchecker::targets::Target {
    TargetList::parse(value).0.items()[0].clone()
}

#[test]
fn an_inquiry_about_a_blocked_site_goes_to_the_end() {
    let mut inquiry = Inquiry::new(&target("a.ru"), true);
    assert_eq!(doh_endpoints()[1], "https://8.8.8.8/dns-query");
    assert!(matches!(inquiry.question(), Question::Doh { server: 0 }));
    inquiry.answer(Response::Dns(None));
    assert!(matches!(inquiry.question(), Question::Doh { server: 1 }));
    inquiry.answer(Response::Dns(Some(answer(&[v4(5, 5, 5, 5)], 0))));
    assert!(matches!(inquiry.question(), Question::SystemDns));
    inquiry.answer(Response::Dns(Some(answer(&[v4(6, 6, 6, 6)], 0))));
    match inquiry.question() {
        Question::Connect { address, patient } => {
            assert_eq!((address, patient), (v4(5, 5, 5, 5), false));
        }
        other => panic!("{:?}", other),
    }
    inquiry.answer(Response::Tcp(TcpOutcome::Timeout));
    assert!(matches!(inquiry.question(), Question::Connect { patient: true, .. }));
    inquiry.answer(Response::Tcp(TcpOutcome::Open { rtt: millis(40) }));
    match inquiry.question() {
        Question::Handshake { name, delivery, .. } => {
            assert_eq!((name.as_str(), delivery), ("a.ru", Delivery::Whole));
        }
        other => panic!("{:?}", other),
    }
    inquiry.answer(Response::Tls(Outcome::Reset { after: millis(1) }));
    match inquiry.question() {
        Question::Handshake { name, .. } => assert_eq!(name, NEUTRAL_SNI),
        other => panic!("{:?}", other),
    }
    inquiry.answer(Response::Tls(Outcome::ServerHello { rtt: millis(40) }));
    match inquiry.question() {
        Question::Handshake { name, delivery, .. } => {
            assert_eq!((name.as_str(), delivery), ("a.ru", Delivery::Split));
        }
        other => panic!("{:?}", other),
    }
    inquiry.answer(Response::Tls(Outcome::ServerHello { rtt: millis(40) }));
    assert!(matches!(inquiry.question(), Question::Nothing));
    assert_eq!(inquiry.stage, Stage::Done);
    assert_eq!(judge(&inquiry.probe).verdict, Verdict::NameFiltered);
}

#[test]
fn an_inquiry_is_cut_short_where_nothing_answers() {
    let mut inquiry = Inquiry::new(&target("9.9.9.9"), false);
    inquiry.answer(Response::Tcp(TcpOutcome::Timeout));
    inquiry.answer(Response::Tcp(TcpOutcome::Timeout));
    assert!(matches!(inquiry.question(), Question::Nothing));
    assert_eq!(judge(&inquiry.probe).verdict, Verdict::AddressBlocked);

    let mut inquiry = Inquiry::new(&target("a.ru"), false);
    inquiry.answer(Response::Dns(None));
    inquiry.answer(Response::Dns(None));
    assert!(matches!(inquiry.question(), Question::Nothing));
    assert_eq!(judge(&inquiry.probe).verdict, Verdict::Unclear);

    // An address has no name of its own, and nothing to split.
    let mut inquiry = Inquiry::new(&target("9.9.9.9"), false);
    inquiry.answer(Response::Tcp(TcpOutcome::Open { rtt: millis(9) }));
    match inquiry.question() {
        Question::Handshake { name, .. } => assert_eq!(name, NEUTRAL_SNI),
        other => panic!("{:?}", other),
    }
    inquiry.answer(Response::Tls(Outcome::Timeout));
    inquiry.answer(Response::Tls(Outcome::Timeout));
    assert!(matches!(inquiry.question(), Question::Nothing));

    let mut inquiry = Inquiry::new(&target("9.9.9.9"), false);
    inquiry.answer(Response::Tcp(TcpOutcome::Refused { rtt: millis(3) }));
    assert_eq!(inquiry.probe.real_sni, Some(Outcome::Reset { after: millis(3) }));
}

// ---------------------------------------------------------------------------
// The survey
// ---------------------------------------------------------------------------

#[test]
fn a_survey_goes_in_batches() {
    let text: String = (0..8).map(|i| format!("s{i}.ru\n")).collect();
    let (list, _) = TargetList::parse(&text);
    let mut rep = Reporter::new();
    let mut survey = Survey::new();
    assert_eq!(survey.next_batch(&mut rep, list.items()), 6);
    match &rep.take()[0] {
        EngineEvent::Progress { done, label } => {
            assert_eq!(*done, 6);
            assert_eq!(
                label,
                "Проверяю блокировки: s0.ru, s1.ru, s2.ru, s3.ru, s4.ru, s5.ru (6/8)"
            );
        }
        other => panic!("{:?}", other),
    }
    for i in 0..8 {
        survey.absorb(&mut rep, filtered(&format!("s{i}.ru")));
        let check = only(&mut rep);
        assert_eq!(check.id, format!("l7.target.s{i}.ru"));
        assert_eq!(check.title, format!("s{i}.ru — блокировка по имени сайта"));
        assert_eq!(check.status, Status::Fail);
        if i == 5 {
            assert_eq!(survey.next_batch(&mut rep, list.items()), 2);
            rep.take();
        }
    }
    assert_eq!(survey.next_batch(&mut rep, list.items()), 0);
    let transit = survey.finish(&mut rep, &bypass::Report::new());
    assert_eq!(transit.name_filtered, 8);
    assert_eq!(only(&mut rep).status, Status::Fail);
    assert_eq!(status_for(Verdict::Reachable), Status::Good);
    assert_eq!(status_for(Verdict::Unclear), Status::Skipped);
    assert_eq!(status_for(Verdict::SiteDown), Status::Warn);
    assert_eq!(status_for(Verdict::StubPage), Status::Fail);
}

#[test]
fn a_bypass_at_work_forbids_a_clean_bill() {
    let mut rep = Reporter::new();
    let tools = detect(&vec!["winws.exe".to_string()], &vec![], false, &vec![]);
    Survey::new().finish(&mut rep, &tools);
    let check = only(&mut rep);
    assert_eq!(check.status, Status::Warn);
    assert!(check.simple.contains("у вас работает zapret (winws)"));
    Survey::new().finish(&mut rep, &bypass::Report::new());
    assert_eq!(only(&mut rep).status, Status::Good);
}

// ---------------------------------------------------------------------------
// The conclusion
// ---------------------------------------------------------------------------

fn link(connected: bool, gateway: bool) -> LinkInfo {
    let mut rep = Reporter::new();
    let mut iface = interface("eth0");
    if !gateway {
        iface.gateway = None;
    }
    let list = if connected { vec![iface] } else { vec![] };
    l1_l2::run(list, None, &mut rep)
}

fn clean() -> Transit {
    Transit { name_filtered: 0, injected: 0, split_helps: 0, total: 3 }
}

#[test]
fn the_lowest_trouble_is_the_conclusion() {
    let none = bypass::Report::new();
    let empty = Trace::new();
    let conclude = |link: &LinkInfo, anchors_ok: bool, dns_ok: bool, transit: Transit| {
        verdict(Observations {
            link,
            bypass: &none,
            router_alive: Some(true),
            anchors_ok,
            route: &empty,
            dns_ok,
            transit,
        })
    };
    let off = link(false, false);
    let blind = link(true, false);
    let good = link(true, true);
    let sure = Transit { name_filtered: 2, injected: 1, split_helps: 0, total: 5 };

    let d = conclude(&off, false, false, clean());
    assert_eq!(d.headline, "Нет сетевого подключения");
    assert_eq!(d.break_edge, Some((NodeId::Pc, NodeId::Router)));
    let d = conclude(&blind, false, false, clean());
    assert_eq!(d.headline, "Роутер недоступен");
    let d = conclude(&good, false, false, clean());
    assert_eq!(d.headline, "Интернета нет за роутером");
    assert_eq!(d.break_edge, Some((NodeId::Router, NodeId::Provider)));
    assert_eq!(d.actions.len(), 3);
    let d = conclude(&good, true, false, clean());
    assert_eq!(d.headline, "Интернет есть, но имена сайтов не работают");
    let d = conclude(&good, true, true, sure);
    assert_eq!(d.headline, "Интернет работает, но часть сайтов блокируют");
    assert_eq!(d.status, Status::Warn);
    let d = conclude(&good, true, true, clean());
    assert_eq!((d.headline.as_str(), d.status), ("Интернет работает", Status::Good));
    assert!(d.actions.is_empty());
    let one = Transit { name_filtered: 1, injected: 0, split_helps: 0, total: 5 };
    let d = conclude(&good, true, true, one);
    assert_eq!(d.status, Status::Warn);
    assert_eq!(d.actions.len(), 1);
}

#[test]
fn the_conclusion_mentions_a_tunnel_first() {
    let mut tunnel = interface("tun0");
    tunnel.tun = true;
    let tools = detect(&vec!["nfqws".to_string()], &vec![tunnel], true, &vec![]);
    assert!(tools.traffic_is_tunneled());
    let good = link(true, true);
    let hop = hop(3, Some(v4(5, 5, 5, 5)), false);
    let route = Trace { hops: vec![hop.clone()], reached: false, first_external: Some(hop) };
    let d = verdict(Observations {
        link: &good,
        bypass: &tools,
        router_alive: None,
        anchors_ok: false,
        route: &route,
        dns_ok: true,
        transit: clean(),
    });
    assert!(d.actions[0].starts_with("Трафик идёт через VPN."));
    assert_eq!(d.break_edge, Some((NodeId::Provider, NodeId::Internet)));
    assert!(d.simple.contains("(узел 5.5.5.5)"));
    assert!(d.expert.starts_with("Путь жив до 5.5.5.5, затем 0 молчащих узлов подряд"));

    let d = verdict(Observations {
        link: &good,
        bypass: &tools,
        router_alive: None,
        anchors_ok: true,
        route: &route,
        dns_ok: true,
        transit: clean(),
    });
    assert_eq!(d.status, Status::Warn);
    assert!(d.simple.contains("работает zapret (nfqws)"));
    assert_eq!(d.actions.len(), 3);
    assert!(d.actions[2].contains("отключите zapret (nfqws)"));
    assert!(d.expert.starts_with("L1–L7 в норме, маршрут построен на 1 узлов. "));
    assert!(d.expert.ends_with("активен обход DPI."));
}

#[test]
fn a_tunnel_is_mentioned_without_a_connection_too() {
    let mut tunnel = interface("tun0");
    tunnel.tun = true;
    let tools = detect(&vec![], &vec![tunnel], true, &vec![]);
    let route = Trace::new();
    for (link, headline, hints) in [
        (link(false, false), "Нет сетевого подключения", 3),
        (link(true, false), "Роутер недоступен", 2),
    ] {
        let d = verdict(Observations {
            link: &link,
            bypass: &tools,
            router_alive: None,
            anchors_ok: false,
            route: &route,
            dns_ok: false,
            transit: clean(),
        });
        assert_eq!(d.headline, headline);
        assert_eq!(
            d.actions[0],
            "Трафик идёт через VPN. Чтобы проверить именно провайдера, отключите его и \
             повторите проверку."
        );
        assert_eq!(d.actions.len(), 1 + hints);
    }
}

#[test]
fn events_come_out_as_they_went_in() {
    let mut rep = Reporter::new();
    assert!(rep.take().is_empty());
    for i in 0..20usize {
        rep.progress(i, &format!("шаг {i}"));
    }
    let events = rep.take();
    assert_eq!(events.len(), 20);
    for (i, event) in events.iter().enumerate() {
        match event {
            EngineEvent::Progress { done, label } => {
                assert_eq!((*done, label.as_str()), (i, format!("шаг {i}").as_str()));
            }
            other => panic!("{other:?}"),
        }
    }
    assert!(rep.take().is_empty());
}

#[test]
fn a_node_that_forbids_traffic_is_named() {
    let good = link(true, true);
    let none = bypass::Report::new();
    let route = Trace {
        hops: vec![hop(1, None, false), hop(2, Some(v4(9, 8, 7, 6)), true)],
        reached: true,
        first_external: None,
    };
    let d = verdict(Observations {
        link: &good,
        bypass: &none,
        router_alive: Some(true),
        anchors_ok: true,
        route: &route,
        dns_ok: true,
        transit: clean(),
    });
    assert_eq!(d.headline, "На пути стоит фильтрация");
    assert_eq!(d.expert, "Хоп 2 (9.8.7.6) вернул ICMP «административно запрещено».");
    assert_eq!(d.break_edge, None);
}

// ---------------------------------------------------------------------------
// The whole run
// ---------------------------------------------------------------------------

#[test]
fn a_run_without_internet_ends_in_a_failure() {
    let mut rep = Reporter::new();
    let caps = Capabilities { icmp: IcmpBackend::Fallback, elevated: false };
    let mut run = Run::start(&mut rep, caps, false);
    run.take_link(&mut rep, vec![interface("eth0")], None);
    run.take_tools(&mut rep, &vec![], &vec![]);
    run.take_router(
        &mut rep,
        &RouterProbe::Connected {
            gateway: IpAddr::V4(v4(192, 168, 1, 1)),
            outcomes: vec![TcpOutcome::Timeout, TcpOutcome::Timeout, TcpOutcome::Timeout],
        },
    );
    run.take_anchors(
        &mut rep,
        &vec![
            AnchorProbe::Connected(TcpOutcome::Timeout),
            AnchorProbe::Connected(TcpOutcome::Timeout),
            AnchorProbe::Connected(TcpOutcome::Timeout),
        ],
    );
    run.take_route(&mut rep, None);
    let names = vec!["a.ru".to_string()];
    let go = run.take_names(&mut rep, &names, &vec![Resolution::Failed("x".into())], &None);
    assert!(!go);
    run.finish(&mut rep);

    let events = rep.take();
    assert!(matches!(events[0], EngineEvent::Started { total: STEPS }));
    let progress: Vec<usize> = events
        .iter()
        .filter_map(|e| match e {
            EngineEvent::Progress { done, .. } => Some(*done),
            _ => None,
        })
        .collect();
    assert_eq!(progress, [0, 1, 2, 3, 4, 5, 6, 7]);
    let ids: Vec<&str> = events
        .iter()
        .filter_map(|e| match e {
            EngineEvent::Check(c) => Some(c.id.as_str()),
            _ => None,
        })
        .collect();
    assert_eq!(
        ids,
        [
            "l1.link", "l2.addr", "l2.gateway", "l2.bypass", "l3.icmp", "l3.router",
            "l4.anchors", "l3.trace", "l7.dns", "l7.site", "l7.filter",
        ]
    );
    match events.last().unwrap() {
        EngineEvent::Finished(d) => {
            assert_eq!(d.headline, "Интернета нет за роутером");
            assert_eq!(d.simple, "Локальная сеть есть, но выхода в интернет нет.");
        }
        other => panic!("{:?}", other),
    }
}

#[test]
fn a_run_with_a_filter_finds_it() {
    let mut rep = Reporter::new();
    let mut run = Run::start(&mut rep, caps(), true);
    run.take_link(&mut rep, vec![interface("eth0")], None);
    run.take_tools(&mut rep, &vec![], &vec![]);
    run.take_router(&mut rep, &RouterProbe::Skipped);
    let good = || AnchorProbe::Connected(TcpOutcome::Open { rtt: millis(9) });
    run.take_anchors(&mut rep, &vec![good(), good(), good()]);
    run.take_route(&mut rep, Some(Trace::new()));
    let names = vec!["a.ru".to_string()];
    let results = vec![Resolution::Addresses(vec!["1.2.3.4".into()])];
    assert!(run.take_names(&mut rep, &names, &results, &None));
    let mut survey = Survey::new();
    survey.absorb(&mut rep, filtered("a.ru"));
    survey.absorb(&mut rep, filtered("b.ru"));
    run.take_survey(&mut rep, &survey);
    run.finish(&mut rep);
    match rep.take().last().unwrap() {
        EngineEvent::Finished(d) => {
            assert_eq!(d.headline, "Интернет работает, но часть сайтов блокируют");
        }
        other => panic!("{:?}", other),
    }
}

// ---------------------------------------------------------------------------
// Speed
// ---------------------------------------------------------------------------

#[test]
fn a_transfer_is_measured() {
    assert_eq!(endpoints()[1].0, "OVH");
    let mut t = Transfer::new("A");
    assert!(t.receive(32768, millis(40)));
    for _ in 0..30 {
        assert!(t.receive(32768, millis(100)));
    }
    let m = t.finish(Duration::from_secs(1));
    // 31 reads of 32 KiB in a second are 8.1 Mbit/s.
    assert_eq!(m.describe(), "A: 8.1 Мбит/с, первые данные через 40 мс");
    assert!(t.fail("сбой").is_none());

    let mut slow = Transfer::new("B");
    assert!(!slow.receive(1, Duration::from_secs(13)));
    assert_eq!(
        slow.finish(Duration::from_secs(1)).describe(),
        "B: замер не удался (получено 0 КБ — слишком мало для замера)"
    );
    let failed = Transfer::new("C").fail("нет сети").unwrap();
    assert_eq!(failed.describe(), "C: замер не удался (нет сети)");
    let mut full = Transfer::new("D");
    while full.receive(32768, millis(1)) {}
    assert!(full.total >= 2_000_000);
}

#[test]
fn rates_are_written_with_one_digit() {
    assert_eq!(Rate::from_tenths(905).text(), "90.5");
    assert!(Rate::from_tenths(21).is_faster(Rate::from_tenths(20)));
    let m = |mbps, first| Measurement {
        name: "A".into(),
        mbps,
        first_byte: first,
        note: None,
    };
    assert_eq!(m(None, None).describe(), "A: замер не удался");
    assert_eq!(m(Some(Rate::from_tenths(6)), None).describe(), "A: 0.6 Мбит/с");
    match speed::judge(&[m(Some(Rate::from_tenths(6)), Some(millis(20)))]) {
        speed::Verdict::SlowBody { name, mbps } => {
            assert_eq!((name.as_str(), mbps.text().as_str()), ("A", "0.6"));
        }
        other => panic!("{:?}", other),
    }
}

#[test]
fn layers_and_nodes_of_a_run_are_those_of_the_model() {
    let mut rep = Reporter::new();
    rep.check(CheckResult::new("x", Layer::L5Session, NodeId::Dpi, "t"));
    rep.node(NodeId::Pc, "s", None);
    rep.progress(1, "p");
    rep.send(EngineEvent::Cancelled);
    let events = rep.take();
    assert_eq!(events.len(), 4);
    assert!(rep.take().is_empty());
}
