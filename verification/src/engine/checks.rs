//! The checks of the connection: what the probes of each layer mean and how
//! they are reported.
//!
//! Checks go from the bottom of the OSI model upwards, and the order is not
//! cosmetic: what an upper layer shows makes sense only in the light of the
//! lower one. The single exception is the search for tunnels and bypasses:
//! where traffic goes into a tunnel, the user has to know before believing the
//! other figures.

use vstd::prelude::*;
use vstd::string::StringExecFns;
use crate::bus::{EventView, Reporter};
use crate::model::{begun, CheckResult, CheckView, Layer, NodeId, Status};
use crate::net::{IpAddr, Ipv4Addr};
use crate::privileged::{Capabilities, IcmpBackend};
use crate::scan::{join, joined, lemma_texts_empty, lemma_texts_push, texts};
use crate::text::{dec, decimal};
use super::bypass;
use super::ping::{PingStats, StatsView};
use super::probe::{TcpOutcome, TcpView};

verus! {

// ---------------------------------------------------------------------------
// Tunnels and bypasses
// ---------------------------------------------------------------------------

/// The evidence of a tool that was found.
pub open spec fn tool_line(f: bypass::FindingView) -> Seq<char> {
    f.kind.title_text() + " · "@ + f.name + " — "@ + f.evidence
}

pub open spec fn tool_lines(list: Seq<bypass::FindingView>) -> Seq<Seq<char>> {
    list.map_values(|f: bypass::FindingView| tool_line(f))
}

pub open spec fn bypass_check(list: Seq<bypass::FindingView>) -> CheckView {
    let check = begun(
        "l2.bypass"@,
        Layer::L2Link,
        NodeId::Pc,
        "VPN, прокси и обходы блокировок"@,
    );
    let done = if list.len() == 0 {
        check.finished(
            Status::Good,
            "Ни VPN, ни прокси, ни средств обхода блокировок не найдено — проверяется ваше обычное подключение."@,
            "Не найдено ни туннельных интерфейсов, ни известных процессов, ни слушающих локальных прокси-портов."@,
        )
    } else if bypass::tunneled(list) {
        check.finished(
            Status::Warn,
            bypass::summary_text(list)
                + " Весь трафик идёт через туннель, поэтому проверки ниже описывают канал туннеля, а не то, что даёт ваш провайдер. Чтобы проверить провайдера, отключите VPN и повторите."@,
            "Маршрут по умолчанию уходит в туннельный интерфейс."@,
        )
    } else {
        check.finished(
            Status::Warn,
            bypass::summary_text(list)
                + " Средства запущены, но весь трафик через них не идёт: часть приложений может ходить в обход, часть — напрямую."@,
            "Найдены средства обхода, но маршрут по умолчанию идёт мимо туннеля."@,
        )
    };
    done.noted_all(tool_lines(list))
}

/// Reports tunnels, proxies and bypasses.
pub fn check_bypass(rep: &mut Reporter, report: &bypass::Report)
    ensures
        final(rep)@ == old(rep)@.push(EventView::Check(bypass_check(report@))),
{
    let check = CheckResult::new(
        "l2.bypass",
        Layer::L2Link,
        NodeId::Pc,
        "VPN, прокси и обходы блокировок",
    );
    let check = if report.is_empty() {
        check.finish(
            Status::Good,
            "Ни VPN, ни прокси, ни средств обхода блокировок не найдено — проверяется ваше обычное подключение.",
            "Не найдено ни туннельных интерфейсов, ни известных процессов, ни слушающих локальных прокси-портов.",
        )
    } else if report.traffic_is_tunneled() {
        check.finish(
            Status::Warn,
            report.summary().concat(
                " Весь трафик идёт через туннель, поэтому проверки ниже описывают канал туннеля, а не то, что даёт ваш провайдер. Чтобы проверить провайдера, отключите VPN и повторите.",
            ).as_str(),
            "Маршрут по умолчанию уходит в туннельный интерфейс.",
        )
    } else {
        check.finish(
            Status::Warn,
            report.summary().concat(
                " Средства запущены, но весь трафик через них не идёт: часть приложений может ходить в обход, часть — напрямую.",
            ).as_str(),
            "Найдены средства обхода, но маршрут по умолчанию идёт мимо туннеля.",
        )
    };
    let mut lines: Vec<String> = Vec::new();
    let mut i: usize = 0;
    while i < report.findings.len()
        invariant
            i <= report.findings@.len(),
            lines@.len() == i,
            forall|k: int|
                0 <= k < i ==> (#[trigger] lines@[k])@ == tool_line(report.findings@[k]@),
        decreases report.findings@.len() - i,
    {
        let f = &report.findings[i];
        lines.push(
            String::from_str(f.kind.title()).concat(" · ").concat(f.name.as_str()).concat(
                " — ",
            ).concat(f.evidence.as_str()),
        );
        i += 1;
    }
    assert(texts(lines@) =~= tool_lines(report@));
    rep.check(check.with_all_evidence(&lines));
}

/// What is reported where echoes cannot be sent.
pub open spec fn no_icmp_check(icmp: IcmpBackend) -> CheckView {
    begun("l3.icmp"@, Layer::L3Network, NodeId::Pc, "Доступность ICMP"@).finished(
        Status::Skipped,
        "Система не разрешила программе отправлять эхо-запросы, поэтому точные замеры задержек и трассировка недоступны. Остальные проверки пойдут через TCP."@,
        icmp.explanation_text(),
    )
}

pub fn report_no_icmp(rep: &mut Reporter, icmp: IcmpBackend)
    ensures
        final(rep)@ == old(rep)@.push(EventView::Check(no_icmp_check(icmp))),
{
    rep.check(
        CheckResult::new("l3.icmp", Layer::L3Network, NodeId::Pc, "Доступность ICMP").finish(
            Status::Skipped,
            "Система не разрешила программе отправлять эхо-запросы, поэтому точные замеры задержек и трассировка недоступны. Остальные проверки пойдут через TCP.",
            icmp.explanation(),
        ),
    );
}

// ---------------------------------------------------------------------------
// The router
// ---------------------------------------------------------------------------

/// The ports on which a router is tried where echoes cannot be sent.
pub open spec fn router_ports() -> Seq<u16> {
    seq![80u16, 443, 53]
}

pub fn router_port_list() -> (r: [u16; 3])
    ensures
        r@ == router_ports(),
{
    let r: [u16; 3] = [80, 443, 53];
    assert(r@ =~= router_ports());
    r
}

/// How a router is tried.
#[derive(Debug, Clone, Copy, PartialEq, Eq, Structural)]
pub enum RouterPlan {
    /// Its address is not known.
    Skip,
    /// By echoes: a straight answer to the question.
    Ping(Ipv4Addr),
    /// By connecting: both an open port and a refusal prove that it is there.
    Connect,
}

pub fn router_plan(can_ping: bool, gateway: &Option<IpAddr>) -> (r: RouterPlan)
    ensures
        r == (match *gateway {
            None => RouterPlan::Skip,
            Some(IpAddr::V4(a)) if can_ping => RouterPlan::Ping(a),
            _ => RouterPlan::Connect,
        }),
{
    match gateway {
        None => RouterPlan::Skip,
        Some(IpAddr::V4(a)) => if can_ping {
            RouterPlan::Ping(*a)
        } else {
            RouterPlan::Connect
        },
        Some(IpAddr::V6(_)) => RouterPlan::Connect,
    }
}

/// What the probes of a router gave.
#[derive(Debug)]
pub enum RouterProbe {
    Skipped,
    Pinged { gateway: IpAddr, stats: PingStats },
    /// One outcome for each of the ports.
    Connected { gateway: IpAddr, outcomes: Vec<TcpOutcome> },
}

pub open spec fn is_sign_of_life(o: TcpView) -> bool {
    o is Open || o is Refused
}

pub open spec fn tcp_views(list: Seq<TcpOutcome>) -> Seq<TcpView> {
    list.map_values(|o: TcpOutcome| o@)
}

pub open spec fn shows_life(list: Seq<TcpView>) -> bool {
    exists|i: int| 0 <= i < list.len() && is_sign_of_life(#[trigger] list[i])
}

impl RouterProbe {
    /// Whether the probes fit the plan: one for each port.
    pub open spec fn complete(self) -> bool {
        self matches RouterProbe::Connected { outcomes, .. } ==> outcomes@.len() == 3
    }

    /// Whether the router answered, where it was tried.
    pub open spec fn alive(self) -> Option<bool> {
        match self {
            RouterProbe::Skipped => None,
            RouterProbe::Pinged { stats, .. } => Some(stats.received > 0),
            RouterProbe::Connected { outcomes, .. } => Some(shows_life(tcp_views(outcomes@))),
        }
    }

    pub open spec fn check(self) -> CheckView {
        let check = begun(
            "l3.router"@,
            Layer::L3Network,
            NodeId::Router,
            "Отклик роутера"@,
        );
        match self {
            RouterProbe::Skipped => check.finished(
                Status::Skipped,
                "Проверка пропущена: адрес роутера неизвестен."@,
                "Нет шлюза по умолчанию."@,
            ),
            RouterProbe::Pinged { gateway, stats } => {
                let gw = gateway.notation();
                let expert = "ICMP: "@ + stats@.description() + "."@;
                (if stats.received > 0 {
                    check.finished(
                        Status::Good,
                        "Роутер "@ + gw + " отвечает, время отклика — "@
                            + stats@.best_notation() + ". Связь с ним есть."@,
                        expert,
                    )
                } else {
                    check.finished(
                        Status::Warn,
                        "Роутер "@ + gw
                            + " не отвечает на запросы. Часть роутеров молчит намеренно, поэтому смотрите проверки ниже."@,
                        expert,
                    )
                }).noted(gw + ": "@ + stats@.description())
            },
            RouterProbe::Connected { gateway, outcomes } => {
                let gw = gateway.notation();
                (if shows_life(tcp_views(outcomes@)) {
                    check.finished(
                        Status::Good,
                        "Роутер "@ + gw + " отвечает — до него связь есть."@,
                        "Роутер ответил на TCP-пробу (соединением или явным отказом)."@,
                    )
                } else {
                    check.finished(
                        Status::Warn,
                        "Роутер "@ + gw
                            + " не ответил на пробу. Часть роутеров молчит намеренно."@,
                        "Ни один из портов 80/443/53 не дал ответа, ICMP недоступен."@,
                    )
                }).noted_all(port_lines(gw, router_ports(), tcp_views(outcomes@)))
            },
        }
    }
}

/// The evidence of connecting to ports.
pub open spec fn port_lines(
    gateway: Seq<char>,
    ports: Seq<u16>,
    outcomes: Seq<TcpView>,
) -> Seq<Seq<char>> {
    Seq::new(
        outcomes.len(),
        |i: int|
            "TCP "@ + gateway + ":"@ + dec(ports[i] as nat) + " — "@ + outcomes[i].description(),
    )
}

fn report_connected(check: CheckResult, gateway: &IpAddr, outcomes: &Vec<TcpOutcome>) -> (r: (
    CheckResult,
    bool,
))
    requires
        check@ == begun("l3.router"@, Layer::L3Network, NodeId::Router, "Отклик роутера"@),
        outcomes@.len() == 3,
    ensures
        r.0@ == (RouterProbe::Connected { gateway: *gateway, outcomes: *outcomes }).check(),
        r.1 == shows_life(tcp_views(outcomes@)),
{
    let gw = gateway.text();
    let ports = router_port_list();
    let ghost views = tcp_views(outcomes@);
    let mut lines: Vec<String> = Vec::new();
    let mut alive: bool = false;
    let mut i: usize = 0;
    while i < 3
        invariant
            i <= 3,
            outcomes@.len() == 3,
            views == tcp_views(outcomes@),
            ports@ == router_ports(),
            gw@ == gateway.notation(),
            lines@.len() == i,
            forall|k: int|
                0 <= k < i ==> (#[trigger] lines@[k])@ == port_lines(gw@, router_ports(), views)[k],
            alive == (exists|k: int| 0 <= k < i && is_sign_of_life(#[trigger] views[k])),
        decreases 3 - i,
    {
        let outcome = &outcomes[i];
        assert(views[i as int] == outcome@);
        lines.push(
            String::from_str("TCP ").concat(gw.as_str()).concat(":").concat(
                decimal(ports[i] as u128).as_str(),
            ).concat(" — ").concat(outcome.describe().as_str()),
        );
        match outcome {
            TcpOutcome::Open { .. } => {
                alive = true;
            },
            TcpOutcome::Refused { .. } => {
                alive = true;
            },
            _ => {},
        }
        i += 1;
    }
    assert(texts(lines@) =~= port_lines(gw@, router_ports(), views));
    let done = if alive {
        check.finish(
            Status::Good,
            String::from_str("Роутер ").concat(gw.as_str()).concat(
                " отвечает — до него связь есть.",
            ).as_str(),
            "Роутер ответил на TCP-пробу (соединением или явным отказом).",
        )
    } else {
        check.finish(
            Status::Warn,
            String::from_str("Роутер ").concat(gw.as_str()).concat(
                " не ответил на пробу. Часть роутеров молчит намеренно.",
            ).as_str(),
            "Ни один из портов 80/443/53 не дал ответа, ICMP недоступен.",
        )
    };
    (done.with_all_evidence(&lines), alive)
}

/// Reports whether the router itself answers.
pub fn check_router(rep: &mut Reporter, probe: &RouterProbe) -> (r: Option<bool>)
    requires
        probe.complete(),
    ensures
        final(rep)@ == old(rep)@.push(EventView::Check(probe.check())),
        r == probe.alive(),
{
    let check = CheckResult::new(
        "l3.router",
        Layer::L3Network,
        NodeId::Router,
        "Отклик роутера",
    );
    match probe {
        RouterProbe::Skipped => {
            rep.check(
                check.finish(
                    Status::Skipped,
                    "Проверка пропущена: адрес роутера неизвестен.",
                    "Нет шлюза по умолчанию.",
                ),
            );
            None
        },
        RouterProbe::Pinged { gateway, stats } => {
            let gw = gateway.text();
            let expert = String::from_str("ICMP: ").concat(stats.describe().as_str()).concat(".");
            let done = if stats.received > 0 {
                check.finish(
                    Status::Good,
                    String::from_str("Роутер ").concat(gw.as_str()).concat(
                        " отвечает, время отклика — ",
                    ).concat(stats.best_text().as_str()).concat(". Связь с ним есть.").as_str(),
                    expert.as_str(),
                )
            } else {
                check.finish(
                    Status::Warn,
                    String::from_str("Роутер ").concat(gw.as_str()).concat(
                        " не отвечает на запросы. Часть роутеров молчит намеренно, поэтому смотрите проверки ниже.",
                    ).as_str(),
                    expert.as_str(),
                )
            };
            let line = gw.concat(": ").concat(stats.describe().as_str());
            rep.check(done.with_evidence(line.as_str()));
            Some(stats.received > 0)
        },
        RouterProbe::Connected { gateway, outcomes } => {
            let (done, alive) = report_connected(check, gateway, outcomes);
            rep.check(done);
            Some(alive)
        },
    }
}

// ---------------------------------------------------------------------------
// The anchors of the internet
// ---------------------------------------------------------------------------

/// Anchors of the internet, of different operators and countries. Where none
/// of them answers, it is hardly their fault.
pub open spec fn anchors() -> Seq<(Seq<char>, Ipv4Addr)> {
    seq![
        ("Cloudflare"@, Ipv4Addr { a: 1, b: 1, c: 1, d: 1 }),
        ("Google"@, Ipv4Addr { a: 8, b: 8, c: 8, d: 8 }),
        ("Яндекс"@, Ipv4Addr { a: 77, b: 88, c: 8, d: 8 }),
    ]
}

pub fn anchor_list() -> (r: [(&'static str, Ipv4Addr); 3])
    ensures
        forall|i: int|
            0 <= i < 3 ==> (#[trigger] r@[i]).0@ == anchors()[i].0 && r@[i].1 == anchors()[i].1,
{
    [
        ("Cloudflare", Ipv4Addr { a: 1, b: 1, c: 1, d: 1 }),
        ("Google", Ipv4Addr { a: 8, b: 8, c: 8, d: 8 }),
        ("Яндекс", Ipv4Addr { a: 77, b: 88, c: 8, d: 8 }),
    ]
}

/// What the probe of an anchor gave.
#[derive(Debug)]
pub enum AnchorProbe {
    Pinged(PingStats),
    Connected(TcpOutcome),
}

#[verifier::ext_equal]
pub enum AnchorView {
    Pinged(StatsView),
    Connected(TcpView),
}

impl View for AnchorProbe {
    type V = AnchorView;

    open spec fn view(&self) -> AnchorView {
        match self {
            AnchorProbe::Pinged(s) => AnchorView::Pinged(s@),
            AnchorProbe::Connected(o) => AnchorView::Connected(o@),
        }
    }
}

impl AnchorView {
    pub open spec fn answered(self) -> bool {
        match self {
            AnchorView::Pinged(s) => s.received > 0,
            AnchorView::Connected(o) => o is Open,
        }
    }

    pub open spec fn line(self, name: Seq<char>, ip: Ipv4Addr) -> Seq<char> {
        match self {
            AnchorView::Pinged(s) => name + " "@ + ip.notation() + " — "@ + s.description(),
            AnchorView::Connected(o) => name + " "@ + ip.notation() + ":443 — "@
                + o.description(),
        }
    }
}

impl AnchorProbe {
    fn has_answered(&self) -> (r: bool)
        ensures
            r == self@.answered(),
    {
        match self {
            AnchorProbe::Pinged(s) => s.received > 0,
            AnchorProbe::Connected(o) => o.is_open(),
        }
    }

    fn evidence(&self, name: &str, ip: Ipv4Addr) -> (r: String)
        ensures
            r@ == self@.line(name@, ip),
    {
        match self {
            AnchorProbe::Pinged(s) => name.to_owned().concat(" ").concat(
                ip.text().as_str(),
            ).concat(" — ").concat(s.describe().as_str()),
            AnchorProbe::Connected(o) => name.to_owned().concat(" ").concat(
                ip.text().as_str(),
            ).concat(":443 — ").concat(o.describe().as_str()),
        }
    }
}

pub open spec fn anchor_views(list: Seq<AnchorProbe>) -> Seq<AnchorView> {
    list.map_values(|p: AnchorProbe| p@)
}

/// The names of the anchors that answered, among the first `n`.
pub open spec fn answering(probes: Seq<AnchorView>, n: int) -> Seq<Seq<char>>
    decreases n,
{
    if n <= 0 {
        Seq::empty()
    } else if probes[n - 1].answered() {
        answering(probes, n - 1).push(anchors()[n - 1].0)
    } else {
        answering(probes, n - 1)
    }
}

/// The address of the first anchor that answered, among the first `n`.
pub open spec fn first_answering(probes: Seq<AnchorView>, n: int) -> Option<Ipv4Addr>
    decreases n,
{
    if n <= 0 {
        None
    } else {
        match first_answering(probes, n - 1) {
            Some(a) => Some(a),
            None => if probes[n - 1].answered() {
                Some(anchors()[n - 1].1)
            } else {
                None
            },
        }
    }
}

pub open spec fn anchor_lines(probes: Seq<AnchorView>) -> Seq<Seq<char>> {
    Seq::new(probes.len(), |i: int| probes[i].line(anchors()[i].0, anchors()[i].1))
}

/// The check of the anchors, as far as it does not depend on how they were
/// tried.
pub open spec fn anchors_found(probes: Seq<AnchorView>) -> CheckView {
    let names = answering(probes, 3);
    let check = begun(
        "l4.anchors"@,
        Layer::L4Transport,
        NodeId::Internet,
        "Связь с интернетом"@,
    );
    if names.len() > 0 {
        check.finished(
            Status::Good,
            "Интернет доступен: отвечают "@ + joined(names, ", "@) + "."@,
            "Ответили "@ + dec(names.len()) + " из "@ + dec(3) + " опорных узлов."@,
        )
    } else {
        check.finished(
            Status::Fail,
            "Ни один сервер в интернете не отвечает. Дальше локальной сети трафик не уходит."@,
            "Все опорные узлы промолчали."@,
        )
    }
}

pub open spec fn anchors_check(probes: Seq<AnchorView>, icmp: IcmpBackend) -> CheckView {
    anchors_found(probes).noted(
        "Режим замеров: "@ + icmp.title_text() + " — "@ + icmp.explanation_text(),
    ).noted_all(anchor_lines(probes))
}

pub open spec fn anchors_node(probes: Seq<AnchorView>) -> EventView {
    match first_answering(probes, 3) {
        Some(anchor) => EventView::Node {
            id: NodeId::Internet,
            subtitle: "отвечает "@ + answering(probes, 3)[0],
            address: Some(anchor.notation()),
        },
        None => EventView::Node {
            id: NodeId::Internet,
            subtitle: "недоступен"@,
            address: None,
        },
    }
}

proof fn lemma_answering(probes: Seq<AnchorView>, n: int)
    requires
        0 <= n,
    ensures
        (answering(probes, n).len() > 0) == (first_answering(probes, n) is Some),
    decreases n,
{
    if n > 0 {
        lemma_answering(probes, n - 1);
    }
}

fn report_anchors(rep: &mut Reporter, probes: &Vec<AnchorProbe>) -> (r: (
    CheckResult,
    Vec<String>,
    Option<Ipv4Addr>,
))
    requires
        probes@.len() == 3,
    ensures
        final(rep)@ == old(rep)@.push(anchors_node(anchor_views(probes@))),
        r.0@ == anchors_found(anchor_views(probes@)),
        texts(r.1@) == anchor_lines(anchor_views(probes@)),
        r.2 == first_answering(anchor_views(probes@), 3),
{
    let ghost views = anchor_views(probes@);
    let list = anchor_list();
    let mut lines: Vec<String> = Vec::new();
    let mut names: Vec<String> = Vec::new();
    let mut first: Option<Ipv4Addr> = None;
    let mut i: usize = 0;
    proof {
        lemma_texts_empty(names@);
    }
    while i < 3
        invariant
            i <= 3,
            probes@.len() == 3,
            views == anchor_views(probes@),
            forall|k: int|
                0 <= k < 3 ==> (#[trigger] list@[k]).0@ == anchors()[k].0 && list@[k].1
                    == anchors()[k].1,
            lines@.len() == i,
            forall|k: int| 0 <= k < i ==> (#[trigger] lines@[k])@ == anchor_lines(views)[k],
            texts(names@) == answering(views, i as int),
            first == first_answering(views, i as int),
        decreases 3 - i,
    {
        let (name, ip) = list[i];
        let probe = &probes[i];
        assert(views[i as int] == probe@);
        lines.push(probe.evidence(name, ip));
        if probe.has_answered() {
            let owned = name.to_owned();
            proof {
                lemma_texts_push(names@, owned);
            }
            names.push(owned);
            if first.is_none() {
                first = Some(ip);
            }
        }
        i += 1;
    }
    proof {
        assert(texts(lines@) =~= anchor_lines(views));
        lemma_answering(views, 3);
        assert(names@.len() == texts(names@).len());
    }
    let check = CheckResult::new(
        "l4.anchors",
        Layer::L4Transport,
        NodeId::Internet,
        "Связь с интернетом",
    );
    let done = match first {
        Some(anchor) => {
            assert(texts(names@)[0] == names@[0]@);
            rep.node(
                NodeId::Internet,
                String::from_str("отвечает ").concat(names[0].as_str()).as_str(),
                Some(anchor.text()),
            );
            check.finish(
                Status::Good,
                String::from_str("Интернет доступен: отвечают ").concat(
                    join(&names, ", ").as_str(),
                ).concat(".").as_str(),
                String::from_str("Ответили ").concat(
                    decimal(names.len() as u128).as_str(),
                ).concat(" из ").concat(decimal(3).as_str()).concat(" опорных узлов.").as_str(),
            )
        },
        None => {
            rep.node(NodeId::Internet, "недоступен", None);
            check.finish(
                Status::Fail,
                "Ни один сервер в интернете не отвечает. Дальше локальной сети трафик не уходит.",
                "Все опорные узлы промолчали.",
            )
        },
    };
    (done, lines, first)
}

/// Reports which anchors of the internet answer, and returns the first of them:
/// it is what a route is traced to.
pub fn check_anchors(rep: &mut Reporter, probes: &Vec<AnchorProbe>, caps: Capabilities) -> (r:
    Option<Ipv4Addr>)
    requires
        probes@.len() == 3,
    ensures
        final(rep)@ == old(rep)@.push(anchors_node(anchor_views(probes@))).push(
            EventView::Check(anchors_check(anchor_views(probes@), caps.icmp)),
        ),
        r == first_answering(anchor_views(probes@), 3),
{
    let (done, lines, first) = report_anchors(rep, probes);
    let mode = String::from_str("Режим замеров: ").concat(caps.icmp.title()).concat(" — ").concat(
        caps.icmp.explanation(),
    );
    rep.check(done.with_evidence(mode.as_str()).with_all_evidence(&lines));
    first
}

/// The router is alive where an echo came back, or where a port answered with a
/// connection or a refusal; its check is good exactly then. Silence is only a
/// warning, and without an address nothing is tried.
pub proof fn the_router_is_judged_by_its_answers(probe: RouterProbe)
    ensures
        match probe {
            RouterProbe::Skipped => probe.alive() is None && probe.check().status
                == Status::Skipped,
            RouterProbe::Pinged { gateway, stats } => {
                &&& probe.alive() == Some(stats.received > 0)
                &&& probe.check().status == (if stats.received > 0 {
                    Status::Good
                } else {
                    Status::Warn
                })
            },
            RouterProbe::Connected { gateway, outcomes } => {
                let answered = exists|i: int|
                    0 <= i < outcomes@.len() && ((#[trigger] outcomes@[i])@ is Open
                        || outcomes@[i]@ is Refused);
                &&& probe.alive() == Some(answered)
                &&& probe.check().status == (if answered {
                    Status::Good
                } else {
                    Status::Warn
                })
                &&& probe.check().evidence.len() == outcomes@.len()
            },
        },
        probe.check().node == NodeId::Router,
{
    if let RouterProbe::Connected { gateway, outcomes } = probe {
        let views = tcp_views(outcomes@);
        if shows_life(views) {
            let i = choose|i: int| 0 <= i < views.len() && is_sign_of_life(#[trigger] views[i]);
            assert(outcomes@[i]@ is Open || outcomes@[i]@ is Refused);
        }
        if exists|i: int|
            0 <= i < outcomes@.len() && ((#[trigger] outcomes@[i])@ is Open
                || outcomes@[i]@ is Refused) {
            let i = choose|i: int|
                0 <= i < outcomes@.len() && ((#[trigger] outcomes@[i])@ is Open
                    || outcomes@[i]@ is Refused);
            assert(is_sign_of_life(views[i]));
        }
    }
}

/// The internet is there exactly where one of the three anchors answers: an echo
/// came back, or the port is open; a refusal does not count. The first one that
/// answers is the anchor.
pub proof fn one_anchor_is_enough(probes: Seq<AnchorView>, icmp: IcmpBackend)
    requires
        probes.len() == 3,
    ensures
        ({
            let up = |p: AnchorView|
                match p {
                    AnchorView::Pinged(s) => s.received > 0,
                    AnchorView::Connected(o) => o is Open,
                };
            let first = first_answering(probes, 3);
            &&& first == (if up(probes[0]) {
                Some(Ipv4Addr { a: 1, b: 1, c: 1, d: 1 })
            } else if up(probes[1]) {
                Some(Ipv4Addr { a: 8, b: 8, c: 8, d: 8 })
            } else if up(probes[2]) {
                Some(Ipv4Addr { a: 77, b: 88, c: 8, d: 8 })
            } else {
                None
            })
            &&& anchors_check(probes, icmp).status == (if first is Some {
                Status::Good
            } else {
                Status::Fail
            })
            &&& anchors_node(probes)->address == (match first {
                Some(a) => Some(a.notation()),
                None => None,
            })
            &&& answering(probes, 3).len() == (if up(probes[0]) { 1int } else { 0 }) + (if up(
                probes[1],
            ) { 1int } else { 0 }) + (if up(probes[2]) { 1int } else { 0 })
            &&& anchors_check(probes, icmp).evidence.len() == 4
        }),
{
    reveal_with_fuel(answering, 4);
    reveal_with_fuel(first_answering, 4);
}

/// The check of tools is good exactly where none was found; it lists every one
/// of them.
pub proof fn tools_are_a_warning(list: Seq<bypass::FindingView>)
    ensures
        bypass_check(list).status == (if list.len() == 0 {
            Status::Good
        } else {
            Status::Warn
        }),
        bypass_check(list).evidence.len() == list.len(),
        forall|i: int|
            0 <= i < list.len() ==> #[trigger] bypass_check(list).evidence[i] == list[i].kind
                .title_text() + " · "@ + list[i].name + " — "@ + list[i].evidence,
{
    assert(bypass_check(list).evidence =~= tool_lines(list));
}

/// A router is tried by connecting on the ports of its pages and of its names.
pub proof fn routers_are_tried_on_three_ports(outcomes: Seq<TcpView>)
    ensures
        router_ports() == seq![80u16, 443, 53],
        shows_life(outcomes) <==> exists|i: int|
            0 <= i < outcomes.len() && ((#[trigger] outcomes[i]) is Open || outcomes[i] is Refused),
        (forall|i: int|
            0 <= i < outcomes.len() ==> (#[trigger] outcomes[i]) is Timeout
                || outcomes[i] is Unreachable) ==> !shows_life(outcomes),
{
    if exists|i: int|
        0 <= i < outcomes.len() && ((#[trigger] outcomes[i]) is Open || outcomes[i] is Refused) {
        let i = choose|i: int|
            0 <= i < outcomes.len() && ((#[trigger] outcomes[i]) is Open || outcomes[i] is Refused);
        assert(is_sign_of_life(outcomes[i]));
    }
}

} // verus!
