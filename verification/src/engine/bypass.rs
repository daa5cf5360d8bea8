//! Tools that get round blocking, and tunnels.
//!
//! This is no ornament of the report but a condition of its truth. Where a
//! VPN or a DPI bypass is at work, all other checks describe the line that was
//! got round and not the one that the provider gives. The user has to see that
//! first.
//!
//! Tools are looked for in three ways: among the running processes, among the
//! network interfaces and on local ports. None of them is certain, so the sign
//! by which something was found is always reported with it.

use vstd::prelude::*;
use vstd::string::StringExecFns;
use crate::scan::{contains, has_text, join, joined, texts};
use crate::text::{before, comes_before, dec, decimal, lemma_before, lower, lowercased, same};
use super::l1_l2::{interface_views, Interface, InterfaceView};

verus! {

/// What kind of tool was found.
#[derive(Debug, Clone, Copy, PartialEq, Eq, Structural)]
pub enum BypassKind {
    /// Works on the traffic itself: zapret, GoodbyeDPI and their kin.
    DpiBypass,
    /// A tunnel through which all traffic goes.
    Vpn,
    /// A local proxy: only programs that know of it send traffic through it.
    Proxy,
}

impl BypassKind {
    pub open spec fn title_text(self) -> Seq<char> {
        match self {
            BypassKind::DpiBypass => "Обход блокировок"@,
            BypassKind::Vpn => "VPN-туннель"@,
            BypassKind::Proxy => "Локальный прокси"@,
        }
    }

    pub fn title(self) -> (r: &'static str)
        ensures
            r@ == self.title_text(),
    {
        match self {
            BypassKind::DpiBypass => "Обход блокировок",
            BypassKind::Vpn => "VPN-туннель",
            BypassKind::Proxy => "Локальный прокси",
        }
    }
}

/// How sure it is that a tool affects the traffic.
#[derive(Debug, Clone, Copy, PartialEq, Eq, PartialOrd, Ord, Structural)]
pub enum Confidence {
    /// It was found, but whether traffic goes through it is not known.
    Found,
    /// It is at work: the tunnel carries the default route, or the proxy took a
    /// connection.
    Active,
}

impl Confidence {
    pub open spec fn stronger(self, other: Confidence) -> bool {
        self == Confidence::Active && other == Confidence::Found
    }

    pub fn is_stronger(self, other: Confidence) -> (r: bool)
        ensures
            r == self.stronger(other),
    {
        self == Confidence::Active && other == Confidence::Found
    }
}

/// One tool that was found.
#[derive(Debug)]
pub struct Finding {
    pub kind: BypassKind,
    /// What the user calls it.
    pub name: String,
    /// The sign by which it was found.
    pub evidence: String,
    pub confidence: Confidence,
}

#[verifier::ext_equal]
pub struct FindingView {
    pub kind: BypassKind,
    pub name: Seq<char>,
    pub evidence: Seq<char>,
    pub confidence: Confidence,
}

impl View for Finding {
    type V = FindingView;

    open spec fn view(&self) -> FindingView {
        FindingView {
            kind: self.kind,
            name: self.name@,
            evidence: self.evidence@,
            confidence: self.confidence,
        }
    }
}

pub open spec fn views(list: Seq<Finding>) -> Seq<FindingView> {
    list.map_values(|f: Finding| f@)
}

proof fn lemma_views_push(list: Seq<Finding>, f: Finding)
    ensures
        views(list.push(f)) == views(list).push(f@),
{
    assert(views(list.push(f)) =~= views(list).push(f@));
}

/// What was found, and whether it changes the meaning of the other checks.
#[derive(Debug, Clone)]
pub struct Report {
    pub findings: Vec<Finding>,
}

impl View for Report {
    type V = Seq<FindingView>;

    open spec fn view(&self) -> Seq<FindingView> {
        views(self.findings@)
    }
}

pub open spec fn is_active_tunnel(f: FindingView) -> bool {
    f.kind == BypassKind::Vpn && f.confidence == Confidence::Active
}

/// Whether all traffic goes past the usual line.
pub open spec fn tunneled(list: Seq<FindingView>) -> bool {
    exists|i: int| 0 <= i < list.len() && is_active_tunnel(#[trigger] list[i])
}

pub open spec fn names_of(list: Seq<FindingView>) -> Seq<Seq<char>> {
    list.map_values(|f: FindingView| f.name)
}

pub open spec fn summary_text(list: Seq<FindingView>) -> Seq<char> {
    if list.len() == 0 {
        "Средств обхода и туннелей не обнаружено."@
    } else {
        "Найдено: "@ + joined(names_of(list), ", "@) + "."@
    }
}

/// The first tool that works on the traffic itself.
pub open spec fn first_dpi(list: Seq<FindingView>) -> Option<Seq<char>>
    decreases list.len(),
{
    if list.len() == 0 {
        None
    } else if list[0].kind == BypassKind::DpiBypass {
        Some(list[0].name)
    } else {
        first_dpi(list.drop_first())
    }
}

impl Report {
    pub fn new() -> (r: Self)
        ensures
            r@ == Seq::<FindingView>::empty(),
    {
        let r = Report { findings: Vec::new() };
        assert(r@ =~= Seq::<FindingView>::empty());
        r
    }

    /// Whether all traffic goes past the usual line. Only then the other
    /// conclusions do not describe the user's connection.
    pub fn traffic_is_tunneled(&self) -> (r: bool)
        ensures
            r == tunneled(self@),
    {
        let mut i: usize = 0;
        while i < self.findings.len()
            invariant
                i <= self.findings@.len(),
                forall|j: int| 0 <= j < i ==> !is_active_tunnel(#[trigger] self@[j]),
            decreases self.findings@.len() - i,
        {
            assert(self@[i as int] == self.findings@[i as int]@);
            if self.findings[i].kind == BypassKind::Vpn && self.findings[i].confidence
                == Confidence::Active {
                assert(is_active_tunnel(self@[i as int]));
                return true;
            }
            i += 1;
        }
        false
    }

    pub fn is_empty(&self) -> (r: bool)
        ensures
            r == (self@.len() == 0),
    {
        self.findings.len() == 0
    }

    /// A short summary for a line of the report.
    pub fn summary(&self) -> (r: String)
        ensures
            r@ == summary_text(self@),
    {
        if self.findings.len() == 0 {
            return String::from_str("Средств обхода и туннелей не обнаружено.");
        }
        let mut names: Vec<String> = Vec::new();
        let mut i: usize = 0;
        while i < self.findings.len()
            invariant
                i <= self.findings@.len(),
                names@.len() == i,
                forall|j: int| 0 <= j < i ==> (#[trigger] names@[j])@ == self.findings@[j].name@,
            decreases self.findings@.len() - i,
        {
            names.push(self.findings[i].name.clone());
            i += 1;
        }
        assert(texts(names@) =~= names_of(self@));
        String::from_str("Найдено: ").concat(join(&names, ", ").as_str()).concat(".")
    }

    /// The name of the first tool that works on the traffic itself, if there
    /// is one.
    pub fn dpi_bypass_name(&self) -> (r: Option<String>)
        ensures
            match r {
                Some(n) => first_dpi(self@) == Some(n@),
                None => first_dpi(self@) is None,
            },
    {
        let ghost list = self@;
        let mut i: usize = 0;
        assert(list.skip(0) =~= list);
        while i < self.findings.len()
            invariant
                i <= self.findings@.len(),
                list == self@,
                first_dpi(list.skip(i as int)) == first_dpi(list),
            decreases self.findings@.len() - i,
        {
            proof {
                assert(list.skip(i as int)[0] == self.findings@[i as int]@);
                assert(list.skip(i as int).drop_first() =~= list.skip(i + 1));
            }
            if self.findings[i].kind == BypassKind::DpiBypass {
                return Some(self.findings[i].name.clone());
            }
            i += 1;
        }
        assert(list.skip(i as int) =~= Seq::<FindingView>::empty());
        None
    }
}

impl Default for Report {
    fn default() -> (r: Self)
        ensures
            r@ == Seq::<FindingView>::empty(),
    {
        Report::new()
    }
}

/// Known processes: a part of the process's name, the kind of tool and what it
/// is called. The list is bound to be incomplete, so a part is looked for and
/// not a whole name.
pub open spec fn process_markers() -> Seq<(Seq<char>, BypassKind, Seq<char>)> {
    seq![
        ("winws"@, BypassKind::DpiBypass, "zapret (winws)"@),
        ("nfqws"@, BypassKind::DpiBypass, "zapret (nfqws)"@),
        ("tpws"@, BypassKind::DpiBypass, "zapret (tpws)"@),
        ("zapret"@, BypassKind::DpiBypass, "zapret"@),
        ("goodbyedpi"@, BypassKind::DpiBypass, "GoodbyeDPI"@),
        ("byedpi"@, BypassKind::DpiBypass, "ByeDPI"@),
        ("wireguard"@, BypassKind::Vpn, "WireGuard"@),
        ("openvpn"@, BypassKind::Vpn, "OpenVPN"@),
        ("amneziavpn"@, BypassKind::Vpn, "AmneziaVPN"@),
        ("outline"@, BypassKind::Vpn, "Outline"@),
        ("tailscale"@, BypassKind::Vpn, "Tailscale"@),
        ("nordvpn"@, BypassKind::Vpn, "NordVPN"@),
        ("protonvpn"@, BypassKind::Vpn, "Proton VPN"@),
        ("windscribe"@, BypassKind::Vpn, "Windscribe"@),
        ("tg-ws-proxy"@, BypassKind::Proxy, "tg-ws-proxy"@),
        ("tgwsproxy"@, BypassKind::Proxy, "tg-ws-proxy"@),
        ("mtproto"@, BypassKind::Proxy, "MTProto-прокси"@),
        ("xray"@, BypassKind::Proxy, "Xray"@),
        ("v2ray"@, BypassKind::Proxy, "V2Ray"@),
        ("sing-box"@, BypassKind::Proxy, "sing-box"@),
        ("nekoray"@, BypassKind::Proxy, "NekoRay"@),
        ("hiddify"@, BypassKind::Proxy, "Hiddify"@),
        ("clash"@, BypassKind::Proxy, "Clash"@),
    ]
}

fn marker_list() -> (r: [(&'static str, BypassKind, &'static str); 23])
    ensures
        forall|i: int|
            0 <= i < 23 ==> (#[trigger] r@[i]).0@ == process_markers()[i].0 && r@[i].1
                == process_markers()[i].1 && r@[i].2@ == process_markers()[i].2,
{
    [
        ("winws", BypassKind::DpiBypass, "zapret (winws)"),
        ("nfqws", BypassKind::DpiBypass, "zapret (nfqws)"),
        ("tpws", BypassKind::DpiBypass, "zapret (tpws)"),
        ("zapret", BypassKind::DpiBypass, "zapret"),
        ("goodbyedpi", BypassKind::DpiBypass, "GoodbyeDPI"),
        ("byedpi", BypassKind::DpiBypass, "ByeDPI"),
        ("wireguard", BypassKind::Vpn, "WireGuard"),
        ("openvpn", BypassKind::Vpn, "OpenVPN"),
        ("amneziavpn", BypassKind::Vpn, "AmneziaVPN"),
        ("outline", BypassKind::Vpn, "Outline"),
        ("tailscale", BypassKind::Vpn, "Tailscale"),
        ("nordvpn", BypassKind::Vpn, "NordVPN"),
        ("protonvpn", BypassKind::Vpn, "Proton VPN"),
        ("windscribe", BypassKind::Vpn, "Windscribe"),
        ("tg-ws-proxy", BypassKind::Proxy, "tg-ws-proxy"),
        ("tgwsproxy", BypassKind::Proxy, "tg-ws-proxy"),
        ("mtproto", BypassKind::Proxy, "MTProto-прокси"),
        ("xray", BypassKind::Proxy, "Xray"),
        ("v2ray", BypassKind::Proxy, "V2Ray"),
        ("sing-box", BypassKind::Proxy, "sing-box"),
        ("nekoray", BypassKind::Proxy, "NekoRay"),
        ("hiddify", BypassKind::Proxy, "Hiddify"),
        ("clash", BypassKind::Proxy, "Clash"),
    ]
}

/// The first known tool whose mark stands in a process's name in lower case.
pub open spec fn tool_in(
    process: Seq<char>,
    markers: Seq<(Seq<char>, BypassKind, Seq<char>)>,
) -> Option<(BypassKind, Seq<char>)>
    decreases markers.len(),
{
    if markers.len() == 0 {
        None
    } else if has_text(process, markers[0].0) {
        Some((markers[0].1, markers[0].2))
    } else {
        tool_in(process, markers.drop_first())
    }
}

/// Recognises a tool by a process's name in lower case.
pub fn recognise(process: &str) -> (r: Option<(BypassKind, &'static str)>)
    ensures
        match r {
            Some((kind, name)) => tool_in(process@, process_markers()) == Some((kind, name@)),
            None => tool_in(process@, process_markers()) is None,
        },
{
    let markers = marker_list();
    let ghost list = process_markers();
    let mut i: usize = 0;
    assert(list.skip(0) =~= list);
    while i < 23
        invariant
            i <= 23,
            list == process_markers(),
            forall|j: int|
                0 <= j < 23 ==> (#[trigger] markers@[j]).0@ == list[j].0 && markers@[j].1
                    == list[j].1 && markers@[j].2@ == list[j].2,
            tool_in(process@, list.skip(i as int)) == tool_in(process@, list),
        decreases 23 - i,
    {
        proof {
            assert(list.skip(i as int)[0] == list[i as int]);
            assert(list.skip(i as int).drop_first() =~= list.skip(i + 1));
        }
        let marker = markers[i];
        if contains(process, marker.0) {
            return Some((marker.1, marker.2));
        }
        i += 1;
    }
    assert(list.skip(i as int) =~= Seq::<(Seq<char>, BypassKind, Seq<char>)>::empty());
    None
}

/// What a running process shows; `lowered` is its name in lower case.
pub open spec fn process_finding(process: Seq<char>, lowered: Seq<char>) -> Option<FindingView> {
    match tool_in(lowered, process_markers()) {
        Some((kind, name)) => Some(
            FindingView {
                kind,
                name,
                evidence: "запущен процесс "@ + process,
                confidence: Confidence::Found,
            },
        ),
        None => None,
    }
}

/// What running processes show, in their order.
pub open spec fn process_findings(processes: Seq<Seq<char>>) -> Seq<FindingView>
    decreases processes.len(),
{
    if processes.len() == 0 {
        Seq::empty()
    } else {
        let before = process_findings(processes.drop_last());
        match process_finding(processes.last(), lowercased(processes.last())) {
            Some(f) => before.push(f),
            None => before,
        }
    }
}

/// Looks for known tools among the names of running processes.
pub fn scan_processes(processes: &Vec<String>) -> (r: Vec<Finding>)
    ensures
        views(r@) == process_findings(texts(processes@)),
{
    let ghost list = texts(processes@);
    let mut found: Vec<Finding> = Vec::new();
    let mut i: usize = 0;
    proof {
        assert(list.take(0) =~= Seq::<Seq<char>>::empty());
        assert(views(found@) =~= Seq::<FindingView>::empty());
    }
    while i < processes.len()
        invariant
            i <= processes@.len(),
            list == texts(processes@),
            views(found@) == process_findings(list.take(i as int)),
        decreases processes@.len() - i,
    {
        proof {
            assert(list.take(i + 1).drop_last() =~= list.take(i as int));
            assert(list.take(i + 1).last() == processes@[i as int]@);
        }
        let process = processes[i].as_str();
        match recognise(lower(process).as_str()) {
            Some((kind, name)) => {
                let f = Finding {
                    kind,
                    name: name.to_owned(),
                    evidence: String::from_str("запущен процесс ").concat(process),
                    confidence: Confidence::Found,
                };
                proof {
                    lemma_views_push(found@, f);
                }
                found.push(f);
            },
            None => {},
        }
        i += 1;
    }
    assert(list.take(i as int) =~= list);
    found
}

/// Whether a text in lower case holds a word of a tunnel's adapter.
pub open spec fn tunnel_words(text: Seq<char>) -> bool {
    has_text(text, "wireguard"@) || has_text(text, "openvpn"@) || has_text(text, "tap-windows"@)
        || has_text(text, "wintun"@) || has_text(text, "tun"@) || has_text(text, "amnezia"@)
}

/// Whether a text in lower case holds a word of a tunnel's adapter.
pub fn sounds_like_tunnel(text: &str) -> (r: bool)
    ensures
        r == tunnel_words(text@),
{
    contains(text, "wireguard") || contains(text, "openvpn") || contains(text, "tap-windows")
        || contains(text, "wintun") || contains(text, "tun") || contains(text, "amnezia")
}

pub open spec fn tunnel(iface: InterfaceView) -> bool {
    iface.tun || tunnel_words(lowercased(iface.all_names()))
}

pub fn is_tunnel(iface: &Interface) -> (r: bool)
    ensures
        r == tunnel(iface@),
{
    if iface.tun {
        return true;
    }
    sounds_like_tunnel(lower(iface.names().as_str()).as_str())
}

/// What a tunnel's interface shows.
pub open spec fn interface_finding(iface: InterfaceView, default_is_tunnel: bool) -> FindingView {
    FindingView {
        kind: BypassKind::Vpn,
        name: "Туннель «"@ + iface.label() + "»"@,
        evidence: "поднят туннельный интерфейс "@ + iface.label() + (if default_is_tunnel {
            ", через него идёт маршрут по умолчанию"@
        } else {
            ", но маршрут по умолчанию идёт мимо него"@
        }),
        confidence: if default_is_tunnel {
            Confidence::Active
        } else {
            Confidence::Found
        },
    }
}

/// What interfaces show, in their order.
pub open spec fn interface_findings(
    list: Seq<InterfaceView>,
    default_is_tunnel: bool,
) -> Seq<FindingView>
    decreases list.len(),
{
    if list.len() == 0 {
        Seq::empty()
    } else {
        let before = interface_findings(list.drop_last(), default_is_tunnel);
        if list.last().usable() && tunnel(list.last()) {
            before.push(interface_finding(list.last(), default_is_tunnel))
        } else {
            before
        }
    }
}

/// Looks for tunnels among the interfaces: the most reliable sign of a VPN.
/// Where a tunnel also carries the default route, traffic really goes past the
/// usual line, and it is not merely an idle tunnel.
pub fn scan_interfaces(interfaces: &Vec<Interface>, default_is_tunnel: bool) -> (r: Vec<Finding>)
    ensures
        views(r@) == interface_findings(interface_views(interfaces@), default_is_tunnel),
{
    let ghost list = interface_views(interfaces@);
    let mut found: Vec<Finding> = Vec::new();
    let mut i: usize = 0;
    proof {
        assert(list.take(0) =~= Seq::<InterfaceView>::empty());
        assert(views(found@) =~= Seq::<FindingView>::empty());
    }
    while i < interfaces.len()
        invariant
            i <= interfaces@.len(),
            list == interface_views(interfaces@),
            views(found@) == interface_findings(list.take(i as int), default_is_tunnel),
        decreases interfaces@.len() - i,
    {
        proof {
            assert(list.take(i + 1).drop_last() =~= list.take(i as int));
            assert(list.take(i + 1).last() == interfaces@[i as int]@);
        }
        if interfaces[i].is_usable() && is_tunnel(&interfaces[i]) {
            let label = interfaces[i].label();
            let f = Finding {
                kind: BypassKind::Vpn,
                name: String::from_str("Туннель «").concat(label.as_str()).concat("»"),
                evidence: String::from_str("поднят туннельный интерфейс ").concat(
                    label.as_str(),
                ).concat(
                    if default_is_tunnel {
                        ", через него идёт маршрут по умолчанию"
                    } else {
                        ", но маршрут по умолчанию идёт мимо него"
                    },
                ),
                confidence: if default_is_tunnel {
                    Confidence::Active
                } else {
                    Confidence::Found
                },
            };
            proof {
                lemma_views_push(found@, f);
            }
            found.push(f);
        }
        i += 1;
    }
    assert(list.take(i as int) =~= list);
    found
}

/// The ports on which local proxies usually listen.
pub open spec fn proxy_ports() -> Seq<(u16, Seq<char>)> {
    seq![
        (1080u16, "SOCKS5"@),
        (1081u16, "SOCKS5"@),
        (2080u16, "SOCKS5"@),
        (8080u16, "HTTP-прокси"@),
        (8081u16, "HTTP-прокси"@),
        (9050u16, "Tor"@),
        (10808u16, "Xray/V2Ray SOCKS"@),
        (10809u16, "Xray/V2Ray HTTP"@),
    ]
}

/// The ports on which local proxies usually listen.
pub fn port_list() -> (r: [(u16, &'static str); 8])
    ensures
        forall|i: int|
            0 <= i < 8 ==> (#[trigger] r@[i]).0 == proxy_ports()[i].0 && r@[i].1@
                == proxy_ports()[i].1,
{
    [
        (1080, "SOCKS5"),
        (1081, "SOCKS5"),
        (2080, "SOCKS5"),
        (8080, "HTTP-прокси"),
        (8081, "HTTP-прокси"),
        (9050, "Tor"),
        (10808, "Xray/V2Ray SOCKS"),
        (10809, "Xray/V2Ray HTTP"),
    ]
}

/// What a port that takes connections shows.
pub open spec fn port_finding(port: u16, label: Seq<char>) -> FindingView {
    FindingView {
        kind: BypassKind::Proxy,
        name: "прокси на порту "@ + dec(port as nat),
        evidence: "порт 127.0.0.1:"@ + dec(port as nat) + " принимает соединения ("@ + label
            + ")"@,
        confidence: Confidence::Active,
    }
}

/// What ports show: those of a list that are open, in its order.
pub open spec fn port_findings(ports: Seq<(u16, Seq<char>)>, open: Seq<u16>) -> Seq<FindingView>
    decreases ports.len(),
{
    if ports.len() == 0 {
        Seq::empty()
    } else {
        let before = port_findings(ports.drop_last(), open);
        if open.contains(ports.last().0) {
            before.push(port_finding(ports.last().0, ports.last().1))
        } else {
            before
        }
    }
}

fn holds_port(list: &Vec<u16>, port: u16) -> (r: bool)
    ensures
        r == list@.contains(port),
{
    let mut i: usize = 0;
    while i < list.len()
        invariant
            i <= list@.len(),
            forall|j: int| 0 <= j < i ==> list@[j] != port,
        decreases list@.len() - i,
    {
        if list[i] == port {
            return true;
        }
        i += 1;
    }
    false
}

/// Reports the proxies on local ports; `open` lists the ports that took a
/// connection. A proxy that takes one is really there and works.
pub fn scan_proxy_ports(open: &Vec<u16>) -> (r: Vec<Finding>)
    ensures
        views(r@) == port_findings(proxy_ports(), open@),
{
    let ports = port_list();
    let ghost list = proxy_ports();
    let mut found: Vec<Finding> = Vec::new();
    let mut i: usize = 0;
    proof {
        assert(list.take(0) =~= Seq::<(u16, Seq<char>)>::empty());
        assert(views(found@) =~= Seq::<FindingView>::empty());
    }
    while i < 8
        invariant
            i <= 8,
            list == proxy_ports(),
            forall|j: int|
                0 <= j < 8 ==> (#[trigger] ports@[j]).0 == list[j].0 && ports@[j].1@ == list[j].1,
            views(found@) == port_findings(list.take(i as int), open@),
        decreases 8 - i,
    {
        proof {
            assert(list.take(i + 1).drop_last() =~= list.take(i as int));
            assert(list.take(i + 1).last() == list[i as int]);
        }
        let (port, label) = ports[i];
        if holds_port(open, port) {
            let number = decimal(port as u128);
            let f = Finding {
                kind: BypassKind::Proxy,
                name: String::from_str("прокси на порту ").concat(number.as_str()),
                evidence: String::from_str("порт 127.0.0.1:").concat(number.as_str()).concat(
                    " принимает соединения (",
                ).concat(label).concat(")"),
                confidence: Confidence::Active,
            };
            proof {
                lemma_views_push(found@, f);
            }
            found.push(f);
        }
        i += 1;
    }
    assert(list.take(i as int) =~= list);
    found
}

/// Whether a finding outweighs all others of the same name: it is the first of
/// the strongest.
pub open spec fn prevails(list: Seq<FindingView>, i: int) -> bool {
    forall|j: int|
        0 <= j < list.len() && (#[trigger] list[j]).name == list[i].name && j != i ==> {
            ||| list[i].confidence.stronger(list[j].confidence)
            ||| list[i].confidence == list[j].confidence && i < j
        }
}

/// Whether a list holds exactly the prevailing findings of another, in the
/// order of their names.
pub open spec fn reduced(list: Seq<FindingView>, out: Seq<FindingView>) -> bool {
    &&& forall|a: int, b: int|
        0 <= a < b < out.len() ==> before((#[trigger] out[a]).name, (#[trigger] out[b]).name)
    &&& forall|k: int|
        0 <= k < out.len() ==> exists|i: int|
            0 <= i < list.len() && #[trigger] prevails(list, i) && list[i] == #[trigger] out[k]
    &&& forall|i: int|
        0 <= i < list.len() && #[trigger] prevails(list, i) ==> out.contains(list[i])
}

proof fn lemma_some_prevails(list: Seq<FindingView>, j: int)
    requires
        0 <= j < list.len(),
    ensures
        exists|i: int|
            0 <= i < list.len() && #[trigger] prevails(list, i) && list[i].name == list[j].name,
    decreases list.len(),
{
    let q = list.drop_last();
    let n = list.len() - 1;
    let f = list.last();
    let name = list[j].name;
    if exists|k: int| 0 <= k < n && (#[trigger] q[k]).name == name {
        let k = choose|k: int| 0 <= k < n && (#[trigger] q[k]).name == name;
        lemma_some_prevails(q, k);
        let i = choose|i: int|
            0 <= i < q.len() && #[trigger] prevails(q, i) && q[i].name == q[k].name;
        assert(q[i] == list[i]);
        if f.name == name && f.confidence.stronger(q[i].confidence) {
            assert(prevails(list, n)) by {
                assert forall|m: int|
                    0 <= m < list.len() && (#[trigger] list[m]).name == list[n].name && m
                        != n implies list[n].confidence.stronger(list[m].confidence) by {
                    assert(q[m] == list[m]);
                }
            }
            assert(list[n].name == name);
        } else {
            assert(prevails(list, i)) by {
                assert forall|m: int|
                    0 <= m < list.len() && (#[trigger] list[m]).name == list[i].name && m
                        != i implies {
                    ||| list[i].confidence.stronger(list[m].confidence)
                    ||| list[i].confidence == list[m].confidence && i < m
                } by {
                    if m < n {
                        assert(q[m] == list[m]);
                    }
                }
            }
        }
    } else {
        assert(j == n) by {
            if j < n {
                assert(q[j] == list[j]);
            }
        }
        assert(prevails(list, n)) by {
            assert forall|m: int|
                0 <= m < list.len() && (#[trigger] list[m]).name == list[n].name && m
                    != n implies false by {
                assert(q[m] == list[m]);
            }
        }
    }
}

/// A reduced list with one more finding taken in at its place.
spec fn taken_in(out: Seq<FindingView>, f: FindingView, pos: int) -> Seq<FindingView> {
    if pos < out.len() && out[pos].name == f.name {
        if f.confidence.stronger(out[pos].confidence) {
            out.update(pos, f)
        } else {
            out
        }
    } else {
        out.insert(pos, f)
    }
}

proof fn lemma_prevails_push(list: Seq<FindingView>, f: FindingView, i: int)
    requires
        0 <= i < list.len(),
    ensures
        prevails(list.push(f), i) <==> prevails(list, i) && (f.name != list[i].name
            || !f.confidence.stronger(list[i].confidence)),
{
    let more = list.push(f);
    let n = list.len() as int;
    if prevails(more, i) {
        assert forall|j: int|
            0 <= j < list.len() && (#[trigger] list[j]).name == list[i].name && j != i implies {
            ||| list[i].confidence.stronger(list[j].confidence)
            ||| list[i].confidence == list[j].confidence && i < j
        } by {
            assert(more[j] == list[j]);
        }
        assert(more[n] == f);
    }
    if prevails(list, i) && (f.name != list[i].name || !f.confidence.stronger(
        list[i].confidence,
    )) {
        assert forall|j: int|
            0 <= j < more.len() && (#[trigger] more[j]).name == more[i].name && j != i implies {
            ||| more[i].confidence.stronger(more[j].confidence)
            ||| more[i].confidence == more[j].confidence && i < j
        } by {
            if j < n {
                assert(more[j] == list[j]);
            }
        }
    }
}

proof fn lemma_taken_in(
    list: Seq<FindingView>,
    out: Seq<FindingView>,
    f: FindingView,
    pos: int,
)
    requires
        reduced(list, out),
        0 <= pos <= out.len(),
        forall|k: int| 0 <= k < pos ==> before((#[trigger] out[k]).name, f.name),
        pos < out.len() ==> !before(out[pos].name, f.name),
    ensures
        reduced(list.push(f), taken_in(out, f, pos)),
{
    let more = list.push(f);
    let n = list.len() as int;
    let done = taken_in(out, f, pos);
    assert(more[n] == f);
    assert forall|i: int| 0 <= i < n implies #[trigger] more[i] == list[i] by {}
    assert forall|i: int| 0 <= i < n implies (#[trigger] prevails(more, i) <==> prevails(list, i)
        && (f.name != list[i].name || !f.confidence.stronger(list[i].confidence))) by {
        lemma_prevails_push(list, f, i);
    }
    assert forall|b: int| pos < b < out.len() implies before(f.name, (#[trigger] out[b]).name) by {
        lemma_before(f.name, out[pos].name, out[b].name);
        assert(before(out[pos].name, out[b].name));
    }
    assert forall|k: int|
        0 <= k < out.len() && k != pos implies (#[trigger] out[k]).name != f.name by {
        lemma_before(out[k].name, f.name, f.name);
    }
    if pos < out.len() && out[pos].name == f.name {
        let g = out[pos];
        let at = choose|i: int| 0 <= i < n && #[trigger] prevails(list, i) && list[i] == g;
        assert(prevails(list, at) && list[at] == g);
        if f.confidence.stronger(g.confidence) {
            assert(prevails(more, n)) by {
                assert forall|j: int|
                    0 <= j < more.len() && (#[trigger] more[j]).name == more[n].name && j
                        != n implies more[n].confidence.stronger(more[j].confidence) by {
                    assert(list[j] == more[j]);
                }
            }
            assert forall|a: int, b: int| 0 <= a < b < done.len() implies before(
                (#[trigger] done[a]).name,
                (#[trigger] done[b]).name,
            ) by {
                assert(before(out[a].name, out[b].name));
            }
            assert forall|k: int| 0 <= k < done.len() implies exists|i: int|
                0 <= i < more.len() && #[trigger] prevails(more, i) && more[i]
                    == #[trigger] done[k] by {
                if k == pos {
                    assert(prevails(more, n) && more[n] == done[k]);
                } else {
                    assert(done[k] == out[k]);
                    let i = choose|i: int|
                        0 <= i < n && #[trigger] prevails(list, i) && list[i] == out[k];
                    assert(prevails(more, i) && more[i] == done[k]);
                }
            }
            assert forall|i: int|
                0 <= i < more.len() && #[trigger] prevails(more, i) implies done.contains(
                more[i],
            ) by {
                if i == n {
                    assert(done[pos] == f);
                } else {
                    assert(prevails(list, i));
                    assert(out.contains(list[i]));
                    let k = choose|k: int| 0 <= k < out.len() && out[k] == list[i];
                    if k == pos {
                        assert(list[i] == g);
                    } else {
                        assert(done[k] == out[k]);
                    }
                }
            }
        } else {
            assert(!prevails(more, n)) by {
                assert(more[at] == g);
            }
            assert forall|k: int| 0 <= k < done.len() implies exists|i: int|
                0 <= i < more.len() && #[trigger] prevails(more, i) && more[i]
                    == #[trigger] done[k] by {
                let i = choose|i: int|
                    0 <= i < n && #[trigger] prevails(list, i) && list[i] == out[k];
                assert(prevails(more, i) && more[i] == done[k]);
            }
            assert forall|i: int|
                0 <= i < more.len() && #[trigger] prevails(more, i) implies done.contains(
                more[i],
            ) by {
                assert(i < n);
                assert(prevails(list, i));
            }
        }
    } else {
        assert forall|j: int| 0 <= j < n implies (#[trigger] list[j]).name != f.name by {
            if list[j].name == f.name {
                lemma_some_prevails(list, j);
                let i = choose|i: int|
                    0 <= i < n && #[trigger] prevails(list, i) && list[i].name == list[j].name;
                assert(out.contains(list[i]));
                let k = choose|k: int| 0 <= k < out.len() && out[k] == list[i];
                assert(out[k].name == f.name);
            }
        }
        assert(prevails(more, n));
        if pos < out.len() {
            lemma_before(out[pos].name, f.name, f.name);
        }
        assert forall|a: int, b: int| 0 <= a < b < done.len() implies before(
            (#[trigger] done[a]).name,
            (#[trigger] done[b]).name,
        ) by {
            let x = if a < pos {
                a
            } else {
                a - 1
            };
            let y = if b < pos {
                b
            } else {
                b - 1
            };
            if a != pos {
                assert(done[a] == out[x]);
            }
            if b != pos {
                assert(done[b] == out[y]);
            }
            if a != pos && b != pos {
                assert(before(out[x].name, out[y].name));
            }
        }
        assert forall|k: int| 0 <= k < done.len() implies exists|i: int|
            0 <= i < more.len() && #[trigger] prevails(more, i) && more[i] == #[trigger] done[k] by {
            if k == pos {
                assert(prevails(more, n) && more[n] == done[k]);
            } else {
                let x = if k < pos {
                    k
                } else {
                    k - 1
                };
                assert(done[k] == out[x]);
                let i = choose|i: int|
                    0 <= i < n && #[trigger] prevails(list, i) && list[i] == out[x];
                assert(prevails(more, i) && more[i] == done[k]);
            }
        }
        assert forall|i: int|
            0 <= i < more.len() && #[trigger] prevails(more, i) implies done.contains(more[i]) by {
            if i == n {
                assert(done[pos] == f);
            } else {
                assert(prevails(list, i));
                assert(out.contains(list[i]));
                let k = choose|k: int| 0 <= k < out.len() && out[k] == list[i];
                if k < pos {
                    assert(done[k] == out[k]);
                } else {
                    assert(done[k + 1] == out[k]);
                }
            }
        }
    }
}

impl Clone for Finding {
    fn clone(&self) -> (r: Self)
        ensures
            r@ == self@,
    {
        Finding {
            kind: self.kind,
            name: self.name.clone(),
            evidence: self.evidence.clone(),
            confidence: self.confidence,
        }
    }
}

/// The same tool is easily found twice, such as by its process and by its
/// interface. The finding with the stronger sign is kept.
pub fn dedup(findings: &mut Vec<Finding>)
    ensures
        reduced(views(old(findings)@), views(final(findings)@)),
{
    let ghost list = views(findings@);
    let mut out: Vec<Finding> = Vec::new();
    let mut i: usize = 0;
    proof {
        assert(list.take(0) =~= Seq::<FindingView>::empty());
        assert(views(out@) =~= Seq::<FindingView>::empty());
    }
    while i < findings.len()
        invariant
            i <= findings@.len(),
            list == views(findings@),
            reduced(list.take(i as int), views(out@)),
        decreases findings@.len() - i,
    {
        let f = findings[i].clone();
        let ghost was = views(out@);
        let mut pos: usize = 0;
        while pos < out.len() && comes_before(out[pos].name.as_str(), f.name.as_str())
            invariant
                pos <= out@.len(),
                was == views(out@),
                forall|k: int| 0 <= k < pos ==> before((#[trigger] was[k]).name, f@.name),
            decreases out@.len() - pos,
        {
            assert(was[pos as int] == out@[pos as int]@);
            pos += 1;
        }
        proof {
            if pos < out@.len() {
                assert(was[pos as int] == out@[pos as int]@);
            }
            assert(list[i as int] == findings@[i as int]@);
            lemma_taken_in(list.take(i as int), was, f@, pos as int);
            assert(list.take(i + 1) =~= list.take(i as int).push(f@));
        }
        if pos < out.len() && same(out[pos].name.as_str(), f.name.as_str()) {
            if f.confidence.is_stronger(out[pos].confidence) {
                out.set(pos, f);
            }
        } else {
            out.insert(pos, f);
        }
        assert(views(out@) =~= taken_in(was, f@, pos as int));
        i += 1;
    }
    assert(list.take(i as int) =~= list);
    *findings = out;
}

/// All that was found, before duplicates are dropped.
pub open spec fn all_findings(
    processes: Seq<Seq<char>>,
    interfaces: Seq<InterfaceView>,
    default_is_tunnel: bool,
    open: Seq<u16>,
) -> Seq<FindingView> {
    process_findings(processes) + interface_findings(interfaces, default_is_tunnel)
        + port_findings(proxy_ports(), open)
}

/// The whole search: among the names of running processes, the interfaces and
/// the local ports that took a connection.
pub fn detect(
    processes: &Vec<String>,
    interfaces: &Vec<Interface>,
    default_is_tunnel: bool,
    open: &Vec<u16>,
) -> (r: Report)
    ensures
        reduced(
            all_findings(
                texts(processes@),
                interface_views(interfaces@),
                default_is_tunnel,
                open@,
            ),
            r@,
        ),
{
    let mut findings = scan_processes(processes);
    let mut more = scan_interfaces(interfaces, default_is_tunnel);
    let mut ports = scan_proxy_ports(open);
    let ghost a = views(findings@);
    let ghost b = views(more@);
    let ghost c = views(ports@);
    findings.append(&mut more);
    findings.append(&mut ports);
    assert(views(findings@) =~= a + b + c);
    dedup(&mut findings);
    Report { findings }
}

/// Dropping duplicates neither loses a tool nor keeps it twice, and an active
/// sign is never given up for a weaker one.
pub proof fn reduction_keeps_every_tool(list: Seq<FindingView>, out: Seq<FindingView>, j: int)
    requires
        reduced(list, out),
        0 <= j < list.len(),
    ensures
        exists|k: int|
            0 <= k < out.len() && (#[trigger] out[k]).name == list[j].name
                && !list[j].confidence.stronger(out[k].confidence),
        forall|a: int, b: int|
            0 <= a < b < out.len() ==> (#[trigger] out[a]).name != (#[trigger] out[b]).name,
{
    lemma_some_prevails(list, j);
    let i = choose|i: int|
        0 <= i < list.len() && #[trigger] prevails(list, i) && list[i].name == list[j].name;
    assert(out.contains(list[i]));
    let k = choose|k: int| 0 <= k < out.len() && out[k] == list[i];
    assert(out[k].name == list[j].name);
    assert forall|a: int, b: int| 0 <= a < b < out.len() implies (#[trigger] out[a]).name != (
    #[trigger] out[b]).name by {
        lemma_before(out[a].name, out[b].name, out[b].name);
    }
}

/// There is only one way to drop duplicates.
pub proof fn reduction_is_unique(
    list: Seq<FindingView>,
    a: Seq<FindingView>,
    b: Seq<FindingView>,
)
    requires
        reduced(list, a),
        reduced(list, b),
    ensures
        a == b,
    decreases a.len() + b.len(),
{
    lemma_same_members(list, a, b);
    lemma_same_members(list, b, a);
    lemma_ordered_sets_agree(a, b);
}

proof fn lemma_same_members(list: Seq<FindingView>, a: Seq<FindingView>, b: Seq<FindingView>)
    requires
        reduced(list, a),
        reduced(list, b),
    ensures
        forall|k: int| 0 <= k < a.len() ==> b.contains(#[trigger] a[k]),
{
    assert forall|k: int| 0 <= k < a.len() implies b.contains(#[trigger] a[k]) by {
        let i = choose|i: int| 0 <= i < list.len() && #[trigger] prevails(list, i) && list[i] == a[k];
        assert(b.contains(list[i]));
    }
}

proof fn lemma_ordered_sets_agree(a: Seq<FindingView>, b: Seq<FindingView>)
    requires
        forall|x: int, y: int|
            0 <= x < y < a.len() ==> before((#[trigger] a[x]).name, (#[trigger] a[y]).name),
        forall|x: int, y: int|
            0 <= x < y < b.len() ==> before((#[trigger] b[x]).name, (#[trigger] b[y]).name),
        forall|k: int| 0 <= k < a.len() ==> b.contains(#[trigger] a[k]),
        forall|k: int| 0 <= k < b.len() ==> a.contains(#[trigger] b[k]),
    ensures
        a == b,
    decreases a.len(),
{
    if a.len() == 0 {
        if b.len() > 0 {
            assert(a.contains(b[0]));
        }
        assert(a =~= b);
    } else {
        assert(b.contains(a[0]));
        let m = a.len() - 1;
        let n = b.len() - 1;
        let i = choose|i: int| 0 <= i < b.len() && b[i] == a[m];
        let j = choose|j: int| 0 <= j < a.len() && a[j] == b[n];
        assert(a[m] == b[n]) by {
            if i < n {
                assert(before(b[i].name, b[n].name));
                if j < m {
                    assert(before(a[j].name, a[m].name));
                    lemma_before(a[m].name, b[n].name, b[n].name);
                }
            }
        }
        let p = a.drop_last();
        let q = b.drop_last();
        assert forall|k: int| 0 <= k < p.len() implies q.contains(#[trigger] p[k]) by {
            assert(p[k] == a[k]);
            let t = choose|t: int| 0 <= t < b.len() && b[t] == a[k];
            if t == n {
                assert(before(a[k].name, a[m].name));
                lemma_before(a[k].name, a[k].name, a[k].name);
            }
            assert(q[t] == b[t]);
        }
        assert forall|k: int| 0 <= k < q.len() implies p.contains(#[trigger] q[k]) by {
            assert(q[k] == b[k]);
            let t = choose|t: int| 0 <= t < a.len() && a[t] == b[k];
            if t == m {
                assert(before(b[k].name, b[n].name));
                lemma_before(b[k].name, b[k].name, b[k].name);
            }
            assert(p[t] == a[t]);
        }
        assert forall|x: int, y: int| 0 <= x < y < p.len() implies before(
            (#[trigger] p[x]).name,
            (#[trigger] p[y]).name,
        ) by {
            assert(p[x] == a[x] && p[y] == a[y]);
        }
        assert forall|x: int, y: int| 0 <= x < y < q.len() implies before(
            (#[trigger] q[x]).name,
            (#[trigger] q[y]).name,
        ) by {
            assert(q[x] == b[x] && q[y] == b[y]);
        }
        lemma_ordered_sets_agree(p, q);
        assert(a =~= p.push(a[m]));
        assert(b =~= q.push(b[n]));
    }
}

/// An idle tunnel is not taken for tunnelled traffic: without a tunnel that
/// carries the default route nothing found on interfaces counts as that.
pub proof fn idle_tunnel_does_not_count(list: Seq<InterfaceView>)
    ensures
        !tunneled(interface_findings(list, false)),
    decreases list.len(),
{
    if list.len() > 0 {
        idle_tunnel_does_not_count(list.drop_last());
        let q = interface_findings(list.drop_last(), false);
        let all = interface_findings(list, false);
        assert forall|i: int| 0 <= i < all.len() implies !is_active_tunnel(#[trigger] all[i]) by {
            if i < q.len() {
                assert(all[i] == q[i]);
            }
        }
    }
}

/// The tool that hides names from a filter is the first one of its kind.
pub proof fn the_first_hiding_tool_is_named(list: Seq<FindingView>)
    ensures
        match first_dpi(list) {
            Some(name) => exists|i: int|
                0 <= i < list.len() && (#[trigger] list[i]).kind == BypassKind::DpiBypass
                    && list[i].name == name && (forall|j: int|
                    0 <= j < i ==> (#[trigger] list[j]).kind != BypassKind::DpiBypass),
            None => forall|i: int|
                0 <= i < list.len() ==> (#[trigger] list[i]).kind != BypassKind::DpiBypass,
        },
    decreases list.len(),
{
    if list.len() > 0 {
        if list[0].kind == BypassKind::DpiBypass {
            assert(list[0].name == first_dpi(list)->0);
        } else {
            let rest = list.drop_first();
            the_first_hiding_tool_is_named(rest);
            match first_dpi(rest) {
                Some(name) => {
                    let i = choose|i: int|
                        0 <= i < rest.len() && (#[trigger] rest[i]).kind == BypassKind::DpiBypass
                            && rest[i].name == name && (forall|j: int|
                            0 <= j < i ==> (#[trigger] rest[j]).kind != BypassKind::DpiBypass);
                    assert(list[i + 1].name == name);
                    assert forall|j: int| 0 <= j < i + 1 implies (#[trigger] list[j]).kind
                        != BypassKind::DpiBypass by {
                        if j > 0 {
                            assert(rest[j - 1].kind != BypassKind::DpiBypass);
                        }
                    }
                },
                None => {
                    assert forall|i: int| 0 <= i < list.len() implies (#[trigger] list[i]).kind
                        != BypassKind::DpiBypass by {
                        if i > 0 {
                            assert(rest[i - 1].kind != BypassKind::DpiBypass);
                        }
                    }
                },
            }
        }
    }
}

/// Traffic is tunnelled exactly where some VPN is at work: neither a proxy nor a
/// tool against filters, nor a tunnel that only stands there, counts.
pub proof fn only_a_working_tunnel_counts(list: Seq<FindingView>)
    ensures
        tunneled(list) <==> exists|i: int|
            0 <= i < list.len() && (#[trigger] list[i]).kind == BypassKind::Vpn
                && list[i].confidence == Confidence::Active,
{
    if tunneled(list) {
        let i = choose|i: int| 0 <= i < list.len() && is_active_tunnel(#[trigger] list[i]);
        assert(list[i].kind == BypassKind::Vpn);
    }
    if exists|i: int|
        0 <= i < list.len() && (#[trigger] list[i]).kind == BypassKind::Vpn
            && list[i].confidence == Confidence::Active {
        let i = choose|i: int|
            0 <= i < list.len() && (#[trigger] list[i]).kind == BypassKind::Vpn
                && list[i].confidence == Confidence::Active;
        assert(is_active_tunnel(list[i]));
    }
}

/// A process is taken for the tool of the first mark that its name holds, and
/// for none exactly where it holds no mark.
pub proof fn the_first_mark_names_the_tool(
    process: Seq<char>,
    markers: Seq<(Seq<char>, BypassKind, Seq<char>)>,
)
    ensures
        match tool_in(process, markers) {
            Some((kind, name)) => exists|i: int|
                0 <= i < markers.len() && (#[trigger] markers[i]).1 == kind && markers[i].2 == name
                    && has_text(process, markers[i].0) && (forall|j: int|
                    0 <= j < i ==> !has_text(process, (#[trigger] markers[j]).0)),
            None => forall|i: int|
                0 <= i < markers.len() ==> !has_text(process, (#[trigger] markers[i]).0),
        },
    decreases markers.len(),
{
    if markers.len() > 0 {
        if has_text(process, markers[0].0) {
            assert(markers[0].1 == (tool_in(process, markers)->0).0);
        } else {
            let rest = markers.drop_first();
            the_first_mark_names_the_tool(process, rest);
            match tool_in(process, rest) {
                Some((kind, name)) => {
                    let i = choose|i: int|
                        0 <= i < rest.len() && (#[trigger] rest[i]).1 == kind && rest[i].2 == name
                            && has_text(process, rest[i].0) && (forall|j: int|
                            0 <= j < i ==> !has_text(process, (#[trigger] rest[j]).0));
                    assert(markers[i + 1].1 == kind);
                    assert forall|j: int| 0 <= j < i + 1 implies !has_text(
                        process,
                        (#[trigger] markers[j]).0,
                    ) by {
                        if j > 0 {
                            assert(!has_text(process, rest[j - 1].0));
                        }
                    }
                },
                None => {
                    assert forall|i: int| 0 <= i < markers.len() implies !has_text(
                        process,
                        (#[trigger] markers[i]).0,
                    ) by {
                        if i > 0 {
                            assert(!has_text(process, rest[i - 1].0));
                        }
                    }
                },
            }
        }
    }
}

/// Every process with a mark is found, and nothing else is; a running process
/// alone does not prove that traffic goes through it.
pub proof fn marked_processes_are_found(processes: Seq<Seq<char>>, f: FindingView)
    ensures
        process_findings(processes).contains(f) <==> exists|i: int|
            0 <= i < processes.len() && process_finding(
                #[trigger] processes[i],
                lowercased(processes[i]),
            ) == Some(f),
        process_findings(processes).contains(f) ==> f.confidence == Confidence::Found,
    decreases processes.len(),
{
    let all = process_findings(processes);
    if processes.len() > 0 {
        let n = processes.len() - 1;
        let rest = processes.drop_last();
        let before = process_findings(rest);
        marked_processes_are_found(rest, f);
        if all.contains(f) {
            let k = choose|k: int| 0 <= k < all.len() && all[k] == f;
            if k < before.len() {
                assert(before[k] == f);
                let i = choose|i: int|
                    0 <= i < rest.len() && process_finding(
                        #[trigger] rest[i],
                        lowercased(rest[i]),
                    ) == Some(f);
                assert(processes[i] == rest[i]);
            } else {
                assert(process_finding(processes[n], lowercased(processes[n])) == Some(f));
            }
        }
        if exists|i: int|
            0 <= i < processes.len() && process_finding(
                #[trigger] processes[i],
                lowercased(processes[i]),
            ) == Some(f) {
            let i = choose|i: int|
                0 <= i < processes.len() && process_finding(
                    #[trigger] processes[i],
                    lowercased(processes[i]),
                ) == Some(f);
            if i < n {
                assert(rest[i] == processes[i]);
                let k = choose|k: int| 0 <= k < before.len() && before[k] == f;
                assert(all[k] == f);
            } else {
                assert(all[all.len() - 1] == f);
            }
        }
    }
}

/// Every tunnel that is up is found, and nothing else is; it is at work exactly
/// where the default route goes through a tunnel.
pub proof fn standing_tunnels_are_found(
    list: Seq<InterfaceView>,
    default_is_tunnel: bool,
    f: FindingView,
)
    ensures
        interface_findings(list, default_is_tunnel).contains(f) <==> exists|i: int|
            0 <= i < list.len() && (#[trigger] list[i]).up && !list[i].loopback && tunnel(list[i])
                && f == interface_finding(list[i], default_is_tunnel),
        interface_findings(list, default_is_tunnel).contains(f) ==> f.kind == BypassKind::Vpn && (
        f.confidence == Confidence::Active <==> default_is_tunnel),
    decreases list.len(),
{
    let all = interface_findings(list, default_is_tunnel);
    if list.len() > 0 {
        let n = list.len() - 1;
        let rest = list.drop_last();
        let before = interface_findings(rest, default_is_tunnel);
        standing_tunnels_are_found(rest, default_is_tunnel, f);
        if all.contains(f) {
            let k = choose|k: int| 0 <= k < all.len() && all[k] == f;
            if k < before.len() {
                assert(before[k] == f);
                let i = choose|i: int|
                    0 <= i < rest.len() && (#[trigger] rest[i]).up && !rest[i].loopback && tunnel(
                        rest[i],
                    ) && f == interface_finding(rest[i], default_is_tunnel);
                assert(list[i] == rest[i]);
            } else {
                assert(list[n].up);
            }
        }
        if exists|i: int|
            0 <= i < list.len() && (#[trigger] list[i]).up && !list[i].loopback && tunnel(list[i])
                && f == interface_finding(list[i], default_is_tunnel) {
            let i = choose|i: int|
                0 <= i < list.len() && (#[trigger] list[i]).up && !list[i].loopback && tunnel(
                    list[i],
                ) && f == interface_finding(list[i], default_is_tunnel);
            if i < n {
                assert(rest[i] == list[i]);
                assert(rest[i].up);
                let k = choose|k: int| 0 <= k < before.len() && before[k] == f;
                assert(all[k] == f);
            } else {
                assert(all[all.len() - 1] == f);
            }
        }
    }
}

/// Every known port that takes connections is found as a proxy at work, and
/// nothing else is.
pub proof fn listening_ports_are_found(
    ports: Seq<(u16, Seq<char>)>,
    open: Seq<u16>,
    f: FindingView,
)
    ensures
        port_findings(ports, open).contains(f) <==> exists|i: int|
            0 <= i < ports.len() && open.contains((#[trigger] ports[i]).0) && f == port_finding(
                ports[i].0,
                ports[i].1,
            ),
        port_findings(ports, open).contains(f) ==> f.kind == BypassKind::Proxy && f.confidence
            == Confidence::Active,
    decreases ports.len(),
{
    let all = port_findings(ports, open);
    if ports.len() > 0 {
        let n = ports.len() - 1;
        let rest = ports.drop_last();
        let before = port_findings(rest, open);
        listening_ports_are_found(rest, open, f);
        if all.contains(f) {
            let k = choose|k: int| 0 <= k < all.len() && all[k] == f;
            if k < before.len() {
                assert(before[k] == f);
                let i = choose|i: int|
                    0 <= i < rest.len() && open.contains((#[trigger] rest[i]).0) && f
                        == port_finding(rest[i].0, rest[i].1);
                assert(ports[i] == rest[i]);
            } else {
                assert(open.contains(ports[n].0));
            }
        }
        if exists|i: int|
            0 <= i < ports.len() && open.contains((#[trigger] ports[i]).0) && f == port_finding(
                ports[i].0,
                ports[i].1,
            ) {
            let i = choose|i: int|
                0 <= i < ports.len() && open.contains((#[trigger] ports[i]).0) && f
                    == port_finding(ports[i].0, ports[i].1);
            if i < n {
                assert(rest[i] == ports[i]);
                let k = choose|k: int| 0 <= k < before.len() && before[k] == f;
                assert(all[k] == f);
            } else {
                assert(all[all.len() - 1] == f);
            }
        }
    }
}

/// Nothing that was found in any of the three ways is left out.
pub proof fn all_three_ways_count(
    processes: Seq<Seq<char>>,
    interfaces: Seq<InterfaceView>,
    default_is_tunnel: bool,
    open: Seq<u16>,
    f: FindingView,
)
    ensures
        all_findings(processes, interfaces, default_is_tunnel, open).contains(f)
            <==> process_findings(processes).contains(f) || interface_findings(
            interfaces,
            default_is_tunnel,
        ).contains(f) || port_findings(proxy_ports(), open).contains(f),
{
    let a = process_findings(processes);
    let b = interface_findings(interfaces, default_is_tunnel);
    let c = port_findings(proxy_ports(), open);
    let all = all_findings(processes, interfaces, default_is_tunnel, open);
    if all.contains(f) {
        let k = choose|k: int| 0 <= k < all.len() && all[k] == f;
        if k < a.len() {
            assert(a[k] == f);
        } else if k < a.len() + b.len() {
            assert(b[k - a.len()] == f);
        } else {
            assert(c[k - a.len() - b.len()] == f);
        }
    }
    if a.contains(f) {
        let k = choose|k: int| 0 <= k < a.len() && a[k] == f;
        assert(all[k] == f);
    }
    if b.contains(f) {
        let k = choose|k: int| 0 <= k < b.len() && b[k] == f;
        assert(all[a.len() + k] == f);
    }
    if c.contains(f) {
        let k = choose|k: int| 0 <= k < c.len() && c[k] == f;
        assert(all[a.len() + b.len() + k] == f);
    }
}

/// The known tools by their kinds: six that work on the traffic itself, eight
/// VPNs, and the proxies.
pub proof fn tools_have_their_kinds(i: int)
    requires
        0 <= i < 23,
    ensures
        process_markers().len() == 23,
        process_markers()[i].1 == (if i < 6 {
            BypassKind::DpiBypass
        } else if i < 14 {
            BypassKind::Vpn
        } else {
            BypassKind::Proxy
        }),
{
}

/// What was found is told by the names of all that was found; where nothing
/// was, that is told.
pub proof fn findings_are_told(list: Seq<FindingView>)
    ensures
        list.len() == 0 ==> summary_text(list) == "Средств обхода и туннелей не обнаружено."@,
        list.len() > 0 ==> summary_text(list) == "Найдено: "@ + joined(
            list.map_values(|f: FindingView| f.name),
            ", "@,
        ) + "."@,
{
}

} // verus!
