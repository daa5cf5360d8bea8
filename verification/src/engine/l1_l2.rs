//! The physical and the link layer: is there a working interface, has it an
//! address, is a gateway known?
//!
//! What is found here gives all later checks their meaning: without a cable
//! there is no point in speaking of DNS.

use vstd::prelude::*;
use vstd::string::StringExecFns;
use crate::bus::{EventView, Reporter};
use crate::model::{begun, opt_text, CheckResult, CheckView, Layer, NodeId, Status};
use crate::net::{IpAddr, Ipv4Addr};
use crate::scan::{contains, has_text, join, joined, occurs_at, texts};
use crate::text::{dec, decimal, lower, lowercased};

verus! {

/// An IPv4 address of an interface, with the length of its prefix.
#[derive(Debug, Clone, Copy, PartialEq, Eq, Structural)]
pub struct Network {
    pub addr: Ipv4Addr,
    pub prefix_len: u8,
}

/// A gateway, as the system describes it.
#[derive(Debug)]
pub struct Gateway {
    pub ipv4: Vec<Ipv4Addr>,
    pub mac: String,
}

/// A network interface, as the system describes it.
#[derive(Debug)]
pub struct Interface {
    pub name: String,
    pub friendly_name: Option<String>,
    pub description: Option<String>,
    /// The name of the interface's type.
    pub kind: String,
    /// Whether the type is that of a tunnel.
    pub tunnel_type: bool,
    pub up: bool,
    pub loopback: bool,
    /// Whether the interface is a TUN device.
    pub tun: bool,
    pub ipv4: Vec<Network>,
    pub dhcp_v4_enabled: Option<bool>,
    pub mac: Option<String>,
    pub gateway: Option<Gateway>,
    pub dns_servers: Vec<IpAddr>,
}

#[verifier::ext_equal]
pub struct GatewayView {
    pub ipv4: Seq<Ipv4Addr>,
    pub mac: Seq<char>,
}

#[verifier::ext_equal]
pub struct InterfaceView {
    pub name: Seq<char>,
    pub friendly_name: Option<Seq<char>>,
    pub description: Option<Seq<char>>,
    pub kind: Seq<char>,
    pub tunnel_type: bool,
    pub up: bool,
    pub loopback: bool,
    pub tun: bool,
    pub ipv4: Seq<Network>,
    pub dhcp_v4_enabled: Option<bool>,
    pub mac: Option<Seq<char>>,
    pub gateway: Option<GatewayView>,
    pub dns_servers: Seq<IpAddr>,
}

impl View for Interface {
    type V = InterfaceView;

    open spec fn view(&self) -> InterfaceView {
        InterfaceView {
            name: self.name@,
            friendly_name: opt_text(self.friendly_name),
            description: opt_text(self.description),
            kind: self.kind@,
            tunnel_type: self.tunnel_type,
            up: self.up,
            loopback: self.loopback,
            tun: self.tun,
            ipv4: self.ipv4@,
            dhcp_v4_enabled: self.dhcp_v4_enabled,
            mac: opt_text(self.mac),
            gateway: match self.gateway {
                Some(g) => Some(GatewayView { ipv4: g.ipv4@, mac: g.mac@ }),
                None => None,
            },
            dns_servers: self.dns_servers@,
        }
    }
}

fn opt_clone(s: &Option<String>) -> (r: Option<String>)
    ensures
        opt_text(r) == opt_text(*s),
{
    match s {
        Some(s) => Some(s.clone()),
        None => None,
    }
}

fn copy_addresses(list: &Vec<Ipv4Addr>) -> (r: Vec<Ipv4Addr>)
    ensures
        r@ == list@,
{
    let mut out: Vec<Ipv4Addr> = Vec::new();
    let mut i: usize = 0;
    while i < list.len()
        invariant
            i <= list@.len(),
            out@.len() == i,
            forall|j: int| 0 <= j < i ==> #[trigger] out@[j] == list@[j],
        decreases list@.len() - i,
    {
        out.push(list[i]);
        i += 1;
    }
    assert(out@ =~= list@);
    out
}

fn copy_servers(list: &Vec<IpAddr>) -> (r: Vec<IpAddr>)
    ensures
        r@ == list@,
{
    let mut out: Vec<IpAddr> = Vec::new();
    let mut i: usize = 0;
    while i < list.len()
        invariant
            i <= list@.len(),
            out@.len() == i,
            forall|j: int| 0 <= j < i ==> #[trigger] out@[j] == list@[j],
        decreases list@.len() - i,
    {
        out.push(list[i].clone());
        i += 1;
    }
    assert(out@ =~= list@);
    out
}

impl Clone for Interface {
    fn clone(&self) -> (r: Self)
        ensures
            r@ == self@,
    {
        let mut ipv4: Vec<Network> = Vec::new();
        let mut i: usize = 0;
        while i < self.ipv4.len()
            invariant
                i <= self.ipv4@.len(),
                ipv4@.len() == i,
                forall|j: int| 0 <= j < i ==> #[trigger] ipv4@[j] == self.ipv4@[j],
            decreases self.ipv4@.len() - i,
        {
            ipv4.push(self.ipv4[i]);
            i += 1;
        }
        assert(ipv4@ =~= self.ipv4@);
        let gateway = match &self.gateway {
            Some(g) => Some(Gateway { ipv4: copy_addresses(&g.ipv4), mac: g.mac.clone() }),
            None => None,
        };
        Interface {
            name: self.name.clone(),
            friendly_name: opt_clone(&self.friendly_name),
            description: opt_clone(&self.description),
            kind: self.kind.clone(),
            tunnel_type: self.tunnel_type,
            up: self.up,
            loopback: self.loopback,
            tun: self.tun,
            ipv4,
            dhcp_v4_enabled: self.dhcp_v4_enabled,
            mac: opt_clone(&self.mac),
            gateway,
            dns_servers: copy_servers(&self.dns_servers),
        }
    }
}

pub open spec fn interface_views(list: Seq<Interface>) -> Seq<InterfaceView> {
    list.map_values(|i: Interface| i@)
}

impl InterfaceView {
    /// What the user calls the interface. On Windows the system's name is a
    /// GUID, so a friendly one is preferred.
    pub open spec fn label(self) -> Seq<char> {
        match self.friendly_name {
            Some(n) => n,
            None => match self.description {
                Some(d) => d,
                None => self.name,
            },
        }
    }

    pub open spec fn described(self) -> Seq<char> {
        self.label() + " ("@ + self.kind + ")"@
    }

    /// Whether the interface could carry traffic.
    pub open spec fn usable(self) -> bool {
        self.up && !self.loopback
    }

    /// The names in which signs of a tunnel are looked for.
    pub open spec fn all_names(self) -> Seq<char> {
        self.name + " "@ + (match self.friendly_name {
            Some(n) => n,
            None => Seq::empty(),
        }) + " "@ + (match self.description {
            Some(d) => d,
            None => Seq::empty(),
        })
    }

    pub open spec fn vpn_like(self) -> bool {
        self.tun || self.tunnel_type || vpn_words(lowercased(self.all_names()))
    }

    /// The first address of the gateway.
    pub open spec fn way_out(self) -> Option<Ipv4Addr> {
        match self.gateway {
            Some(g) => if g.ipv4.len() > 0 {
                Some(g.ipv4[0])
            } else {
                None
            },
            None => None,
        }
    }
}

/// Whether a text in lower case holds a word of a VPN client's adapter.
pub open spec fn vpn_words(text: Seq<char>) -> bool {
    has_text(text, "wireguard"@) || has_text(text, "openvpn"@) || has_text(text, "tap-windows"@)
        || has_text(text, "tun"@) || has_text(text, "wintun"@)
}

/// Whether a text in lower case holds a word of a VPN client's adapter.
pub fn sounds_like_vpn(text: &str) -> (r: bool)
    ensures
        r == vpn_words(text@),
{
    contains(text, "wireguard") || contains(text, "openvpn") || contains(text, "tap-windows")
        || contains(text, "tun") || contains(text, "wintun")
}

impl Interface {
    pub fn label(&self) -> (r: String)
        ensures
            r@ == self@.label(),
    {
        match &self.friendly_name {
            Some(n) => n.clone(),
            None => match &self.description {
                Some(d) => d.clone(),
                None => self.name.clone(),
            },
        }
    }

    pub fn is_usable(&self) -> (r: bool)
        ensures
            r == self@.usable(),
    {
        self.up && !self.loopback
    }

    pub fn names(&self) -> (r: String)
        ensures
            r@ == self@.all_names(),
    {
        let friendly = match &self.friendly_name {
            Some(n) => n.clone(),
            None => String::new(),
        };
        let description = match &self.description {
            Some(d) => d.clone(),
            None => String::new(),
        };
        self.name.clone().concat(" ").concat(friendly.as_str()).concat(" ").concat(
            description.as_str(),
        )
    }
}

/// A readable name of an interface.
pub fn describe(iface: &Interface) -> (r: String)
    ensures
        r@ == iface@.described(),
{
    iface.label().concat(" (").concat(iface.kind.as_str()).concat(")")
}

/// Whether an interface looks like the tunnel of a VPN. There is no exact
/// sign; its type and the names of known clients have to do.
pub fn is_vpn_like(iface: &Interface) -> (r: bool)
    ensures
        r == iface@.vpn_like(),
{
    if iface.tun || iface.tunnel_type {
        return true;
    }
    sounds_like_vpn(lower(iface.names().as_str()).as_str())
}

/// The range 169.254.0.0/16.
pub open spec fn apipa(addr: Ipv4Addr) -> bool {
    addr.a == 169 && addr.b == 254
}

/// Whether an address is one that the system assigns itself where DHCP does
/// not answer.
pub fn is_apipa(addr: Ipv4Addr) -> (r: bool)
    ensures
        r == apipa(addr),
{
    addr.a == 169 && addr.b == 254
}

/// What later layers need to know of the connection.
#[derive(Debug)]
pub struct LinkInfo {
    /// The active interface, if there is one at all.
    pub interface: Option<Interface>,
    /// The address of the gateway: the router of the chart.
    pub gateway: Option<IpAddr>,
    /// The DNS servers that the system was given.
    pub dns_servers: Vec<IpAddr>,
    /// Whether a VPN seems to be up: results would describe it and not the
    /// line.
    pub through_vpn: bool,
    /// All interfaces of the system.
    pub interfaces: Vec<Interface>,
    /// Whether the active interface itself is a tunnel.
    pub default_is_tunnel: bool,
    /// The addresses of the active interface.
    pub local_v4: Vec<Ipv4Addr>,
}

#[verifier::ext_equal]
pub struct LinkView {
    pub interface: Option<InterfaceView>,
    pub gateway: Option<IpAddr>,
    pub dns_servers: Seq<IpAddr>,
    pub through_vpn: bool,
    pub interfaces: Seq<InterfaceView>,
    pub default_is_tunnel: bool,
    pub local_v4: Seq<Ipv4Addr>,
}

impl View for LinkInfo {
    type V = LinkView;

    open spec fn view(&self) -> LinkView {
        LinkView {
            interface: match self.interface {
                Some(i) => Some(i@),
                None => None,
            },
            gateway: self.gateway,
            dns_servers: self.dns_servers@,
            through_vpn: self.through_vpn,
            interfaces: interface_views(self.interfaces@),
            default_is_tunnel: self.default_is_tunnel,
            local_v4: self.local_v4@,
        }
    }
}

/// The interfaces that could carry traffic.
pub open spec fn usable_in(list: Seq<InterfaceView>) -> Seq<InterfaceView> {
    list.filter(|i: InterfaceView| i.usable())
}

pub open spec fn descriptions(list: Seq<InterfaceView>) -> Seq<Seq<char>> {
    list.map_values(|i: InterfaceView| i.described())
}

/// The first interface that looks like a VPN and is up.
pub open spec fn vpn_in(list: Seq<InterfaceView>) -> Option<int>
    decreases list.len(),
{
    if list.len() == 0 {
        None
    } else {
        match vpn_in(list.drop_last()) {
            Some(i) => Some(i),
            None => if list.last().usable() && list.last().vpn_like() {
                Some(list.len() - 1)
            } else {
                None
            },
        }
    }
}

/// The check of the adapter.
pub open spec fn adapter_check(list: Seq<InterfaceView>) -> CheckView {
    let names = descriptions(usable_in(list));
    let check = begun("l1.link"@, Layer::L1Physical, NodeId::Pc, "Сетевой адаптер и линк"@);
    if names.len() == 0 {
        check.finished(
            Status::Fail,
            "Компьютер вообще не видит рабочего сетевого подключения. Проверьте, воткнут ли кабель и включён ли Wi-Fi."@,
            "Ни одного не-loopback интерфейса в состоянии UP."@,
        )
    } else {
        check.finished(
            Status::Good,
            "Сетевое подключение есть: "@ + names[0] + "."@,
            "Активных интерфейсов: "@ + dec(names.len()) + "."@,
        ).noted(joined(names, "\n"@))
    }
}

/// The check of the address.
pub open spec fn address_check(iface: InterfaceView) -> CheckView {
    let check = begun("l2.addr"@, Layer::L2Link, NodeId::Pc, "IP-адрес компьютера"@);
    if iface.ipv4.len() == 0 {
        check.finished(
            Status::Fail,
            "Компьютер не получил адрес в сети. Обычно помогает перезагрузка роутера."@,
            "На интерфейсе нет ни одного адреса IPv4."@,
        )
    } else {
        let first = iface.ipv4[0];
        let a = first.addr.notation();
        if apipa(first.addr) {
            check.finished(
                Status::Fail,
                "Роутер не выдал компьютеру адрес, и Windows назначила временный. Связи с роутером фактически нет."@,
                "Адрес "@ + a + " из диапазона APIPA 169.254.0.0/16 — DHCP не ответил."@,
            )
        } else {
            check.finished(
                Status::Good,
                "Компьютеру выдан адрес "@ + a + " — с роутером он общается."@,
                "IPv4 "@ + a + "/"@ + dec(first.prefix_len as nat) + ", DHCP: "@ + (
                match iface.dhcp_v4_enabled {
                    Some(true) => "включён"@,
                    Some(false) => "выключен, адрес задан вручную"@,
                    None => "неизвестно"@,
                }) + "."@,
            ).noted(
                "MAC: "@ + (match iface.mac {
                    Some(m) => m,
                    None => "неизвестен"@,
                }),
            )
        }
    }
}

/// The check of the gateway.
pub open spec fn gateway_check(iface: InterfaceView) -> CheckView {
    let check = begun("l2.gateway"@, Layer::L2Link, NodeId::Router, "Роутер и маршрут"@);
    match iface.way_out() {
        Some(gw) => check.finished(
            Status::Good,
            "Роутер найден по адресу "@ + gw.notation() + "."@,
            "Шлюз по умолчанию "@ + gw.notation() + ", MAC "@ + iface.gateway->0.mac + "."@,
        ),
        None => check.finished(
            Status::Fail,
            "Компьютер не знает, через какое устройство выходить в интернет. Обычно это значит, что роутер недоступен."@,
            "Нет маршрута по умолчанию (default gateway)."@,
        ),
    }
}

/// The caption of the router.
pub open spec fn gateway_node(iface: InterfaceView) -> EventView {
    match iface.way_out() {
        Some(gw) => EventView::Node {
            id: NodeId::Router,
            subtitle: "маршрут по умолчанию"@,
            address: Some(gw.notation()),
        },
        None => EventView::Node {
            id: NodeId::Router,
            subtitle: "не найден"@,
            address: None,
        },
    }
}

/// The caption of the computer.
pub open spec fn computer_node(iface: InterfaceView) -> EventView {
    EventView::Node {
        id: NodeId::Pc,
        subtitle: iface.described(),
        address: if iface.ipv4.len() > 0 {
            Some(iface.ipv4[0].addr.notation())
        } else {
            None
        },
    }
}

pub open spec fn skipped_address() -> CheckView {
    begun("l2.addr"@, Layer::L2Link, NodeId::Pc, "IP-адрес"@).finished(
        Status::Skipped,
        "Проверка адреса пропущена: нет активного подключения."@,
        "Нет интерфейса — проверять нечего."@,
    )
}

pub open spec fn skipped_gateway() -> CheckView {
    begun("l2.gateway"@, Layer::L2Link, NodeId::Router, "Роутер"@).finished(
        Status::Skipped,
        "Проверка роутера пропущена: нет активного подключения."@,
        "Нет интерфейса — шлюз не определить."@,
    )
}

pub open spec fn vpn_check(iface: InterfaceView) -> CheckView {
    begun("l2.vpn"@, Layer::L2Link, NodeId::Pc, "Активный VPN"@).finished(
        Status::Warn,
        "Похоже, включён VPN. Результаты проверки описывают канал через VPN, а не ваше настоящее подключение. Для проверки провайдера отключите VPN."@,
        "Обнаружен туннельный интерфейс: "@ + iface.described() + "."@,
    )
}

/// The active interface: the default one, or else the first usable one.
pub open spec fn active_in(
    list: Seq<InterfaceView>,
    default: Option<InterfaceView>,
) -> Option<InterfaceView> {
    match default {
        Some(i) => Some(i),
        None => if usable_in(list).len() > 0 {
            Some(usable_in(list)[0])
        } else {
            None
        },
    }
}

/// All that is reported of the connection; `vpn` is the place of an interface
/// that looks like a VPN.
pub open spec fn link_events(
    list: Seq<InterfaceView>,
    default: Option<InterfaceView>,
    vpn: Option<int>,
) -> Seq<EventView> {
    match active_in(list, default) {
        None => seq![
            EventView::Check(adapter_check(list)),
            EventView::Check(skipped_address()),
            EventView::Check(skipped_gateway()),
        ],
        Some(iface) => {
            let events = seq![
                EventView::Check(adapter_check(list)),
                computer_node(iface),
                EventView::Check(address_check(iface)),
                gateway_node(iface),
                EventView::Check(gateway_check(iface)),
            ];
            match vpn {
                Some(i) => events.push(EventView::Check(vpn_check(list[i]))),
                None => events,
            }
        },
    }
}

pub open spec fn own_addresses(iface: InterfaceView) -> Seq<Ipv4Addr> {
    iface.ipv4.map_values(|n: Network| n.addr)
}

/// What later layers are told; `tunnel` says whether the active interface
/// looks like a VPN.
pub open spec fn link_of(
    list: Seq<InterfaceView>,
    default: Option<InterfaceView>,
    vpn: Option<int>,
    tunnel: bool,
) -> LinkView {
    match active_in(list, default) {
        None => LinkView {
            interface: None,
            gateway: None,
            dns_servers: Seq::empty(),
            through_vpn: vpn is Some,
            interfaces: list,
            default_is_tunnel: false,
            local_v4: Seq::empty(),
        },
        Some(iface) => LinkView {
            interface: Some(iface),
            gateway: match iface.way_out() {
                Some(a) => Some(IpAddr::V4(a)),
                None => None,
            },
            dns_servers: iface.dns_servers,
            through_vpn: vpn is Some,
            interfaces: list,
            default_is_tunnel: tunnel,
            local_v4: own_addresses(iface),
        },
    }
}

fn usable_indices(list: &Vec<Interface>) -> (r: Vec<usize>)
    ensures
        r@.len() == usable_in(interface_views(list@)).len(),
        forall|k: int|
            0 <= k < r@.len() ==> (#[trigger] r@[k]) < list@.len() && list@[r@[k] as int]@
                == usable_in(interface_views(list@))[k],
{
    let ghost views = interface_views(list@);
    let ghost keep = |i: InterfaceView| i.usable();
    let mut out: Vec<usize> = Vec::new();
    let mut i: usize = 0;
    proof {
        reveal(Seq::filter);
        assert(views.take(0) =~= Seq::<InterfaceView>::empty());
    }
    while i < list.len()
        invariant
            i <= list@.len(),
            views == interface_views(list@),
            keep == (|i: InterfaceView| i.usable()),
            out@.len() == views.take(i as int).filter(keep).len(),
            forall|k: int|
                0 <= k < out@.len() ==> (#[trigger] out@[k]) < list@.len()
                    && list@[out@[k] as int]@ == views.take(i as int).filter(keep)[k],
        decreases list@.len() - i,
    {
        proof {
            reveal(Seq::filter);
            assert(views.take(i + 1).drop_last() =~= views.take(i as int));
            assert(views.take(i + 1).last() == list@[i as int]@);
        }
        if list[i].is_usable() {
            out.push(i);
        }
        i += 1;
    }
    assert(views.take(i as int) =~= views);
    out
}

fn check_adapter(list: &Vec<Interface>, usable: &Vec<usize>) -> (r: CheckResult)
    requires
        usable@.len() == usable_in(interface_views(list@)).len(),
        forall|k: int|
            0 <= k < usable@.len() ==> (#[trigger] usable@[k]) < list@.len()
                && list@[usable@[k] as int]@ == usable_in(interface_views(list@))[k],
    ensures
        r@ == adapter_check(interface_views(list@)),
{
    let ghost wanted = descriptions(usable_in(interface_views(list@)));
    let check = CheckResult::new(
        "l1.link",
        Layer::L1Physical,
        NodeId::Pc,
        "Сетевой адаптер и линк",
    );
    if usable.len() == 0 {
        return check.finish(
            Status::Fail,
            "Компьютер вообще не видит рабочего сетевого подключения. Проверьте, воткнут ли кабель и включён ли Wi-Fi.",
            "Ни одного не-loopback интерфейса в состоянии UP.",
        );
    }
    let mut names: Vec<String> = Vec::new();
    let mut i: usize = 0;
    while i < usable.len()
        invariant
            i <= usable@.len(),
            usable@.len() == wanted.len(),
            wanted == descriptions(usable_in(interface_views(list@))),
            forall|k: int|
                0 <= k < usable@.len() ==> (#[trigger] usable@[k]) < list@.len()
                    && list@[usable@[k] as int]@ == usable_in(interface_views(list@))[k],
            names@.len() == i,
            forall|k: int| 0 <= k < i ==> (#[trigger] names@[k])@ == wanted[k],
        decreases usable@.len() - i,
    {
        names.push(describe(&list[usable[i]]));
        i += 1;
    }
    assert(texts(names@) =~= wanted);
    assert(names@[0]@ == wanted[0]);
    check.finish(
        Status::Good,
        String::from_str("Сетевое подключение есть: ").concat(names[0].as_str()).concat(
            ".",
        ).as_str(),
        String::from_str("Активных интерфейсов: ").concat(
            decimal(names.len() as u128).as_str(),
        ).concat(".").as_str(),
    ).with_evidence(join(&names, "\n").as_str())
}

fn check_address(iface: &Interface) -> (r: CheckResult)
    ensures
        r@ == address_check(iface@),
{
    let check = CheckResult::new("l2.addr", Layer::L2Link, NodeId::Pc, "IP-адрес компьютера");
    if iface.ipv4.len() == 0 {
        return check.finish(
            Status::Fail,
            "Компьютер не получил адрес в сети. Обычно помогает перезагрузка роутера.",
            "На интерфейсе нет ни одного адреса IPv4.",
        );
    }
    let first = iface.ipv4[0];
    let a = first.addr.text();
    if is_apipa(first.addr) {
        return check.finish(
            Status::Fail,
            "Роутер не выдал компьютеру адрес, и Windows назначила временный. Связи с роутером фактически нет.",
            String::from_str("Адрес ").concat(a.as_str()).concat(
                " из диапазона APIPA 169.254.0.0/16 — DHCP не ответил.",
            ).as_str(),
        );
    }
    let dhcp = match iface.dhcp_v4_enabled {
        Some(true) => "включён",
        Some(false) => "выключен, адрес задан вручную",
        None => "неизвестно",
    };
    let mac = match &iface.mac {
        Some(m) => m.clone(),
        None => String::from_str("неизвестен"),
    };
    check.finish(
        Status::Good,
        String::from_str("Компьютеру выдан адрес ").concat(a.as_str()).concat(
            " — с роутером он общается.",
        ).as_str(),
        String::from_str("IPv4 ").concat(a.as_str()).concat("/").concat(
            decimal(first.prefix_len as u128).as_str(),
        ).concat(", DHCP: ").concat(dhcp).concat(".").as_str(),
    ).with_evidence(String::from_str("MAC: ").concat(mac.as_str()).as_str())
}

fn report_gateway(iface: &Interface, rep: &mut Reporter) -> (r: Option<IpAddr>)
    ensures
        final(rep)@ == old(rep)@ + seq![
            gateway_node(iface@),
            EventView::Check(gateway_check(iface@)),
        ],
        r == (match iface@.way_out() {
            Some(a) => Some(IpAddr::V4(a)),
            None => None,
        }),
{
    let ghost was = rep@;
    let check = CheckResult::new("l2.gateway", Layer::L2Link, NodeId::Router, "Роутер и маршрут");
    match &iface.gateway {
        Some(g) => {
            if g.ipv4.len() > 0 {
                let gw = g.ipv4[0];
                let text = gw.text();
                rep.node(NodeId::Router, "маршрут по умолчанию", Some(gw.text()));
                rep.check(
                    check.finish(
                        Status::Good,
                        String::from_str("Роутер найден по адресу ").concat(
                            text.as_str(),
                        ).concat(".").as_str(),
                        String::from_str("Шлюз по умолчанию ").concat(text.as_str()).concat(
                            ", MAC ",
                        ).concat(g.mac.as_str()).concat(".").as_str(),
                    ),
                );
                assert(rep@ =~= was + seq![
                    gateway_node(iface@),
                    EventView::Check(gateway_check(iface@)),
                ]);
                return Some(IpAddr::V4(gw));
            }
        },
        None => {},
    }
    rep.node(NodeId::Router, "не найден", None);
    rep.check(
        check.finish(
            Status::Fail,
            "Компьютер не знает, через какое устройство выходить в интернет. Обычно это значит, что роутер недоступен.",
            "Нет маршрута по умолчанию (default gateway).",
        ),
    );
    assert(rep@ =~= was + seq![gateway_node(iface@), EventView::Check(gateway_check(iface@))]);
    None
}

/// The place of the first interface that looks like a VPN and is up.
pub fn find_vpn(list: &Vec<Interface>) -> (r: Option<usize>)
    ensures
        match r {
            Some(i) => vpn_in(interface_views(list@)) == Some(i as int) && i < list@.len(),
            None => vpn_in(interface_views(list@)) is None,
        },
{
    let ghost views = interface_views(list@);
    let mut found: Option<usize> = None;
    let mut i: usize = 0;
    assert(views.take(0) =~= Seq::<InterfaceView>::empty());
    while i < list.len()
        invariant
            i <= list@.len(),
            views == interface_views(list@),
            match found {
                Some(k) => vpn_in(views.take(i as int)) == Some(k as int) && k < list@.len(),
                None => vpn_in(views.take(i as int)) is None,
            },
        decreases list@.len() - i,
    {
        proof {
            assert(views.take(i + 1).drop_last() =~= views.take(i as int));
            assert(views.take(i + 1).last() == list@[i as int]@);
        }
        if found.is_none() && list[i].is_usable() && is_vpn_like(&list[i]) {
            found = Some(i);
        }
        i += 1;
    }
    assert(views.take(i as int) =~= views);
    found
}

/// The addresses of an interface.
fn addresses_of(iface: &Interface) -> (r: Vec<Ipv4Addr>)
    ensures
        r@ == own_addresses(iface@),
{
    let mut out: Vec<Ipv4Addr> = Vec::new();
    let mut i: usize = 0;
    while i < iface.ipv4.len()
        invariant
            i <= iface.ipv4@.len(),
            out@.len() == i,
            forall|k: int| 0 <= k < i ==> #[trigger] out@[k] == iface.ipv4@[k].addr,
        decreases iface.ipv4@.len() - i,
    {
        out.push(iface.ipv4[i].addr);
        i += 1;
    }
    assert(out@ =~= own_addresses(iface@));
    out
}

/// The active interface: the default one, or else the first usable one.
pub fn choose_active(interfaces: &Vec<Interface>, default: Option<Interface>) -> (r: Option<
    Interface,
>)
    ensures
        match r {
            Some(i) => active_in(
                interface_views(interfaces@),
                match default {
                    Some(d) => Some(d@),
                    None => None,
                },
            ) == Some(i@),
            None => active_in(
                interface_views(interfaces@),
                match default {
                    Some(d) => Some(d@),
                    None => None,
                },
            ) is None,
        },
{
    match default {
        Some(i) => Some(i),
        None => {
            let usable = usable_indices(interfaces);
            if usable.len() > 0 {
                assert(usable@[0] < interfaces@.len());
                Some(interfaces[usable[0]].clone())
            } else {
                None
            }
        },
    }
}

/// Reports the connection, where it is known which interface looks like a VPN
/// and whether the active one does.
pub fn report_link(
    interfaces: Vec<Interface>,
    active: Option<Interface>,
    vpn: Option<usize>,
    tunnel: bool,
    rep: &mut Reporter,
) -> (r: LinkInfo)
    requires
        vpn matches Some(i) ==> i < interfaces@.len(),
        active is None ==> usable_in(interface_views(interfaces@)).len() == 0,
    ensures
        ({
            let list = interface_views(interfaces@);
            let chosen = match active {
                Some(i) => Some(i@),
                None => None,
            };
            let place = match vpn {
                Some(i) => Some(i as int),
                None => None,
            };
            &&& final(rep)@ == old(rep)@ + link_events(list, chosen, place)
            &&& r@ == link_of(list, chosen, place, tunnel)
        }),
{
    let ghost was = rep@;
    let ghost list = interface_views(interfaces@);
    let usable = usable_indices(&interfaces);
    rep.check(check_adapter(&interfaces, &usable));
    let iface = match active {
        None => {
            rep.check(
                CheckResult::new("l2.addr", Layer::L2Link, NodeId::Pc, "IP-адрес").finish(
                    Status::Skipped,
                    "Проверка адреса пропущена: нет активного подключения.",
                    "Нет интерфейса — проверять нечего.",
                ),
            );
            rep.check(
                CheckResult::new("l2.gateway", Layer::L2Link, NodeId::Router, "Роутер").finish(
                    Status::Skipped,
                    "Проверка роутера пропущена: нет активного подключения.",
                    "Нет интерфейса — шлюз не определить.",
                ),
            );
            assert(rep@ =~= was + seq![
                EventView::Check(adapter_check(list)),
                EventView::Check(skipped_address()),
                EventView::Check(skipped_gateway()),
            ]);
            return LinkInfo {
                interface: None,
                gateway: None,
                dns_servers: Vec::new(),
                through_vpn: vpn.is_some(),
                interfaces,
                default_is_tunnel: false,
                local_v4: Vec::new(),
            };
        },
        Some(iface) => iface,
    };
    let first = if iface.ipv4.len() > 0 {
        Some(iface.ipv4[0].addr.text())
    } else {
        None
    };
    rep.node(NodeId::Pc, describe(&iface).as_str(), first);
    rep.check(check_address(&iface));
    let gateway = report_gateway(&iface, rep);
    assert(rep@ =~= was + seq![
        EventView::Check(adapter_check(list)),
        computer_node(iface@),
        EventView::Check(address_check(iface@)),
        gateway_node(iface@),
        EventView::Check(gateway_check(iface@)),
    ]);
    match vpn {
        Some(i) => {
            assert(list[i as int] == interfaces@[i as int]@);
            let text = describe(&interfaces[i]);
            rep.check(
                CheckResult::new("l2.vpn", Layer::L2Link, NodeId::Pc, "Активный VPN").finish(
                    Status::Warn,
                    "Похоже, включён VPN. Результаты проверки описывают канал через VPN, а не ваше настоящее подключение. Для проверки провайдера отключите VPN.",
                    String::from_str("Обнаружен туннельный интерфейс: ").concat(
                        text.as_str(),
                    ).concat(".").as_str(),
                ),
            );
            assert(rep@ =~= was + link_events(list, Some(iface@), Some(i as int)));
        },
        None => {},
    }
    let dns_servers = copy_servers(&iface.dns_servers);
    let local_v4 = addresses_of(&iface);
    LinkInfo {
        dns_servers,
        gateway,
        through_vpn: vpn.is_some(),
        interface: Some(iface),
        interfaces,
        default_is_tunnel: tunnel,
        local_v4,
    }
}

/// Reports the connection from what the system says of its interfaces and of
/// the default one.
pub fn run(interfaces: Vec<Interface>, default: Option<Interface>, rep: &mut Reporter) -> (r:
    LinkInfo)
    ensures
        ({
            let list = interface_views(interfaces@);
            let given = match default {
                Some(d) => Some(d@),
                None => None,
            };
            let tunnel = active_in(list, given) matches Some(i) && i.vpn_like();
            &&& final(rep)@ == old(rep)@ + link_events(list, given, vpn_in(list))
            &&& r@ == link_of(list, given, vpn_in(list), tunnel)
        }),
{
    let vpn = find_vpn(&interfaces);
    let active = choose_active(&interfaces, default);
    let tunnel = match &active {
        Some(i) => is_vpn_like(i),
        None => false,
    };
    report_link(interfaces, active, vpn, tunnel, rep)
}

/// Whether a check with an identifier is among events.
pub open spec fn checked(events: Seq<EventView>, id: Seq<char>) -> bool {
    exists|i: int|
        0 <= i < events.len() && (#[trigger] events[i] matches EventView::Check(c) && c.id == id)
}

/// No check disappears silently: adapter, address and gateway are always
/// reported, if only as skipped.
pub proof fn link_checks_never_vanish(
    list: Seq<InterfaceView>,
    default: Option<InterfaceView>,
    vpn: Option<int>,
)
    ensures
        checked(link_events(list, default, vpn), "l1.link"@),
        checked(link_events(list, default, vpn), "l2.addr"@),
        checked(link_events(list, default, vpn), "l2.gateway"@),
{
    let events = link_events(list, default, vpn);
    assert(events[0] matches EventView::Check(c) && c.id == "l1.link"@);
    match active_in(list, default) {
        None => {
            assert(events[1] matches EventView::Check(c) && c.id == "l2.addr"@);
            assert(events[2] matches EventView::Check(c) && c.id == "l2.gateway"@);
        },
        Some(iface) => {
            assert(events[2] matches EventView::Check(c) && c.id == "l2.addr"@);
            assert(events[4] matches EventView::Check(c) && c.id == "l2.gateway"@);
        },
    }
}

proof fn lemma_first_usable(list: Seq<InterfaceView>)
    ensures
        usable_in(list).len() == 0 ==> forall|i: int|
            0 <= i < list.len() ==> !(#[trigger] list[i]).usable(),
        usable_in(list).len() > 0 ==> exists|i: int|
            0 <= i < list.len() && #[trigger] list[i] == usable_in(list)[0] && list[i].usable() && (
            forall|j: int| 0 <= j < i ==> !(#[trigger] list[j]).usable()),
    decreases list.len(),
{
    reveal(Seq::filter);
    if list.len() > 0 {
        let n = list.len() - 1;
        let rest = list.drop_last();
        lemma_first_usable(rest);
        assert forall|i: int| 0 <= i < n implies #[trigger] list[i] == rest[i] by {}
        if usable_in(rest).len() > 0 {
            let i = choose|i: int|
                0 <= i < rest.len() && #[trigger] rest[i] == usable_in(rest)[0] && rest[i].usable()
                    && (forall|j: int| 0 <= j < i ==> !(#[trigger] rest[j]).usable());
            assert(list[i] == usable_in(list)[0]);
            assert forall|j: int| 0 <= j < i implies !(#[trigger] list[j]).usable() by {
                assert(!rest[j].usable());
            }
        } else {
            assert forall|j: int| 0 <= j < n implies !(#[trigger] list[j]).usable() by {
                assert(!rest[j].usable());
            }
            if list.last().usable() {
                assert(list[n] == usable_in(list)[0]);
            }
        }
    }
}

/// The connection that is looked at is the one of the default route, and where
/// that is not known the first one that is up and no loopback. There is none
/// exactly where there is no such connection.
pub proof fn the_first_live_connection_is_taken(
    list: Seq<InterfaceView>,
    default: Option<InterfaceView>,
)
    ensures
        default is Some ==> active_in(list, default) == default,
        default is None ==> match active_in(list, default) {
            Some(iface) => exists|i: int|
                0 <= i < list.len() && #[trigger] list[i] == iface && iface.up && !iface.loopback
                    && (forall|j: int|
                    0 <= j < i ==> !(#[trigger] list[j]).up || list[j].loopback),
            None => forall|i: int| 0 <= i < list.len() ==> !(#[trigger] list[i]).up
                || list[i].loopback,
        },
{
    lemma_first_usable(list);
    if default is None {
        if let Some(iface) = active_in(list, default) {
            let i = choose|i: int|
                0 <= i < list.len() && #[trigger] list[i] == usable_in(list)[0] && list[i].usable()
                    && (forall|j: int| 0 <= j < i ==> !(#[trigger] list[j]).usable());
            assert(list[i] == iface);
            assert forall|j: int| 0 <= j < i implies !(#[trigger] list[j]).up
                || list[j].loopback by {
                assert(!list[j].usable());
            }
        } else {
            assert forall|i: int| 0 <= i < list.len() implies !(#[trigger] list[i]).up
                || list[i].loopback by {
                assert(!list[i].usable());
            }
        }
    }
}

/// The checks of the link say what the system reports: the adapter is good where
/// some connection is up; the address fails where there is none or where it is
/// self-assigned (169.254.0.0/16); the router fails where no gateway with an
/// address of IPv4 is known, and is else shown at its first address.
pub proof fn the_link_is_reported_as_it_is(list: Seq<InterfaceView>, iface: InterfaceView)
    ensures
        adapter_check(list).status == Status::Good <==> exists|i: int|
            0 <= i < list.len() && (#[trigger] list[i]).up && !list[i].loopback,
        adapter_check(list).status == Status::Good || adapter_check(list).status == Status::Fail,
        address_check(iface).status == (if iface.ipv4.len() == 0 || (iface.ipv4[0].addr.a == 169
            && iface.ipv4[0].addr.b == 254) {
            Status::Fail
        } else {
            Status::Good
        }),
        gateway_check(iface).status == (if iface.gateway is Some && iface.gateway->0.ipv4.len()
            > 0 {
            Status::Good
        } else {
            Status::Fail
        }),
        gateway_node(iface)->address == (if iface.gateway is Some && iface.gateway->0.ipv4.len()
            > 0 {
            Some(iface.gateway->0.ipv4[0].notation())
        } else {
            None
        }),
        computer_node(iface)->address == (if iface.ipv4.len() > 0 {
            Some(iface.ipv4[0].addr.notation())
        } else {
            None
        }),
{
    lemma_first_usable(list);
    if usable_in(list).len() > 0 {
        let i = choose|i: int|
            0 <= i < list.len() && #[trigger] list[i] == usable_in(list)[0] && list[i].usable() && (
            forall|j: int| 0 <= j < i ==> !(#[trigger] list[j]).usable());
        assert(list[i].up);
    }
    if exists|i: int| 0 <= i < list.len() && (#[trigger] list[i]).up && !list[i].loopback {
        let i = choose|i: int|
            0 <= i < list.len() && (#[trigger] list[i]).up && !list[i].loopback;
        assert(list[i].usable());
    }
}

/// What the rest of the diagnosis learns of the link: its first gateway, its
/// servers of DNS and its own addresses, all of the connection that is looked
/// at.
pub proof fn the_link_is_that_of_the_active_connection(
    list: Seq<InterfaceView>,
    default: Option<InterfaceView>,
    vpn: Option<int>,
    tunnel: bool,
)
    ensures
        ({
            let link = link_of(list, default, vpn, tunnel);
            let active = active_in(list, default);
            &&& link.interface == active
            &&& link.interfaces == list
            &&& link.through_vpn == vpn is Some
            &&& link.gateway is Some <==> active is Some && active->0.gateway is Some
                && active->0.gateway->0.ipv4.len() > 0
            &&& link.gateway is Some ==> link.gateway == Some(
                IpAddr::V4(active->0.gateway->0.ipv4[0]),
            )
            &&& active is Some ==> {
                &&& link.dns_servers == active->0.dns_servers
                &&& link.default_is_tunnel == tunnel
                &&& link.local_v4.len() == active->0.ipv4.len()
                &&& forall|i: int|
                    0 <= i < link.local_v4.len() ==> #[trigger] link.local_v4[i]
                        == active->0.ipv4[i].addr
            }
            &&& active is None ==> !link.default_is_tunnel && link.dns_servers.len() == 0
                && link.local_v4.len() == 0
        }),
{
}

/// A VPN is noticed exactly where a connection that is up looks like one, and it
/// is the first such connection.
pub proof fn the_first_vpn_is_noticed(list: Seq<InterfaceView>)
    ensures
        match vpn_in(list) {
            Some(i) => 0 <= i < list.len() && list[i].up && !list[i].loopback && list[i].vpn_like()
                && forall|j: int|
                0 <= j < i ==> !(#[trigger] list[j]).up || list[j].loopback
                    || !list[j].vpn_like(),
            None => forall|j: int|
                0 <= j < list.len() ==> !(#[trigger] list[j]).up || list[j].loopback
                    || !list[j].vpn_like(),
        },
    decreases list.len(),
{
    if list.len() > 0 {
        let n = list.len() - 1;
        let rest = list.drop_last();
        the_first_vpn_is_noticed(rest);
        assert forall|j: int| 0 <= j < n implies #[trigger] list[j] == rest[j] by {}
        match vpn_in(rest) {
            Some(i) => {
                assert(list[i] == rest[i]);
                assert forall|j: int| 0 <= j < i implies !(#[trigger] list[j]).up
                    || list[j].loopback || !list[j].vpn_like() by {
                    assert(!rest[j].up || rest[j].loopback || !rest[j].vpn_like());
                }
            },
            None => {
                assert forall|j: int| 0 <= j < n implies !(#[trigger] list[j]).up
                    || list[j].loopback || !list[j].vpn_like() by {
                    assert(!rest[j].up || rest[j].loopback || !rest[j].vpn_like());
                }
            },
        }
    }
}

/// What an interface is called: by the name the user knows, else by its
/// description, else by the system's name.
pub proof fn an_interface_is_called_by_its_best_name(i: InterfaceView)
    ensures
        i.friendly_name matches Some(n) ==> i.label() == n,
        i.friendly_name is None && i.description is Some ==> i.label() == i.description->0,
        i.friendly_name is None && i.description is None ==> i.label() == i.name,
        i.described() == i.label() + " ("@ + i.kind + ")"@,
        i.usable() <==> i.up && !i.loopback,
{
}

/// An interface is taken for a tunnel by its kind, or for one word in any of its
/// names.
pub proof fn one_word_makes_a_tunnel(i: InterfaceView)
    ensures
        i.tun || i.tunnel_type ==> i.vpn_like(),
        !i.tun && !i.tunnel_type ==> (i.vpn_like() <==> {
            let names = lowercased(
                i.name + " "@ + (if i.friendly_name is Some {
                    i.friendly_name->0
                } else {
                    Seq::empty()
                }) + " "@ + (if i.description is Some {
                    i.description->0
                } else {
                    Seq::empty()
                }),
            );
            ||| has_text(names, "wireguard"@)
            ||| has_text(names, "openvpn"@)
            ||| has_text(names, "tap-windows"@)
            ||| has_text(names, "tun"@)
        }),
{
    let names = lowercased(i.all_names());
    if has_text(names, "wintun"@) {
        let k = choose|k: int| occurs_at(names, "wintun"@, k);
        reveal_strlit("wintun");
        reveal_strlit("tun");
        assert("wintun"@.subrange(3, 6) =~= "tun"@);
        assert(names.subrange(k, k + 6) == "wintun"@);
        assert(names.subrange(k + 3, k + 6) =~= names.subrange(k, k + 6).subrange(3, 6));
        assert(occurs_at(names, "tun"@, k + 3));
    }
}

} // verus!
