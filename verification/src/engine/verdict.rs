//! All observations in one conclusion that can be understood.

use vstd::prelude::*;
use vstd::string::StringExecFns;
use crate::model::{with_note, note, Diagnosis, DiagnosisView, NodeId, Status};
use crate::scan::{lemma_texts_empty, texts};
use crate::text::{dec, decimal};
use super::bypass;
use super::censorship::Transit;
use super::l1_l2::LinkInfo;
use super::route::{
    address_text, find_prohibiting, first_prohibiting, hop_address, the_first_prohibition_counts,
};
use super::trace::{silence_behind, Hop, Trace, TraceView};

verus! {

/// All that could be found out.
pub struct Observations<'a> {
    pub link: &'a LinkInfo,
    pub bypass: &'a bypass::Report,
    pub router_alive: Option<bool>,
    pub anchors_ok: bool,
    pub route: &'a Trace,
    pub dns_ok: bool,
    pub transit: Transit,
}

#[verifier::ext_equal]
pub struct ObservationsView {
    pub connected: bool,
    pub has_gateway: bool,
    pub tools: Seq<bypass::FindingView>,
    pub router_alive: Option<bool>,
    pub anchors_ok: bool,
    pub route: TraceView,
    pub dns_ok: bool,
    pub transit: Transit,
}

impl<'a> Observations<'a> {
    pub open spec fn seen(self) -> ObservationsView {
        ObservationsView {
            connected: self.link.interface is Some,
            has_gateway: self.link.gateway is Some,
            tools: self.bypass@,
            router_alive: self.router_alive,
            anchors_ok: self.anchors_ok,
            route: self.route@,
            dns_ok: self.dns_ok,
            transit: self.transit,
        }
    }
}

pub open spec fn tunnel_note() -> Seq<char> {
    "Трафик идёт через VPN. Чтобы проверить именно провайдера, отключите его и повторите проверку."@
}

/// Actions with the reservation that traffic goes through a tunnel, where it
/// does: without it right figures would lead to a wrong conclusion about the
/// provider.
pub open spec fn reserved(
    actions: Seq<Seq<char>>,
    tools: Seq<bypass::FindingView>,
) -> Seq<Seq<char>> {
    if bypass::tunneled(tools) {
        seq![tunnel_note()] + actions
    } else {
        actions
    }
}

/// No working connection.
pub open spec fn unplugged(o: ObservationsView) -> DiagnosisView {
    DiagnosisView {
        headline: "Нет сетевого подключения"@,
        simple: "Компьютер не видит ни одного работающего подключения к сети."@,
        expert: "Нет ни одного не-loopback интерфейса в состоянии UP."@,
        actions: reserved(
            seq![
                "Проверьте, воткнут ли сетевой кабель."@,
                "Проверьте, включён ли Wi-Fi."@,
                "Убедитесь, что сетевой адаптер не отключён в системе."@,
            ],
            o.tools,
        ),
        break_edge: Some((NodeId::Pc, NodeId::Router)),
        status: Status::Fail,
    }
}

/// No way out is known.
pub open spec fn no_router(o: ObservationsView) -> DiagnosisView {
    DiagnosisView {
        headline: "Роутер недоступен"@,
        simple: "Подключение есть, но компьютер не знает, через что выходить в интернет. Чаще всего это значит, что роутер завис или кабель до него не работает."@,
        expert: "Отсутствует маршрут по умолчанию."@,
        actions: reserved(
            seq![
                "Перезагрузите роутер, подождите минуту."@,
                "Проверьте кабель между компьютером и роутером."@,
            ],
            o.tools,
        ),
        break_edge: Some((NodeId::Pc, NodeId::Router)),
        status: Status::Fail,
    }
}

/// No internet behind the router. The route lets one say not only that there
/// is none but how far there is.
pub open spec fn no_internet(o: ObservationsView) -> DiagnosisView {
    let (edge, simple, expert) = match o.route.first_external {
        Some(hop) => (
            (NodeId::Provider, NodeId::Internet),
            "Роутер работает, трафик доходит до сети провайдера (узел "@ + address_text(hop)
                + "), но дальше в интернет не проходит. Похоже на неполадку у провайдера."@,
            "Путь жив до "@ + address_text(hop) + ", затем "@ + dec(
                silence_behind(o.route.hops),
            ) + " молчащих узлов подряд, опорные узлы не отвечают."@,
        ),
        None => if o.router_alive == Some(true) {
            (
                (NodeId::Router, NodeId::Provider),
                "Роутер отвечает, но дальше него трафик не уходит. Скорее всего, интернет не даёт провайдер."@,
                "Шлюз отвечает, ни одного внешнего хопа не построено."@,
            )
        } else {
            (
                (NodeId::Router, NodeId::Provider),
                "Локальная сеть есть, но выхода в интернет нет."@,
                "Ни одного внешнего хопа, опорные узлы не отвечают."@,
            )
        },
    };
    DiagnosisView {
        headline: "Интернета нет за роутером"@,
        simple,
        expert,
        actions: reserved(
            seq![
                "Перезагрузите роутер."@,
                "Проверьте баланс и статус услуги у провайдера."@,
                "Если интернет мобильный — проверьте, не отключён ли он в вашем районе."@,
            ],
            o.tools,
        ),
        break_edge: Some(edge),
        status: Status::Fail,
    }
}

/// The internet is there, but names are not resolved.
pub open spec fn no_names(o: ObservationsView) -> DiagnosisView {
    DiagnosisView {
        headline: "Интернет есть, но имена сайтов не работают"@,
        simple: "Соединения с интернетом проходят, а вот превратить имя сайта в адрес не получается. Обычно виноват DNS-сервер."@,
        expert: "Опорные узлы доступны по IP, системный резолвер записей не вернул."@,
        actions: reserved(
            seq![
                "Попробуйте прописать DNS 1.1.1.1 или 77.88.8.8."@,
                "Перезагрузите роутер — часто он же и раздаёт DNS."@,
            ],
            o.tools,
        ),
        break_edge: Some((NodeId::Internet, NodeId::Target)),
        status: Status::Fail,
    }
}

/// A node on the way forbids a part of the traffic.
pub open spec fn prohibited(o: ObservationsView, hop: Hop) -> DiagnosisView {
    DiagnosisView {
        headline: "На пути стоит фильтрация"@,
        simple: "Интернет в целом работает, но узел "@ + address_text(hop)
            + " на пути прямо запрещает пропускать часть трафика."@,
        expert: "Хоп "@ + dec(hop.ttl as nat) + " ("@ + address_text(hop)
            + ") вернул ICMP «административно запрещено»."@,
        actions: reserved(Seq::empty(), o.tools),
        break_edge: None,
        status: Status::Warn,
    }
}

/// Sites are filtered by name. The internet works, and to say that there is
/// none would be untrue.
pub open spec fn filtered(o: ObservationsView) -> DiagnosisView {
    DiagnosisView {
        headline: "Интернет работает, но часть сайтов блокируют"@,
        simple: o.transit.simple_text()
            + " Само подключение исправно: роутер, провайдер и интернет отвечают."@,
        expert: o.transit.expert_text(),
        actions: reserved(
            seq![
                "Это не поломка вашего оборудования — перезагрузка роутера не поможет."@,
                "Сайты, которые не открываются, перечислены в разделе «Уровни OSI»."@,
            ],
            o.tools,
        ),
        break_edge: Some((NodeId::Dpi, NodeId::Target)),
        status: Status::Warn,
    }
}

/// What to do where the internet works.
pub open spec fn remarks(o: ObservationsView) -> Seq<Seq<char>> {
    let a = with_note(
        Seq::empty(),
        if o.tools.len() > 0 {
            Some(bypass::summary_text(o.tools) + " Учитывайте это при чтении результатов."@)
        } else {
            None
        },
    );
    let b = with_note(
        a,
        if o.transit.name_filtered > 0 {
            Some(
                "Один сайт не открывается из-за своего имени. Одного случая мало для выводов — посмотрите подробности в разделе «Уровни OSI»."@,
            )
        } else {
            None
        },
    );
    with_note(
        b,
        match bypass::first_dpi(o.tools) {
            Some(tool) => Some(
                "Чтобы узнать, есть ли блокировки на самом деле, отключите "@ + tool
                    + " и повторите проверку."@,
            ),
            None => None,
        },
    )
}

/// The internet works.
pub open spec fn working(o: ObservationsView) -> DiagnosisView {
    let hidden = bypass::first_dpi(o.tools);
    DiagnosisView {
        headline: "Интернет работает"@,
        simple: match hidden {
            Some(tool) => "Подключение, роутер, выход в интернет и сайты — всё отвечает. Но у вас работает "@
                + tool
                + ", поэтому проверить, блокирует ли что-то провайдер, сейчас нельзя."@,
            None => "Подключение, роутер, выход в интернет, имена сайтов и сами сайты — всё отвечает."@,
        },
        expert: "L1–L7 в норме, маршрут построен на "@ + dec(o.route.hops.len()) + " узлов. "@
            + o.transit.expert_text() + (if hidden is Some {
            " Отрицательный вывод о блокировках недостоверен: активен обход DPI."@
        } else {
            Seq::empty()
        }),
        actions: reserved(remarks(o), o.tools),
        break_edge: None,
        status: if o.tools.len() == 0 && o.transit.name_filtered == 0 {
            Status::Good
        } else {
            Status::Warn
        },
    }
}

/// The conclusion from all observations. What a lower layer shows comes first:
/// where the router cannot be reached, a site that does not open is no
/// diagnosis but a consequence.
pub open spec fn diagnosis(o: ObservationsView) -> DiagnosisView {
    if !o.connected {
        unplugged(o)
    } else if !o.has_gateway {
        no_router(o)
    } else if !o.anchors_ok {
        no_internet(o)
    } else if !o.dns_ok {
        no_names(o)
    } else {
        match first_prohibiting(o.route.hops) {
            Some(hop) => prohibited(o, hop),
            None => if o.transit.confident() {
                filtered(o)
            } else {
                working(o)
            },
        }
    }
}

fn reserve(actions: Vec<String>, bypass: &bypass::Report) -> (r: Vec<String>)
    ensures
        texts(r@) == reserved(texts(actions@), bypass@),
{
    let mut out = actions;
    if bypass.traffic_is_tunneled() {
        let line = String::from_str(
            "Трафик идёт через VPN. Чтобы проверить именно провайдера, отключите его и повторите проверку.",
        );
        out.insert(0, line);
        assert(texts(out@) =~= seq![tunnel_note()] + texts(actions@));
    }
    out
}

fn lines2(a: &str, b: &str) -> (r: Vec<String>)
    ensures
        texts(r@) == seq![a@, b@],
{
    let mut out: Vec<String> = Vec::new();
    out.push(a.to_owned());
    out.push(b.to_owned());
    assert(texts(out@) =~= seq![a@, b@]);
    out
}

fn lines3(a: &str, b: &str, c: &str) -> (r: Vec<String>)
    ensures
        texts(r@) == seq![a@, b@, c@],
{
    let mut out: Vec<String> = Vec::new();
    out.push(a.to_owned());
    out.push(b.to_owned());
    out.push(c.to_owned());
    assert(texts(out@) =~= seq![a@, b@, c@]);
    out
}

fn say_unplugged(o: &Observations<'_>) -> (r: Diagnosis)
    ensures
        r@ == unplugged(o.seen()),
{
    let actions = reserve(
        lines3(
            "Проверьте, воткнут ли сетевой кабель.",
            "Проверьте, включён ли Wi-Fi.",
            "Убедитесь, что сетевой адаптер не отключён в системе.",
        ),
        o.bypass,
    );
    Diagnosis {
        headline: String::from_str("Нет сетевого подключения"),
        simple: String::from_str("Компьютер не видит ни одного работающего подключения к сети."),
        expert: String::from_str("Нет ни одного не-loopback интерфейса в состоянии UP."),
        actions,
        break_edge: Some((NodeId::Pc, NodeId::Router)),
        status: Status::Fail,
    }
}

fn say_no_router(o: &Observations<'_>) -> (r: Diagnosis)
    ensures
        r@ == no_router(o.seen()),
{
    let actions = reserve(
        lines2(
            "Перезагрузите роутер, подождите минуту.",
            "Проверьте кабель между компьютером и роутером.",
        ),
        o.bypass,
    );
    Diagnosis {
        headline: String::from_str("Роутер недоступен"),
        simple: String::from_str(
            "Подключение есть, но компьютер не знает, через что выходить в интернет. Чаще всего это значит, что роутер завис или кабель до него не работает.",
        ),
        expert: String::from_str("Отсутствует маршрут по умолчанию."),
        actions,
        break_edge: Some((NodeId::Pc, NodeId::Router)),
        status: Status::Fail,
    }
}

fn say_no_internet(o: &Observations<'_>) -> (r: Diagnosis)
    ensures
        r@ == no_internet(o.seen()),
{
    let (edge, simple, expert) = match &o.route.first_external {
        Some(hop) => {
            let addr = hop_address(hop);
            (
                (NodeId::Provider, NodeId::Internet),
                String::from_str(
                    "Роутер работает, трафик доходит до сети провайдера (узел ",
                ).concat(addr.as_str()).concat(
                    "), но дальше в интернет не проходит. Похоже на неполадку у провайдера.",
                ),
                String::from_str("Путь жив до ").concat(addr.as_str()).concat(", затем ").concat(
                    decimal(o.route.silent_tail() as u128).as_str(),
                ).concat(" молчащих узлов подряд, опорные узлы не отвечают."),
            )
        },
        None => {
            let alive = match o.router_alive {
                Some(alive) => alive,
                None => false,
            };
            if alive {
                (
                    (NodeId::Router, NodeId::Provider),
                    String::from_str(
                        "Роутер отвечает, но дальше него трафик не уходит. Скорее всего, интернет не даёт провайдер.",
                    ),
                    String::from_str("Шлюз отвечает, ни одного внешнего хопа не построено."),
                )
            } else {
                (
                    (NodeId::Router, NodeId::Provider),
                    String::from_str("Локальная сеть есть, но выхода в интернет нет."),
                    String::from_str("Ни одного внешнего хопа, опорные узлы не отвечают."),
                )
            }
        },
    };
    let actions = reserve(
        lines3(
            "Перезагрузите роутер.",
            "Проверьте баланс и статус услуги у провайдера.",
            "Если интернет мобильный — проверьте, не отключён ли он в вашем районе.",
        ),
        o.bypass,
    );
    Diagnosis {
        headline: String::from_str("Интернета нет за роутером"),
        simple,
        expert,
        actions,
        break_edge: Some(edge),
        status: Status::Fail,
    }
}

fn say_no_names(o: &Observations<'_>) -> (r: Diagnosis)
    ensures
        r@ == no_names(o.seen()),
{
    let actions = reserve(
        lines2(
            "Попробуйте прописать DNS 1.1.1.1 или 77.88.8.8.",
            "Перезагрузите роутер — часто он же и раздаёт DNS.",
        ),
        o.bypass,
    );
    Diagnosis {
        headline: String::from_str("Интернет есть, но имена сайтов не работают"),
        simple: String::from_str(
            "Соединения с интернетом проходят, а вот превратить имя сайта в адрес не получается. Обычно виноват DNS-сервер.",
        ),
        expert: String::from_str(
            "Опорные узлы доступны по IP, системный резолвер записей не вернул.",
        ),
        actions,
        break_edge: Some((NodeId::Internet, NodeId::Target)),
        status: Status::Fail,
    }
}

fn say_prohibited(o: &Observations<'_>, hop: &Hop) -> (r: Diagnosis)
    ensures
        r@ == prohibited(o.seen(), *hop),
{
    let addr = hop_address(hop);
    let none: Vec<String> = Vec::new();
    proof {
        lemma_texts_empty(none@);
    }
    Diagnosis {
        headline: String::from_str("На пути стоит фильтрация"),
        simple: String::from_str("Интернет в целом работает, но узел ").concat(
            addr.as_str(),
        ).concat(" на пути прямо запрещает пропускать часть трафика."),
        expert: String::from_str("Хоп ").concat(decimal(hop.ttl as u128).as_str()).concat(
            " (",
        ).concat(addr.as_str()).concat(") вернул ICMP «административно запрещено»."),
        actions: reserve(none, o.bypass),
        break_edge: None,
        status: Status::Warn,
    }
}

fn say_filtered(o: &Observations<'_>) -> (r: Diagnosis)
    ensures
        r@ == filtered(o.seen()),
{
    let actions = reserve(
        lines2(
            "Это не поломка вашего оборудования — перезагрузка роутера не поможет.",
            "Сайты, которые не открываются, перечислены в разделе «Уровни OSI».",
        ),
        o.bypass,
    );
    Diagnosis {
        headline: String::from_str("Интернет работает, но часть сайтов блокируют"),
        simple: o.transit.simple().concat(
            " Само подключение исправно: роутер, провайдер и интернет отвечают.",
        ),
        expert: o.transit.expert(),
        actions,
        break_edge: Some((NodeId::Dpi, NodeId::Target)),
        status: Status::Warn,
    }
}

fn say_remarks(o: &Observations<'_>, hidden: &Option<String>) -> (r: Vec<String>)
    requires
        match *hidden {
            Some(tool) => bypass::first_dpi(o.seen().tools) == Some(tool@),
            None => bypass::first_dpi(o.seen().tools) is None,
        },
    ensures
        texts(r@) == remarks(o.seen()),
{
    let mut list: Vec<String> = Vec::new();
    proof {
        lemma_texts_empty(list@);
    }
    let first = if !o.bypass.is_empty() {
        Some(o.bypass.summary().concat(" Учитывайте это при чтении результатов."))
    } else {
        None
    };
    note(&mut list, first);
    let second = if o.transit.has_signals() {
        Some(
            String::from_str(
                "Один сайт не открывается из-за своего имени. Одного случая мало для выводов — посмотрите подробности в разделе «Уровни OSI».",
            ),
        )
    } else {
        None
    };
    note(&mut list, second);
    let third = match hidden {
        Some(tool) => Some(
            String::from_str(
                "Чтобы узнать, есть ли блокировки на самом деле, отключите ",
            ).concat(tool.as_str()).concat(" и повторите проверку."),
        ),
        None => None,
    };
    note(&mut list, third);
    list
}

fn say_working(o: &Observations<'_>) -> (r: Diagnosis)
    ensures
        r@ == working(o.seen()),
{
    let hidden = o.bypass.dpi_bypass_name();
    let remarks = say_remarks(o, &hidden);
    let actions = reserve(remarks, o.bypass);
    let simple = match &hidden {
        Some(tool) => String::from_str(
            "Подключение, роутер, выход в интернет и сайты — всё отвечает. Но у вас работает ",
        ).concat(tool.as_str()).concat(
            ", поэтому проверить, блокирует ли что-то провайдер, сейчас нельзя.",
        ),
        None => String::from_str(
            "Подключение, роутер, выход в интернет, имена сайтов и сами сайты — всё отвечает.",
        ),
    };
    let doubt = if hidden.is_some() {
        " Отрицательный вывод о блокировках недостоверен: активен обход DPI."
    } else {
        ""
    };
    proof {
        reveal_strlit("");
        assert(""@ =~= Seq::<char>::empty());
    }
    let clean = o.bypass.is_empty() && !o.transit.has_signals();
    Diagnosis {
        headline: String::from_str("Интернет работает"),
        simple,
        expert: String::from_str("L1–L7 в норме, маршрут построен на ").concat(
            decimal(o.route.hops.len() as u128).as_str(),
        ).concat(" узлов. ").concat(o.transit.expert().as_str()).concat(doubt),
        actions,
        break_edge: None,
        status: if clean {
            Status::Good
        } else {
            Status::Warn
        },
    }
}

/// Draws the conclusion from all observations.
pub fn verdict(o: Observations<'_>) -> (r: Diagnosis)
    ensures
        r@ == diagnosis(o.seen()),
{
    if o.link.interface.is_none() {
        return say_unplugged(&o);
    }
    if o.link.gateway.is_none() {
        return say_no_router(&o);
    }
    if !o.anchors_ok {
        return say_no_internet(&o);
    }
    if !o.dns_ok {
        return say_no_names(&o);
    }
    match find_prohibiting(&o.route.hops) {
        Some(hop) => {
            return say_prohibited(&o, hop);
        },
        None => {},
    }
    if o.transit.is_confident() {
        return say_filtered(&o);
    }
    say_working(&o)
}

/// All is well only where all is well: a clean verdict means a connection, a
/// way out, names that are resolved, no node that forbids traffic, no site that
/// breaks by its name, and nothing on the computer that gets round blocking.
pub proof fn good_means_clean(o: ObservationsView)
    ensures
        diagnosis(o).status == Status::Good <==> {
            &&& o.connected
            &&& o.has_gateway
            &&& o.anchors_ok
            &&& o.dns_ok
            &&& first_prohibiting(o.route.hops) is None
            &&& o.transit.name_filtered == 0
            &&& o.tools.len() == 0
        },
{
}

/// What a lower layer shows decides, whatever the upper ones show. Of the rest
/// only a tunnel on the computer is told along.
pub proof fn lower_layers_decide(a: ObservationsView, b: ObservationsView)
    ensures
        !a.connected && !b.connected && a.tools == b.tools ==> diagnosis(a) == diagnosis(b),
        a.connected && b.connected && !a.has_gateway && !b.has_gateway && a.tools == b.tools
            ==> diagnosis(a) == diagnosis(b),
        a.connected && a.has_gateway && !a.anchors_ok ==> diagnosis(a)
            == diagnosis(ObservationsView { dns_ok: b.dns_ok, transit: b.transit, ..a }),
{
}

/// A failure always names the broken edge, and where the internet works at
/// least in part nothing is called a failure.
pub proof fn failures_name_the_edge(o: ObservationsView)
    ensures
        diagnosis(o).status == Status::Fail ==> diagnosis(o).break_edge is Some,
        diagnosis(o).status == Status::Fail <==> !(o.connected && o.has_gateway && o.anchors_ok
            && o.dns_ok),
{
}

/// Whatever the outcome, a tunnel is mentioned before anything else.
pub proof fn tunnel_is_mentioned_first(o: ObservationsView)
    requires
        bypass::tunneled(o.tools),
    ensures
        diagnosis(o).actions.len() > 0,
        diagnosis(o).actions[0] == tunnel_note(),
{
}

/// The lowest layer that failed names the trouble, the broken stretch and how
/// bad it is.
///
/// Without a connection or a way out it is the stretch to the router. With a way
/// out but silent anchors it is the one behind the provider, where a node
/// outside private networks is known, and else the one to the provider. With
/// anchors but without names it is the one to the site. A node that forbids
/// traffic breaks no stretch. Where sites are surely filtered, it is the stretch
/// behind the filter. Otherwise the internet works, and nothing is broken.
pub proof fn the_lowest_trouble_is_named(o: ObservationsView)
    ensures
        ({
            let d = diagnosis(o);
            let forbids = exists|i: int|
                0 <= i < o.route.hops.len() && (#[trigger] o.route.hops[i]).prohibited;
            let filtered = o.transit.name_filtered >= 2 && (o.transit.injected > 0
                || o.transit.split_helps > 0);
            let reaches = o.connected && o.has_gateway;
            &&& d.break_edge == (if !reaches {
                Some((NodeId::Pc, NodeId::Router))
            } else if !o.anchors_ok {
                if o.route.first_external is Some {
                    Some((NodeId::Provider, NodeId::Internet))
                } else {
                    Some((NodeId::Router, NodeId::Provider))
                }
            } else if !o.dns_ok {
                Some((NodeId::Internet, NodeId::Target))
            } else if !forbids && filtered {
                Some((NodeId::Dpi, NodeId::Target))
            } else {
                None
            })
            &&& d.status == (if !reaches || !o.anchors_ok || !o.dns_ok {
                Status::Fail
            } else if forbids || filtered || o.transit.name_filtered > 0 || o.tools.len() > 0 {
                Status::Warn
            } else {
                Status::Good
            })
            &&& d.headline == (if !o.connected {
                "Нет сетевого подключения"@
            } else if !o.has_gateway {
                "Роутер недоступен"@
            } else if !o.anchors_ok {
                "Интернета нет за роутером"@
            } else if !o.dns_ok {
                "Интернет есть, но имена сайтов не работают"@
            } else if forbids {
                "На пути стоит фильтрация"@
            } else if filtered {
                "Интернет работает, но часть сайтов блокируют"@
            } else {
                "Интернет работает"@
            })
            &&& !reaches || !o.anchors_ok || !o.dns_ok ==> d.actions.len() >= 2
        }),
{
    the_first_prohibition_counts(o.route.hops);
}

/// The reservation about a tunnel is the only difference that a tunnel makes to
/// the advice where the trouble is found below the sites.
pub proof fn a_tunnel_only_adds_a_note(o: ObservationsView, tools: Seq<bypass::FindingView>)
    requires
        !o.connected || !o.has_gateway || !o.anchors_ok || !o.dns_ok,
        !bypass::tunneled(o.tools),
        bypass::tunneled(tools),
    ensures
        diagnosis(ObservationsView { tools, ..o }).actions == seq![tunnel_note()] + diagnosis(
            o,
        ).actions,
        diagnosis(ObservationsView { tools, ..o }).headline == diagnosis(o).headline,
        diagnosis(ObservationsView { tools, ..o }).break_edge == diagnosis(o).break_edge,
{
}

/// How far there is internet is told by the route. Where a node of the provider
/// answered, it is named together with the silence behind it; where none did, it
/// matters whether the router answers.
pub proof fn the_reach_is_told(o: ObservationsView)
    requires
        o.connected,
        o.has_gateway,
        !o.anchors_ok,
    ensures
        o.route.first_external matches Some(hop) ==> diagnosis(o).simple
            == "Роутер работает, трафик доходит до сети провайдера (узел "@ + address_text(hop)
            + "), но дальше в интернет не проходит. Похоже на неполадку у провайдера."@,
        o.route.first_external matches Some(hop) ==> diagnosis(o).expert == "Путь жив до "@
            + address_text(hop) + ", затем "@ + dec(silence_behind(o.route.hops))
            + " молчащих узлов подряд, опорные узлы не отвечают."@,
        o.route.first_external is None && o.router_alive == Some(true) ==> diagnosis(o).simple
            == "Роутер отвечает, но дальше него трафик не уходит. Скорее всего, интернет не даёт провайдер."@,
        o.route.first_external is None && o.router_alive != Some(true) ==> diagnosis(o).simple
            == "Локальная сеть есть, но выхода в интернет нет."@,
        o.route.first_external is None && o.router_alive == Some(true) ==> diagnosis(o).expert
            == "Шлюз отвечает, ни одного внешнего хопа не построено."@,
        o.route.first_external is None && o.router_alive != Some(true) ==> diagnosis(o).expert
            == "Ни одного внешнего хопа, опорные узлы не отвечают."@,
{
}

/// Where the internet works, each thing noticed gives one remark: tools found, a
/// name filtered, a tool that hides filtering. Nothing noticed gives none.
pub proof fn each_notice_gives_a_remark(o: ObservationsView)
    ensures
        ({
            let found = if o.tools.len() > 0 {
                1int
            } else {
                0
            };
            let named = if o.transit.name_filtered > 0 {
                1int
            } else {
                0
            };
            let hiding = bypass::first_dpi(o.tools);
            let hides = if hiding is Some {
                1int
            } else {
                0
            };
            &&& remarks(o).len() == found + named + hides
            &&& found == 1 ==> remarks(o)[0] == bypass::summary_text(o.tools)
                + " Учитывайте это при чтении результатов."@
            &&& named == 1 ==> remarks(o)[found]
                == "Один сайт не открывается из-за своего имени. Одного случая мало для выводов — посмотрите подробности в разделе «Уровни OSI»."@
            &&& hides == 1 ==> remarks(o).last()
                == "Чтобы узнать, есть ли блокировки на самом деле, отключите "@ + hiding->0
                + " и повторите проверку."@
        }),
{
}

} // verus!
