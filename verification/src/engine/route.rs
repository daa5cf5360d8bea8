//! What the route to the internet shows: where it leaves private networks, and
//! where it breaks off.
//!
//! It is the route that fills the nodes of the provider and of the filter;
//! before it there is nothing to say of them.

use vstd::prelude::*;
use vstd::string::StringExecFns;
use crate::bus::{EventView, Reporter};
use crate::model::{begun, CheckResult, CheckView, Layer, NodeId, Status};
use crate::net::Ipv4Addr;
use crate::scan::texts;
use crate::text::{dec, decimal};
use super::trace::{
    last_heard, silence_behind, the_last_answer_is_the_last, Hop, Trace, TraceView, MAX_HOPS,
};

verus! {

/// The address of a node, as far as it is known.
pub open spec fn address_text(hop: Hop) -> Seq<char> {
    match hop.address {
        Some(a) => a.notation(),
        None => Seq::empty(),
    }
}

pub fn hop_address(hop: &Hop) -> (r: String)
    ensures
        r@ == address_text(*hop),
{
    match &hop.address {
        Some(a) => a.text(),
        None => String::new(),
    }
}

/// The first node that forbids traffic.
pub open spec fn first_prohibiting(hops: Seq<Hop>) -> Option<Hop>
    decreases hops.len(),
{
    if hops.len() == 0 {
        None
    } else if hops[0].prohibited {
        Some(hops[0])
    } else {
        first_prohibiting(hops.drop_first())
    }
}

pub fn find_prohibiting(hops: &Vec<Hop>) -> (r: Option<&Hop>)
    ensures
        match r {
            Some(h) => first_prohibiting(hops@) == Some(*h),
            None => first_prohibiting(hops@) is None,
        },
{
    let mut i: usize = 0;
    assert(hops@.skip(0) =~= hops@);
    while i < hops.len()
        invariant
            i <= hops@.len(),
            first_prohibiting(hops@.skip(i as int)) == first_prohibiting(hops@),
        decreases hops@.len() - i,
    {
        proof {
            assert(hops@.skip(i as int)[0] == hops@[i as int]);
            assert(hops@.skip(i as int).drop_first() =~= hops@.skip(i + 1));
        }
        if hops[i].prohibited {
            return Some(&hops[i]);
        }
        i += 1;
    }
    assert(hops@.skip(i as int) =~= Seq::<Hop>::empty());
    None
}

/// What is reported where no route can be traced.
pub open spec fn no_route_check() -> CheckView {
    begun("l3.trace"@, Layer::L3Network, NodeId::Provider, "Маршрут в интернет"@).finished(
        Status::Skipped,
        "Трассировка недоступна: система не разрешила отправку эхо-запросов."@,
        "Нет ICMP-транспорта — построить маршрут по TTL нечем."@,
    )
}

pub fn report_no_route(rep: &mut Reporter)
    ensures
        final(rep)@ == old(rep)@.push(EventView::Check(no_route_check())),
{
    rep.check(
        CheckResult::new(
            "l3.trace",
            Layer::L3Network,
            NodeId::Provider,
            "Маршрут в интернет",
        ).finish(
            Status::Skipped,
            "Трассировка недоступна: система не разрешила отправку эхо-запросов.",
            "Нет ICMP-транспорта — построить маршрут по TTL нечем.",
        ),
    );
}

/// The target of a trace: an anchor that answered, or else the first one. Even
/// where none answered, it matters how far the way is alive.
pub fn trace_target(anchor: Option<Ipv4Addr>, fallback: Ipv4Addr) -> (r: Ipv4Addr)
    ensures
        r == (match anchor {
            Some(a) => a,
            None => fallback,
        }),
{
    match anchor {
        Some(a) => a,
        None => fallback,
    }
}

/// Reports a node of a trace in progress.
pub fn report_hop(rep: &mut Reporter, hop: &Hop)
    ensures
        final(rep)@ == old(rep)@.push(
            (EventView::Progress {
                done: 4,
                label: "Маршрут: узел "@ + dec(hop.ttl as nat) + " из "@ + dec(MAX_HOPS as nat),
            }),
        ),
{
    rep.progress(
        4,
        String::from_str("Маршрут: узел ").concat(decimal(hop.ttl as u128).as_str()).concat(
            " из ",
        ).concat(decimal(MAX_HOPS as u128).as_str()).as_str(),
    );
}

pub open spec fn hop_lines(hops: Seq<Hop>) -> Seq<Seq<char>> {
    hops.map_values(|h: Hop| h.description())
}

/// The caption of the provider.
pub open spec fn provider_node(trace: TraceView) -> EventView {
    match trace.first_external {
        Some(hop) => EventView::Node {
            id: NodeId::Provider,
            subtitle: dec(hop.ttl as nat) + "-й узел пути"@,
            address: Some(address_text(hop)),
        },
        None => EventView::Node {
            id: NodeId::Provider,
            subtitle: "путь не выходит наружу"@,
            address: None,
        },
    }
}

/// The check of the provider.
pub open spec fn provider_check(trace: TraceView) -> CheckView {
    let check = begun(
        "l3.trace"@,
        Layer::L3Network,
        NodeId::Provider,
        "Маршрут в интернет"@,
    );
    (match trace.first_external {
        Some(hop) => check.finished(
            Status::Good,
            "Трафик выходит за пределы домашней сети: первый узел провайдера — "@ + address_text(
                hop,
            ) + ", он "@ + dec(hop.ttl as nat) + "-й на пути."@,
            "Первый внешний хоп "@ + address_text(hop) + " на TTL "@ + dec(hop.ttl as nat)
                + ", участок: "@ + (match hop.segment {
                Some(s) => s.title_text(),
                None => "не определён"@,
            }) + ". Всего узлов: "@ + dec(trace.hops.len()) + "."@,
        ),
        None => check.finished(
            Status::Fail,
            "Трафик не выходит за пределы частных сетей — до провайдера он не доходит. Все узлы на пути имеют «домашние» адреса, снаружи их не существует."@,
            "Ни одного хопа с публичным адресом или адресом CGNAT."@,
        ),
    }).noted_all(hop_lines(trace.hops))
}

/// The node at which a way that did not reach its target broke off.
pub open spec fn broken_after(trace: TraceView) -> Option<Hop> {
    if trace.reached {
        None
    } else {
        last_heard(trace.hops)
    }
}

/// The caption of the filter.
pub open spec fn filter_node(trace: TraceView) -> EventView {
    match first_prohibiting(trace.hops) {
        Some(hop) => EventView::Node {
            id: NodeId::Dpi,
            subtitle: "запрет на узле"@,
            address: Some(address_text(hop)),
        },
        None => if trace.reached {
            EventView::Node {
                id: NodeId::Dpi,
                subtitle: "признаков не найдено"@,
                address: None,
            }
        } else {
            match broken_after(trace) {
                Some(hop) => EventView::Node {
                    id: NodeId::Dpi,
                    subtitle: "путь обрывается"@,
                    address: Some(address_text(hop)),
                },
                None => EventView::Node {
                    id: NodeId::Dpi,
                    subtitle: "нет данных"@,
                    address: None,
                },
            }
        },
    }
}

/// The check of the filter.
pub open spec fn filter_check(trace: TraceView) -> CheckView {
    let check = begun("l3.filter"@, Layer::L3Network, NodeId::Dpi, "Фильтрация на пути"@);
    match first_prohibiting(trace.hops) {
        Some(hop) => check.finished(
            Status::Fail,
            "Узел "@ + address_text(hop)
                + " на пути прямо запрещает пропускать трафик. Это оборудование фильтрации, а не поломка."@,
            "Хоп "@ + dec(hop.ttl as nat) + " ("@ + address_text(hop)
                + ") вернул ICMP «прохождение запрещено административно»."@,
        ),
        None => if trace.reached {
            check.finished(
                Status::Good,
                "На пути до интернета оборудование не блокирует трафик — маршрут прошёл целиком."@,
                "Трассировка дошла до цели, ICMP-запретов по пути нет. Фильтрация по имени сайта проверяется отдельно — она на трассировке не видна."@,
            )
        } else {
            match broken_after(trace) {
                Some(hop) => check.finished(
                    Status::Warn,
                    "Путь обрывается после узла "@ + address_text(hop) + " ("@ + (
                    match hop.segment {
                        Some(s) => s.title_text(),
                        None => "неизвестный участок"@,
                    })
                        + "). Дальше пакеты уходят без ответа — так выглядит и перегруженный узел, и фильтрация."@,
                    "Последний ответивший хоп — "@ + dec(hop.ttl as nat) + " ("@ + address_text(
                        hop,
                    ) + "). Молчащих узлов подряд: "@ + dec(silence_behind(trace.hops))
                        + ". Часть узлов не отвечает на ICMP намеренно, поэтому один этот признак ещё не доказывает блокировку."@,
                ),
                None => check.finished(
                    Status::Skipped,
                    "Определить наличие фильтрации не удалось: маршрут не построился."@,
                    "Трассировка не дала ни одного ответившего узла."@,
                ),
            }
        },
    }
}

fn report_provider(rep: &mut Reporter, trace: &Trace)
    ensures
        final(rep)@ == old(rep)@.push(provider_node(trace@)).push(
            EventView::Check(provider_check(trace@)),
        ),
{
    let check = CheckResult::new(
        "l3.trace",
        Layer::L3Network,
        NodeId::Provider,
        "Маршрут в интернет",
    );
    let done = match &trace.first_external {
        Some(hop) => {
            let addr = hop_address(hop);
            let number = decimal(hop.ttl as u128);
            rep.node(
                NodeId::Provider,
                number.clone().concat("-й узел пути").as_str(),
                Some(addr.clone()),
            );
            let segment = match hop.segment {
                Some(s) => s.title(),
                None => "не определён",
            };
            check.finish(
                Status::Good,
                String::from_str(
                    "Трафик выходит за пределы домашней сети: первый узел провайдера — ",
                ).concat(addr.as_str()).concat(", он ").concat(number.as_str()).concat(
                    "-й на пути.",
                ).as_str(),
                String::from_str("Первый внешний хоп ").concat(addr.as_str()).concat(
                    " на TTL ",
                ).concat(number.as_str()).concat(", участок: ").concat(segment).concat(
                    ". Всего узлов: ",
                ).concat(decimal(trace.hops.len() as u128).as_str()).concat(".").as_str(),
            )
        },
        None => {
            rep.node(NodeId::Provider, "путь не выходит наружу", None);
            check.finish(
                Status::Fail,
                "Трафик не выходит за пределы частных сетей — до провайдера он не доходит. Все узлы на пути имеют «домашние» адреса, снаружи их не существует.",
                "Ни одного хопа с публичным адресом или адресом CGNAT.",
            )
        },
    };
    let mut lines: Vec<String> = Vec::new();
    let mut i: usize = 0;
    while i < trace.hops.len()
        invariant
            i <= trace.hops@.len(),
            lines@.len() == i,
            forall|k: int|
                0 <= k < i ==> (#[trigger] lines@[k])@ == trace.hops@[k].description(),
        decreases trace.hops@.len() - i,
    {
        lines.push(trace.hops[i].describe());
        i += 1;
    }
    assert(texts(lines@) =~= hop_lines(trace@.hops));
    rep.check(done.with_all_evidence(&lines));
}

fn report_filter(rep: &mut Reporter, trace: &Trace)
    ensures
        final(rep)@ == old(rep)@.push(filter_node(trace@)).push(
            EventView::Check(filter_check(trace@)),
        ),
{
    let check = CheckResult::new("l3.filter", Layer::L3Network, NodeId::Dpi, "Фильтрация на пути");
    match find_prohibiting(&trace.hops) {
        Some(hop) => {
            let addr = hop_address(hop);
            rep.node(NodeId::Dpi, "запрет на узле", Some(addr.clone()));
            rep.check(
                check.finish(
                    Status::Fail,
                    String::from_str("Узел ").concat(addr.as_str()).concat(
                        " на пути прямо запрещает пропускать трафик. Это оборудование фильтрации, а не поломка.",
                    ).as_str(),
                    String::from_str("Хоп ").concat(decimal(hop.ttl as u128).as_str()).concat(
                        " (",
                    ).concat(addr.as_str()).concat(
                        ") вернул ICMP «прохождение запрещено административно».",
                    ).as_str(),
                ),
            );
            return;
        },
        None => {},
    }
    if trace.reached {
        rep.node(NodeId::Dpi, "признаков не найдено", None);
        rep.check(
            check.finish(
                Status::Good,
                "На пути до интернета оборудование не блокирует трафик — маршрут прошёл целиком.",
                "Трассировка дошла до цели, ICMP-запретов по пути нет. Фильтрация по имени сайта проверяется отдельно — она на трассировке не видна.",
            ),
        );
        return;
    }
    match trace.break_after() {
        Some(hop) => {
            let addr = hop_address(hop);
            let segment = match hop.segment {
                Some(s) => s.title(),
                None => "неизвестный участок",
            };
            rep.node(NodeId::Dpi, "путь обрывается", Some(addr.clone()));
            rep.check(
                check.finish(
                    Status::Warn,
                    String::from_str("Путь обрывается после узла ").concat(addr.as_str()).concat(
                        " (",
                    ).concat(segment).concat(
                        "). Дальше пакеты уходят без ответа — так выглядит и перегруженный узел, и фильтрация.",
                    ).as_str(),
                    String::from_str("Последний ответивший хоп — ").concat(
                        decimal(hop.ttl as u128).as_str(),
                    ).concat(" (").concat(addr.as_str()).concat(
                        "). Молчащих узлов подряд: ",
                    ).concat(decimal(trace.silent_tail() as u128).as_str()).concat(
                        ". Часть узлов не отвечает на ICMP намеренно, поэтому один этот признак ещё не доказывает блокировку.",
                    ).as_str(),
                ),
            );
        },
        None => {
            rep.node(NodeId::Dpi, "нет данных", None);
            rep.check(
                check.finish(
                    Status::Skipped,
                    "Определить наличие фильтрации не удалось: маршрут не построился.",
                    "Трассировка не дала ни одного ответившего узла.",
                ),
            );
        },
    }
}

/// All that is reported of a route.
pub open spec fn route_events(trace: TraceView) -> Seq<EventView> {
    seq![
        provider_node(trace),
        EventView::Check(provider_check(trace)),
        filter_node(trace),
        EventView::Check(filter_check(trace)),
    ]
}

/// Reports a route: where it goes, and where it breaks off.
pub fn check_route(rep: &mut Reporter, trace: &Trace)
    ensures
        final(rep)@ == old(rep)@ + route_events(trace@),
{
    let ghost was = rep@;
    report_provider(rep, trace);
    report_filter(rep, trace);
    assert(rep@ =~= was + route_events(trace@));
}

/// Silence on a route is never reported as a failure of filtering: only a node
/// that forbids traffic explicitly is.
pub proof fn silence_is_not_prohibition(trace: TraceView)
    ensures
        filter_check(trace).status == Status::Fail <==> first_prohibiting(trace.hops) is Some,
{
}

/// The node that is blamed for forbidding traffic is one that does, and no node
/// before it does. None is blamed only where none does.
pub proof fn the_first_prohibition_counts(hops: Seq<Hop>)
    ensures
        match first_prohibiting(hops) {
            Some(h) => exists|i: int|
                0 <= i < hops.len() && #[trigger] hops[i] == h && hops[i].prohibited && (forall|j:
                    int| 0 <= j < i ==> !(#[trigger] hops[j]).prohibited),
            None => forall|i: int| 0 <= i < hops.len() ==> !(#[trigger] hops[i]).prohibited,
        },
    decreases hops.len(),
{
    if hops.len() > 0 {
        if hops[0].prohibited {
            assert(hops[0] == first_prohibiting(hops)->0);
        } else {
            let rest = hops.drop_first();
            the_first_prohibition_counts(rest);
            match first_prohibiting(rest) {
                Some(h) => {
                    let i = choose|i: int|
                        0 <= i < rest.len() && #[trigger] rest[i] == h && rest[i].prohibited && (
                        forall|j: int| 0 <= j < i ==> !(#[trigger] rest[j]).prohibited);
                    assert(hops[i + 1] == h);
                    assert forall|j: int| 0 <= j < i + 1 implies !(
                    #[trigger] hops[j]).prohibited by {
                        if j > 0 {
                            assert(!rest[j - 1].prohibited);
                        }
                    }
                },
                None => {
                    assert forall|i: int| 0 <= i < hops.len() implies !(
                    #[trigger] hops[i]).prohibited by {
                        if i > 0 {
                            assert(!rest[i - 1].prohibited);
                        }
                    }
                },
            }
        }
    }
}

/// What is said of a route follows from its nodes. The provider's check is good
/// exactly where a node outside private networks is known. A filter is found
/// exactly where a node forbids traffic; where none does, a route that reached
/// its target is clean, one that broke off behind a node is doubtful, and one
/// without any answer says nothing.
pub proof fn a_route_is_judged_by_its_nodes(trace: TraceView)
    ensures
        provider_check(trace).status == (if trace.first_external is Some {
            Status::Good
        } else {
            Status::Fail
        }),
        ({
            let forbids = exists|i: int|
                0 <= i < trace.hops.len() && (#[trigger] trace.hops[i]).prohibited;
            let heard = exists|i: int|
                0 <= i < trace.hops.len() && (#[trigger] trace.hops[i]).address is Some;
            &&& filter_check(trace).status == Status::Fail <==> forbids
            &&& filter_check(trace).status == Status::Good <==> !forbids && trace.reached
            &&& filter_check(trace).status == Status::Warn <==> !forbids && !trace.reached && heard
            &&& filter_check(trace).status == Status::Skipped <==> !forbids && !trace.reached
                && !heard
        }),
        provider_check(trace).node == NodeId::Provider,
        filter_check(trace).node == NodeId::Dpi,
        provider_check(trace).evidence.len() == trace.hops.len(),
        forall|i: int|
            0 <= i < trace.hops.len() ==> #[trigger] provider_check(trace).evidence[i]
                == trace.hops[i].description(),
        trace.first_external matches Some(hop) ==> provider_node(trace)->address == Some(
            address_text(hop),
        ),
{
    the_first_prohibition_counts(trace.hops);
    the_last_answer_is_the_last(trace.hops);
    let check = begun(
        "l3.trace"@,
        Layer::L3Network,
        NodeId::Provider,
        "Маршрут в интернет"@,
    );
    assert(check.evidence =~= Seq::<Seq<char>>::empty());
    assert(provider_check(trace).evidence =~= hop_lines(trace.hops));
}

} // verus!
