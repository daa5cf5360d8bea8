//! Names of sites: are they resolved, does a site answer, and does someone
//! intercept DNS queries?

use vstd::prelude::*;
use vstd::string::StringExecFns;
use crate::bus::{EventView, Reporter};
use crate::model::{begun, CheckResult, CheckView, Layer, NodeId, Status};
use crate::net::{IpAddr, Ipv4Addr};
use crate::scan::{join, joined, lemma_texts_empty, lemma_texts_push, texts};
use crate::targets::{target_views, Kind, Target, TargetView};
use crate::text::{dec, decimal};
use super::dns::{Answer, AnswerView};
use super::probe::{ms, TcpOutcome, TcpView};

verus! {

/// The notations of the system's DNS servers, with commas between them.
pub open spec fn servers_text(servers: Seq<IpAddr>) -> Seq<char> {
    joined(servers.map_values(|s: IpAddr| s.notation()), ", "@)
}

fn join_servers(servers: &Vec<IpAddr>) -> (r: String)
    ensures
        r@ == servers_text(servers@),
{
    let mut out: Vec<String> = Vec::new();
    let mut i: usize = 0;
    while i < servers.len()
        invariant
            i <= servers@.len(),
            out@.len() == i,
            forall|k: int| 0 <= k < i ==> (#[trigger] out@[k])@ == servers@[k].notation(),
        decreases servers@.len() - i,
    {
        out.push(servers[i].text());
        i += 1;
    }
    assert(texts(out@) =~= servers@.map_values(|s: IpAddr| s.notation()));
    join(&out, ", ")
}

/// How many names are resolved to see whether DNS works at all: a broken
/// resolver shows at once, and the rest is seen site by site later.
pub const NAMES_TRIED: usize = 3;

/// The domains among targets.
pub open spec fn domains_in(list: Seq<TargetView>) -> Seq<Seq<char>>
    decreases list.len(),
{
    if list.len() == 0 {
        Seq::empty()
    } else if list.last().kind == Kind::Domain {
        domains_in(list.drop_last()).push(list.last().value)
    } else {
        domains_in(list.drop_last())
    }
}

/// The first few domains among targets.
pub open spec fn names_to_try(list: Seq<TargetView>) -> Seq<Seq<char>> {
    let all = domains_in(list);
    if all.len() > NAMES_TRIED {
        all.take(NAMES_TRIED as int)
    } else {
        all
    }
}

/// Picks the first few domains among targets.
pub fn pick_names(items: &[Target]) -> (r: Vec<String>)
    ensures
        texts(r@) == names_to_try(target_views(items@)),
{
    let ghost list = target_views(items@);
    let mut out: Vec<String> = Vec::new();
    let mut i: usize = 0;
    proof {
        lemma_texts_empty(out@);
        assert(list.take(0) =~= Seq::<TargetView>::empty());
    }
    while i < items.len()
        invariant
            i <= items@.len(),
            list == target_views(items@),
            texts(out@) == names_to_try(list.take(i as int)),
        decreases items@.len() - i,
    {
        proof {
            assert(list.take(i + 1).drop_last() =~= list.take(i as int));
            assert(list.take(i + 1).last() == items@[i as int]@);
            assert(out@.len() == texts(out@).len());
        }
        let ghost was = domains_in(list.take(i as int));
        if items[i].is_domain() {
            let name = items[i].value.clone();
            if out.len() < NAMES_TRIED {
                proof {
                    lemma_texts_push(out@, name);
                }
                out.push(name);
            } else {
                proof {
                    assert(was.push(name@).take(NAMES_TRIED as int) =~= was.take(
                        NAMES_TRIED as int,
                    ));
                    if was.len() == NAMES_TRIED {
                        assert(was.take(NAMES_TRIED as int) =~= was);
                    }
                }
            }
        }
        i += 1;
    }
    assert(list.take(i as int) =~= list);
    out
}

/// What the system's resolver said of a name.
#[derive(Debug)]
pub enum Resolution {
    /// The addresses it gave, as text.
    Addresses(Vec<String>),
    Failed(String),
}

#[verifier::ext_equal]
pub enum ResolutionView {
    Addresses(Seq<Seq<char>>),
    Failed(Seq<char>),
}

impl View for Resolution {
    type V = ResolutionView;

    open spec fn view(&self) -> ResolutionView {
        match self {
            Resolution::Addresses(list) => ResolutionView::Addresses(texts(list@)),
            Resolution::Failed(error) => ResolutionView::Failed(error@),
        }
    }
}

impl ResolutionView {
    pub open spec fn resolved(self) -> bool {
        self matches ResolutionView::Addresses(list) && list.len() > 0
    }

    pub open spec fn line(self, site: Seq<char>) -> Seq<char> {
        match self {
            ResolutionView::Addresses(list) => if list.len() == 0 {
                site + " — имя не разрешилось ни в один адрес"@
            } else {
                site + " → "@ + joined(list, ", "@)
            },
            ResolutionView::Failed(error) => site + " — ошибка разрешения имени: "@ + error,
        }
    }
}

pub open spec fn resolution_views(list: Seq<Resolution>) -> Seq<ResolutionView> {
    list.map_values(|r: Resolution| r@)
}

pub open spec fn any_resolved(list: Seq<ResolutionView>) -> bool {
    exists|i: int| 0 <= i < list.len() && (#[trigger] list[i]).resolved()
}

pub open spec fn servers_line(servers: Seq<IpAddr>) -> Seq<char> {
    "DNS-серверы системы: "@ + (if servers.len() == 0 {
        "система не сообщила список"@
    } else {
        servers_text(servers)
    })
}

fn servers_evidence(servers: &Vec<IpAddr>) -> (r: String)
    ensures
        r@ == servers_line(servers@),
{
    let list = if servers.len() == 0 {
        String::from_str("система не сообщила список")
    } else {
        join_servers(servers)
    };
    String::from_str("DNS-серверы системы: ").concat(list.as_str())
}

/// What is reported where no target is a name.
pub open spec fn no_names_check(servers: Seq<IpAddr>) -> CheckView {
    begun("l7.dns"@, Layer::L7Application, NodeId::Internet, "Имена сайтов"@).finished(
        Status::Skipped,
        "В списке целей нет ни одного имени сайта — проверять разрешение имён не на чем. Добавьте домены на вкладке «Цели»."@,
        "Список целей состоит только из адресов."@,
    ).noted(servers_line(servers))
}

pub open spec fn name_lines(
    servers: Seq<IpAddr>,
    names: Seq<Seq<char>>,
    results: Seq<ResolutionView>,
) -> Seq<Seq<char>> {
    seq![servers_line(servers)] + Seq::new(
        results.len(),
        |i: int| results[i].line(names[i]),
    )
}

/// The check of DNS.
pub open spec fn names_check(
    servers: Seq<IpAddr>,
    names: Seq<Seq<char>>,
    results: Seq<ResolutionView>,
) -> CheckView {
    let check = begun("l7.dns"@, Layer::L7Application, NodeId::Internet, "Имена сайтов"@);
    (if any_resolved(results) {
        check.finished(
            Status::Good,
            "Имена сайтов превращаются в адреса — DNS работает."@,
            "Системный резолвер вернул адреса. Сравнение с эталонным ответом по HTTPS идёт отдельно, по каждому проверяемому сайту."@,
        )
    } else {
        check.finished(
            Status::Fail,
            "Компьютер не может узнать адреса сайтов по их именам. Обычно это отказ DNS."@,
            "Системный резолвер не вернул ни одной записи."@,
        )
    }).noted_all(name_lines(servers, names, results))
}

fn resolution_line(result: &Resolution, site: &str) -> (r: (String, bool))
    ensures
        r.0@ == result@.line(site@),
        r.1 == result@.resolved(),
{
    match result {
        Resolution::Addresses(list) => if list.len() == 0 {
            (site.to_owned().concat(" — имя не разрешилось ни в один адрес"), false)
        } else {
            (site.to_owned().concat(" → ").concat(join(list, ", ").as_str()), true)
        },
        Resolution::Failed(error) => (
            site.to_owned().concat(" — ошибка разрешения имени: ").concat(error.as_str()),
            false,
        ),
    }
}

/// Reports whether names are resolved, given what the resolver said of each of
/// those that were tried.
pub fn check_names(
    rep: &mut Reporter,
    servers: &Vec<IpAddr>,
    names: &Vec<String>,
    results: &Vec<Resolution>,
) -> (r: bool)
    requires
        names@.len() == results@.len(),
    ensures
        names@.len() == 0 ==> final(rep)@ == old(rep)@.push(
            EventView::Check(no_names_check(servers@)),
        ),
        names@.len() > 0 ==> final(rep)@ == old(rep)@.push(
            EventView::Check(names_check(servers@, texts(names@), resolution_views(results@))),
        ),
        r == any_resolved(resolution_views(results@)),
{
    let ghost views = resolution_views(results@);
    let check = CheckResult::new(
        "l7.dns",
        Layer::L7Application,
        NodeId::Internet,
        "Имена сайтов",
    );
    let first = servers_evidence(servers);
    if names.len() == 0 {
        rep.check(
            check.finish(
                Status::Skipped,
                "В списке целей нет ни одного имени сайта — проверять разрешение имён не на чем. Добавьте домены на вкладке «Цели».",
                "Список целей состоит только из адресов.",
            ).with_evidence(first.as_str()),
        );
        return false;
    }
    let mut lines: Vec<String> = Vec::new();
    lines.push(first);
    let mut resolved: bool = false;
    let mut i: usize = 0;
    while i < names.len()
        invariant
            i <= names@.len(),
            names@.len() == results@.len(),
            views == resolution_views(results@),
            lines@.len() == i + 1,
            lines@[0]@ == servers_line(servers@),
            forall|k: int| 1 <= k <= i ==> (#[trigger] lines@[k])@ == views[k - 1].line(
                names@[k - 1]@,
            ),
            resolved == (exists|k: int| 0 <= k < i && (#[trigger] views[k]).resolved()),
        decreases names@.len() - i,
    {
        assert(views[i as int] == results@[i as int]@);
        let (line, found) = resolution_line(&results[i], names[i].as_str());
        lines.push(line);
        if found {
            resolved = true;
        }
        i += 1;
    }
    assert(texts(lines@) =~= name_lines(servers@, texts(names@), views));
    let done = if resolved {
        check.finish(
            Status::Good,
            "Имена сайтов превращаются в адреса — DNS работает.",
            "Системный резолвер вернул адреса. Сравнение с эталонным ответом по HTTPS идёт отдельно, по каждому проверяемому сайту.",
        )
    } else {
        check.finish(
            Status::Fail,
            "Компьютер не может узнать адреса сайтов по их именам. Обычно это отказ DNS.",
            "Системный резолвер не вернул ни одной записи.",
        )
    };
    rep.check(done.with_all_evidence(&lines));
    resolved
}

/// A connection to a site: where it went and how it ended.
#[derive(Debug)]
pub struct SiteConnection {
    pub ip: String,
    /// The address with the port.
    pub address: String,
    pub outcome: TcpOutcome,
}

pub open spec fn site_check(site: Seq<char>, connection: Option<SiteConnection>) -> CheckView {
    let check = begun(
        "l7.site"@,
        Layer::L7Application,
        NodeId::Target,
        "Соединение с "@ + site,
    );
    match connection {
        Some(c) => match c.outcome@ {
            TcpView::Open { rtt } => check.finished(
                Status::Good,
                "Сайт "@ + site + " открывается, ответ за "@ + dec(rtt.millis()) + " мс."@,
                "TCP "@ + c.address@ + " установлено за "@ + dec(rtt.millis()) + " мс."@,
            ),
            _ => check.finished(
                Status::Fail,
                "До сайта "@ + site + " не удаётся достучаться."@,
                "TCP "@ + c.address@ + ": "@ + c.outcome@.description(),
            ),
        },
        None => check.finished(
            Status::Skipped,
            "Проверка пропущена: адрес сайта не удалось узнать."@,
            "Имя не разрешилось, соединение проверять не по чему."@,
        ),
    }
}

/// What is reported of a connection to a site.
pub open spec fn site_events(site: Seq<char>, connection: Option<SiteConnection>) -> Seq<EventView> {
    match connection {
        Some(c) => seq![
            EventView::Node { id: NodeId::Target, subtitle: site, address: Some(c.ip@) },
            EventView::Check(site_check(site, connection)),
        ],
        None => seq![EventView::Check(site_check(site, connection))],
    }
}

/// Reports the connection to a site. DNS may work while connections break.
pub fn check_site(rep: &mut Reporter, site: &str, connection: &Option<SiteConnection>)
    ensures
        final(rep)@ == old(rep)@ + site_events(site@, *connection),
{
    let ghost was = rep@;
    let check = CheckResult::new(
        "l7.site",
        Layer::L7Application,
        NodeId::Target,
        String::from_str("Соединение с ").concat(site).as_str(),
    );
    match connection {
        Some(c) => {
            rep.node(NodeId::Target, site, Some(c.ip.clone()));
            let done = match &c.outcome {
                TcpOutcome::Open { rtt } => {
                    let time = decimal(ms(*rtt));
                    check.finish(
                        Status::Good,
                        String::from_str("Сайт ").concat(site).concat(
                            " открывается, ответ за ",
                        ).concat(time.as_str()).concat(" мс.").as_str(),
                        String::from_str("TCP ").concat(c.address.as_str()).concat(
                            " установлено за ",
                        ).concat(time.as_str()).concat(" мс.").as_str(),
                    )
                },
                _ => check.finish(
                    Status::Fail,
                    String::from_str("До сайта ").concat(site).concat(
                        " не удаётся достучаться.",
                    ).as_str(),
                    String::from_str("TCP ").concat(c.address.as_str()).concat(": ").concat(
                        c.outcome.describe().as_str(),
                    ).as_str(),
                ),
            };
            rep.check(done);
        },
        None => {
            rep.check(
                check.finish(
                    Status::Skipped,
                    "Проверка пропущена: адрес сайта не удалось узнать.",
                    "Имя не разрешилось, соединение проверять не по чему.",
                ),
            );
        },
    }
    assert(rep@ =~= was + site_events(site@, *connection));
}

/// An address of the range for documentation, where no DNS server can be. An
/// answer from it means that the provider intercepts queries.
pub open spec fn nowhere() -> Ipv4Addr {
    Ipv4Addr { a: 192, b: 0, c: 2, d: 1 }
}

pub fn nowhere_resolver() -> (r: Ipv4Addr)
    ensures
        r == nowhere(),
{
    Ipv4Addr::new(192, 0, 2, 1)
}

/// The check of interception, from the answer of a place where nobody is.
pub open spec fn interception_check(
    answer: Option<AnswerView>,
    servers: Seq<IpAddr>,
) -> CheckView {
    let check = begun(
        "l7.dns.intercept"@,
        Layer::L7Application,
        NodeId::Provider,
        "Перехват DNS-запросов"@,
    );
    let place = nowhere().notation();
    match answer {
        Some(a) => check.finished(
            Status::Warn,
            "Провайдер перехватывает запросы к DNS-серверам: ответ пришёл от адреса "@ + place
                + ", где никакого сервера нет. Значит смена DNS в настройках ничего не изменит — отвечать всё равно будет провайдер."@,
            "Запрос к "@ + place + ":53 получил ответ: "@ + a.description()
                + ". Адрес принадлежит диапазону для документации, работающего резолвера там быть не может."@,
        ).noted("ответ от "@ + place + ": "@ + a.description()),
        None => check.finished(
            Status::Good,
            "Запросы к DNS-серверам не перехватываются: можно менять DNS в настройках, и это будет иметь смысл."@,
            "Запрос к "@ + place
                + ":53 остался без ответа, как и должно быть. Системные серверы: "@ + (
            if servers.len() == 0 {
                "не сообщены"@
            } else {
                servers_text(servers)
            }) + "."@,
        ),
    }
}

/// Reports whether the provider intercepts queries to other DNS servers.
pub fn check_dns_interception(
    rep: &mut Reporter,
    answer: &Option<Answer>,
    servers: &Vec<IpAddr>,
)
    ensures
        final(rep)@ == old(rep)@.push(
            EventView::Check(
                interception_check(
                    match *answer {
                        Some(a) => Some(a@),
                        None => None,
                    },
                    servers@,
                ),
            ),
        ),
{
    let check = CheckResult::new(
        "l7.dns.intercept",
        Layer::L7Application,
        NodeId::Provider,
        "Перехват DNS-запросов",
    );
    let place = nowhere_resolver().text();
    let done = match answer {
        Some(a) => {
            let text = a.describe();
            check.finish(
                Status::Warn,
                String::from_str(
                    "Провайдер перехватывает запросы к DNS-серверам: ответ пришёл от адреса ",
                ).concat(place.as_str()).concat(
                    ", где никакого сервера нет. Значит смена DNS в настройках ничего не изменит — отвечать всё равно будет провайдер.",
                ).as_str(),
                String::from_str("Запрос к ").concat(place.as_str()).concat(
                    ":53 получил ответ: ",
                ).concat(text.as_str()).concat(
                    ". Адрес принадлежит диапазону для документации, работающего резолвера там быть не может.",
                ).as_str(),
            ).with_evidence(
                String::from_str("ответ от ").concat(place.as_str()).concat(": ").concat(
                    text.as_str(),
                ).as_str(),
            )
        },
        None => {
            let list = if servers.len() == 0 {
                String::from_str("не сообщены")
            } else {
                join_servers(servers)
            };
            check.finish(
                Status::Good,
                "Запросы к DNS-серверам не перехватываются: можно менять DNS в настройках, и это будет иметь смысл.",
                String::from_str("Запрос к ").concat(place.as_str()).concat(
                    ":53 остался без ответа, как и должно быть. Системные серверы: ",
                ).concat(list.as_str()).concat(".").as_str(),
            )
        },
    };
    rep.check(done);
}

proof fn lemma_domains(list: Seq<TargetView>)
    ensures
        domains_in(list) == list.filter(|t: TargetView| t.kind is Domain).map_values(
            |t: TargetView| t.value,
        ),
    decreases list.len(),
{
    reveal(Seq::filter);
    let value = |t: TargetView| t.value;
    let picked = list.filter(|t: TargetView| t.kind is Domain);
    if list.len() > 0 {
        lemma_domains(list.drop_last());
        let before = list.drop_last().filter(|t: TargetView| t.kind is Domain);
        if list.last().kind is Domain {
            assert(before.push(list.last()).map_values(value) =~= before.map_values(value).push(
                list.last().value,
            ));
        }
    } else {
        assert(picked.map_values(value) =~= Seq::<Seq<char>>::empty());
    }
}

/// The names that are tried are the first three sites of the list, in its order;
/// bare addresses are passed over.
pub proof fn the_first_three_names_are_tried(list: Seq<TargetView>)
    ensures
        ({
            let sites = list.filter(|t: TargetView| t.kind is Domain);
            let tried = names_to_try(list);
            &&& tried.len() == (if sites.len() < 3 { sites.len() as int } else { 3int })
            &&& forall|i: int| 0 <= i < tried.len() ==> #[trigger] tried[i] == sites[i].value
        }),
{
    lemma_domains(list);
}

/// Names work where at least one of them gives an address, and the check is good
/// exactly then.
pub proof fn one_resolved_name_is_enough(
    servers: Seq<IpAddr>,
    names: Seq<Seq<char>>,
    results: Seq<ResolutionView>,
)
    ensures
        any_resolved(results) <==> exists|i: int|
            0 <= i < results.len() && (#[trigger] results[i]) is Addresses && results[i]->Addresses_0.len()
                > 0,
        names_check(servers, names, results).status == (if any_resolved(results) {
            Status::Good
        } else {
            Status::Fail
        }),
        names_check(servers, names, results).evidence.len() == 1 + results.len() as int,
        no_names_check(servers).status == Status::Skipped,
{
    if any_resolved(results) {
        let i = choose|i: int| 0 <= i < results.len() && (#[trigger] results[i]).resolved();
        assert(results[i] is Addresses);
    }
    if exists|i: int|
        0 <= i < results.len() && (#[trigger] results[i]) is Addresses && results[i]->Addresses_0.len() > 0 {
        let i = choose|i: int|
            0 <= i < results.len() && (#[trigger] results[i]) is Addresses && results[i]->Addresses_0.len()
                > 0;
        assert(results[i].resolved());
    }
}

/// A site opens exactly where a connection to it was made; an answer from an
/// address where no server is means that queries are intercepted.
pub proof fn sites_and_servers_are_judged_by_answers(
    site: Seq<char>,
    connection: Option<SiteConnection>,
    answer: Option<AnswerView>,
    servers: Seq<IpAddr>,
)
    ensures
        site_check(site, connection).status == (match connection {
            Some(c) => if c.outcome@ is Open {
                Status::Good
            } else {
                Status::Fail
            },
            None => Status::Skipped,
        }),
        interception_check(answer, servers).status == (if answer is Some {
            Status::Warn
        } else {
            Status::Good
        }),
        site_check(site, connection).node == NodeId::Target,
{
}

/// A name is told with all its addresses; one that gave none, or could not be
/// asked for, is told as such.
pub proof fn resolutions_are_told(r: ResolutionView, site: Seq<char>)
    ensures
        r matches ResolutionView::Addresses(list) && list.len() > 0 ==> r.line(site) == site
            + " → "@ + joined(r->Addresses_0, ", "@),
        r matches ResolutionView::Addresses(list) && list.len() == 0 ==> r.line(site) == site
            + " — имя не разрешилось ни в один адрес"@,
        r matches ResolutionView::Failed(error) ==> r.line(site) == site
            + " — ошибка разрешения имени: "@ + error,
        r.resolved() <==> r is Addresses && r->Addresses_0.len() > 0,
{
}

} // verus!
