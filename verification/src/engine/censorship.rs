//! What exactly keeps a site from opening.
//!
//! The task is not to catch blocking but not to mix things up. "The site does
//! not open" has several causes: it is down, its address is blocked, its DNS
//! answer is forged, a filter reads its name. They are cured in different ways
//! and have to be named differently.
//!
//! Every conclusion rests on a comparison, not on lists of forbidden sites:
//! exactly one thing about a probe is changed, and it is seen whether the
//! behaviour changes.

use vstd::prelude::*;
use vstd::string::StringExecFns;
use crate::model::{note, opt_text, opt_view, with_note};
use crate::net::Ipv4Addr;
use crate::scan::{lemma_texts_empty, texts};
use crate::text::{dec, decimal};
use crate::time::Duration;
use super::cert::{Info, InfoView};
use super::dns::{rcode_name, rcode_text, Answer, AnswerView};
use super::http::{Response, ResponseView};
use super::tls::{Outcome, OutcomeView};

verus! {

/// What happens to a site.
#[derive(Debug, Clone, Copy, PartialEq, Eq, Structural)]
pub enum Verdict {
    /// It opens.
    Reachable,
    /// The DNS answer is not the real one.
    DnsSpoofed,
    /// The connection breaks because of the site's name.
    NameFiltered,
    /// The address itself is blocked: packets do not get there.
    AddressBlocked,
    /// A page with a notice of blocking comes in the place of the site.
    StubPage,
    /// The connection is opened on the way: another's certificate is shown.
    CertificateSwapped,
    /// The site seems to be down; filtering has nothing to do with it.
    SiteDown,
    /// There is not enough to go by.
    Unclear,
}

impl Verdict {
    pub open spec fn headline_text(self) -> Seq<char> {
        match self {
            Verdict::Reachable => "открывается"@,
            Verdict::DnsSpoofed => "подменён адрес"@,
            Verdict::NameFiltered => "блокировка по имени сайта"@,
            Verdict::AddressBlocked => "блокировка по адресу"@,
            Verdict::StubPage => "подставлена страница-заглушка"@,
            Verdict::CertificateSwapped => "подменён сертификат"@,
            Verdict::SiteDown => "сайт не отвечает"@,
            Verdict::Unclear => "не удалось определить"@,
        }
    }

    pub fn headline(self) -> (r: &'static str)
        ensures
            r@ == self.headline_text(),
    {
        match self {
            Verdict::Reachable => "открывается",
            Verdict::DnsSpoofed => "подменён адрес",
            Verdict::NameFiltered => "блокировка по имени сайта",
            Verdict::AddressBlocked => "блокировка по адресу",
            Verdict::StubPage => "подставлена страница-заглушка",
            Verdict::CertificateSwapped => "подменён сертификат",
            Verdict::SiteDown => "сайт не отвечает",
            Verdict::Unclear => "не удалось определить",
        }
    }
}

/// All that could be gathered about one site.
#[derive(Debug, Clone)]
pub struct Probe {
    pub domain: String,
    /// What the system's resolver answered.
    pub system_dns: Option<Answer>,
    /// What DNS inside HTTPS answered. A provider cannot forge this answer, so
    /// it is the standard.
    pub doh: Option<Answer>,
    /// The address to which the TLS probes went.
    pub address: Option<Ipv4Addr>,
    /// How long it takes to connect to that address: the server itself cannot
    /// answer faster.
    pub baseline: Option<Duration>,
    /// A handshake with the site's real name.
    pub real_sni: Option<Outcome>,
    /// The same connection with a neutral name.
    pub neutral_sni: Option<Outcome>,
    /// The real name, in a packet sent in two parts.
    pub split_sni: Option<Outcome>,
    /// The certificate that the server showed.
    pub certificate: Option<Info>,
    /// The response over plain HTTP, and why it is a stub, if it is.
    pub http: Option<Response>,
    pub http_stub: Option<String>,
}

#[verifier::ext_equal]
pub struct ProbeView {
    pub domain: Seq<char>,
    pub system_dns: Option<AnswerView>,
    pub doh: Option<AnswerView>,
    pub address: Option<Ipv4Addr>,
    pub baseline: Option<Duration>,
    pub real_sni: Option<OutcomeView>,
    pub neutral_sni: Option<OutcomeView>,
    pub split_sni: Option<OutcomeView>,
    pub certificate: Option<InfoView>,
    pub http: Option<ResponseView>,
    pub http_stub: Option<Seq<char>>,
}

impl View for Probe {
    type V = ProbeView;

    open spec fn view(&self) -> ProbeView {
        ProbeView {
            domain: self.domain@,
            system_dns: opt_view(self.system_dns),
            doh: opt_view(self.doh),
            address: self.address,
            baseline: self.baseline,
            real_sni: opt_view(self.real_sni),
            neutral_sni: opt_view(self.neutral_sni),
            split_sni: opt_view(self.split_sni),
            certificate: opt_view(self.certificate),
            http: opt_view(self.http),
            http_stub: opt_text(self.http_stub),
        }
    }
}

/// A site of which nothing was gathered yet.
pub open spec fn blank_probe(domain: Seq<char>) -> ProbeView {
    ProbeView {
        domain,
        system_dns: None,
        doh: None,
        address: None,
        baseline: None,
        real_sni: None,
        neutral_sni: None,
        split_sni: None,
        certificate: None,
        http: None,
        http_stub: None,
    }
}

impl Probe {
    pub fn new(domain: &str) -> (r: Self)
        ensures
            r@ == blank_probe(domain@),
    {
        Probe {
            domain: domain.to_owned(),
            system_dns: None,
            doh: None,
            address: None,
            baseline: None,
            real_sni: None,
            neutral_sni: None,
            split_sni: None,
            certificate: None,
            http: None,
            http_stub: None,
        }
    }
}

/// The conclusion about one site.
#[derive(Debug, Clone)]
pub struct Finding {
    pub domain: String,
    pub verdict: Verdict,
    pub simple: String,
    pub expert: String,
    pub evidence: Vec<String>,
}

#[verifier::ext_equal]
pub struct FindingView {
    pub domain: Seq<char>,
    pub verdict: Verdict,
    pub simple: Seq<char>,
    pub expert: Seq<char>,
    pub evidence: Seq<Seq<char>>,
}

impl View for Finding {
    type V = FindingView;

    open spec fn view(&self) -> FindingView {
        FindingView {
            domain: self.domain@,
            verdict: self.verdict,
            simple: self.simple@,
            expert: self.expert@,
            evidence: texts(self.evidence@),
        }
    }
}

/// Whether a reaction came sooner than the server could have answered.
///
/// The distance to the server is known: it is how long connecting takes. Half
/// of it is out of reach for the server, whatever the delays.
pub open spec fn injected(outcome: OutcomeView, baseline: Option<Duration>) -> bool {
    match (outcome.delay(), baseline) {
        (Some(reaction), Some(base)) => base.nanos > 4_000_000 && reaction.nanos * 2 < base.nanos,
        _ => false,
    }
}

pub fn looks_injected(outcome: &Outcome, baseline: Option<Duration>) -> (r: bool)
    ensures
        r == injected(outcome@, baseline),
{
    match (outcome.latency(), baseline) {
        (Some(reaction), Some(base)) => base.nanos > 4_000_000 && reaction.nanos < base.nanos / 2
            + base.nanos % 2,
        _ => false,
    }
}

impl ProbeView {
    /// The system's resolver leads nowhere, the standard does not.
    pub open spec fn led_nowhere(self) -> bool {
        match (self.system_dns, self.doh) {
            (Some(system), Some(doh)) => system.blackhole() && !doh.blackhole(),
            _ => false,
        }
    }

    /// The system's resolver denies that the site exists, the standard does
    /// not.
    pub open spec fn denied(self) -> bool {
        match (self.system_dns, self.doh) {
            (Some(system), Some(doh)) => system.addresses.len() == 0 && doh.addresses.len() > 0
                && system.rcode != 0,
            _ => false,
        }
    }

    pub open spec fn tested(self) -> bool {
        self.real_sni is Some && self.neutral_sni is Some
    }

    /// The real name breaks the connection, a neutral one does not.
    pub open spec fn name_matters(self) -> bool {
        self.tested() && self.real_sni->0.broken() && self.neutral_sni->0.answered()
    }

    /// The connection breaks whatever the name.
    pub open spec fn always_breaks(self) -> bool {
        self.tested() && self.real_sni->0.broken() && self.neutral_sni->0.broken()
    }

    /// Nothing comes back, not even for connecting.
    pub open spec fn swallowed(self) -> bool {
        self.tested() && self.real_sni->0 is Timeout && self.neutral_sni->0 is Timeout
            && self.baseline is None
    }

    pub open spec fn split_helped(self) -> bool {
        self.split_sni matches Some(o) && o.answered()
    }

    pub open spec fn evidence(self) -> Seq<Seq<char>> {
        let e0 = with_note(
            Seq::empty(),
            match self.system_dns {
                Some(a) => Some("DNS системы: "@ + a.description()),
                None => None,
            },
        );
        let e1 = with_note(
            e0,
            match self.doh {
                Some(a) => Some("DNS по HTTPS (эталон): "@ + a.description()),
                None => None,
            },
        );
        let e2 = with_note(
            e1,
            match self.real_sni {
                Some(o) => Some(
                    "рукопожатие с именем "@ + self.domain + ": "@ + o.description(),
                ),
                None => None,
            },
        );
        let e3 = with_note(
            e2,
            match self.neutral_sni {
                Some(o) => Some("то же соединение с нейтральным именем: "@ + o.description()),
                None => None,
            },
        );
        let e4 = with_note(
            e3,
            match self.split_sni {
                Some(o) => Some("имя разбито на две части: "@ + o.description()),
                None => None,
            },
        );
        let e5 = with_note(
            e4,
            match self.baseline {
                Some(b) => Some(
                    "время установки соединения с сервером: "@ + dec(b.millis()) + " мс"@,
                ),
                None => None,
            },
        );
        let e6 = with_note(
            e5,
            match self.certificate {
                Some(c) => Some("сертификат: "@ + c.description()),
                None => None,
            },
        );
        with_note(
            e6,
            match self.http {
                Some(h) => Some("ответ по HTTP: "@ + h.description()),
                None => None,
            },
        )
    }

    /// The verdict; `covered` says whether the certificate, if there is one, is
    /// good for the site.
    ///
    /// A forged address comes first: all further probes would go to the wrong
    /// server. A swapped certificate comes before the probes by name: where
    /// connections are opened on the way, they are made, and the site would
    /// look as if it worked.
    pub open spec fn verdict(self, covered: bool) -> Verdict {
        if self.led_nowhere() || self.denied() {
            Verdict::DnsSpoofed
        } else if self.certificate is Some && !covered {
            Verdict::CertificateSwapped
        } else if self.http_stub is Some {
            Verdict::StubPage
        } else if !self.tested() {
            Verdict::Unclear
        } else if self.name_matters() {
            Verdict::NameFiltered
        } else if self.always_breaks() {
            if self.swallowed() {
                Verdict::AddressBlocked
            } else {
                Verdict::SiteDown
            }
        } else if self.real_sni->0.answered() {
            Verdict::Reachable
        } else {
            Verdict::Unclear
        }
    }

    /// The explanation for a person.
    pub open spec fn simple(self, verdict: Verdict) -> Seq<char> {
        match verdict {
            Verdict::DnsSpoofed => if self.led_nowhere() {
                "Ваш DNS-сервер отвечает, что сайт "@ + self.domain
                    + " находится «в никуда». Настоящий адрес существует — значит ответ подменили."@
            } else {
                "Ваш DNS-сервер говорит, что сайта "@ + self.domain
                    + " не существует, хотя на самом деле он есть."@
            },
            Verdict::CertificateSwapped => "Соединение с "@ + self.domain
                + " кто-то вскрывает: сервер предъявляет не тот сертификат. Всё, что вы отправите на этот сайт, видно посреднику."@,
            Verdict::StubPage => "Вместо сайта "@ + self.domain
                + " отдают страницу с сообщением о блокировке. Сайт при этом может быть полностью исправен — ответ подставили по дороге."@,
            Verdict::Unclear => "Проверить сайт "@ + self.domain + " не удалось."@,
            Verdict::NameFiltered => "Сайт "@ + self.domain
                + " блокируют по имени. Сервер жив и на тот же адрес отвечает — обрывается только соединение, в котором указано это имя."@,
            Verdict::AddressBlocked => "До сервера сайта "@ + self.domain
                + " не доходят пакеты — ни с каким именем. Так выглядит блокировка по адресу."@,
            Verdict::SiteDown => "Сайт "@ + self.domain
                + " не отвечает, но признаков блокировки нет: он одинаково молчит на любое обращение. Скорее всего, дело в самом сайте."@,
            Verdict::Reachable => "Сайт "@ + self.domain + " открывается нормально."@,
        }
    }

    /// The explanation for an engineer.
    pub open spec fn expert(self, verdict: Verdict) -> Seq<char> {
        match verdict {
            Verdict::DnsSpoofed => if self.led_nowhere() {
                "Системный резолвер вернул "@ + self.system_dns->0.description() + ", DoH — "@
                    + self.doh->0.description() + "."@
            } else {
                "Системный резолвер: код "@ + dec(self.system_dns->0.rcode as nat) + " ("@
                    + rcode_text(self.system_dns->0.rcode) + "). DoH вернул "@ + dec(
                    self.doh->0.addresses.len(),
                ) + " адрес(ов)."@
            },
            Verdict::CertificateSwapped => (if self.certificate->0.issued_to_itself() {
                "Сертификат выписан сам себе"@
            } else {
                "Сертификат выдан на другое имя"@
            }) + ": "@ + self.certificate->0.description() + "."@,
            Verdict::StubPage => "Запрос по HTTP с именем "@ + self.domain
                + " вернул заглушку: "@ + self.http_stub->0 + "."@,
            Verdict::Unclear => "Не хватает результатов проб TLS."@,
            Verdict::NameFiltered => "На один и тот же адрес: с именем "@ + self.domain + " — "@
                + self.real_sni->0.description() + ", с нейтральным именем — "@
                + self.neutral_sni->0.description() + "."@ + (if self.split_helped() {
                " При отправке имени двумя частями соединение проходит — значит имя читает промежуточное оборудование, а не сервер: серверу безразлично, сколькими кусками пришли данные."@
            } else {
                Seq::empty()
            }) + (if injected(self.real_sni->0, self.baseline) {
                " Обрыв пришёл быстрее, чем сервер физически успел бы ответить, — отвечал не он."@
            } else {
                Seq::empty()
            }),
            Verdict::AddressBlocked => "Соединение не устанавливается ни с настоящим, ни с нейтральным именем, явного отказа нет — пакеты пропадают молча."@,
            Verdict::SiteDown => "Соединение устанавливается, но рукопожатие не проходит ни с настоящим именем ("@
                + self.real_sni->0.description() + "), ни с нейтральным ("@
                + self.neutral_sni->0.description() + ")."@,
            Verdict::Reachable => "Рукопожатие прошло: "@ + self.real_sni->0.description()
                + "."@,
        }
    }

    /// The conclusion.
    pub open spec fn finding(self, covered: bool) -> FindingView {
        let verdict = self.verdict(covered);
        FindingView {
            domain: self.domain,
            verdict,
            simple: self.simple(verdict),
            expert: self.expert(verdict),
            evidence: self.evidence(),
        }
    }

    /// Whether the certificate, if there is one, is good for the site.
    pub open spec fn covered(self) -> bool {
        match self.certificate {
            Some(c) => c.good_for(self.domain),
            None => true,
        }
    }
}

/// Name filtering is claimed only where the same address answers to another
/// name. Silence for every name is never called that.
pub proof fn name_filtering_needs_a_live_server(p: ProbeView, covered: bool)
    ensures
        p.verdict(covered) == Verdict::NameFiltered ==> p.real_sni->0.broken()
            && p.neutral_sni->0.answered(),
        p.always_breaks() ==> p.verdict(covered) != Verdict::NameFiltered,
{
}

/// A forged DNS answer outweighs whatever the other probes show, and a swapped
/// certificate whatever the probes by name show.
pub proof fn forgery_comes_first(p: ProbeView, covered: bool)
    ensures
        p.led_nowhere() || p.denied() ==> p.verdict(covered) == Verdict::DnsSpoofed,
        !p.led_nowhere() && !p.denied() && p.certificate is Some && !covered ==> p.verdict(covered)
            == Verdict::CertificateSwapped,
{
}

/// A site is called reachable only if it answered to its own name, and nothing
/// spoke against it. A connection that could not be made is never called that.
pub proof fn reachable_means_answered(p: ProbeView, covered: bool)
    requires
        p.verdict(covered) == Verdict::Reachable,
    ensures
        p.real_sni matches Some(o) && o.answered(),
        !p.led_nowhere() && !p.denied(),
        p.certificate is None || covered,
        p.http_stub is None,
{
}

fn gather(p: &Probe) -> (r: Vec<String>)
    ensures
        texts(r@) == p@.evidence(),
{
    let mut list: Vec<String> = Vec::new();
    proof {
        lemma_texts_empty(list@);
    }
    note(
        &mut list,
        match &p.system_dns {
            Some(a) => Some(String::from_str("DNS системы: ").concat(a.describe().as_str())),
            None => None,
        },
    );
    note(
        &mut list,
        match &p.doh {
            Some(a) => Some(
                String::from_str("DNS по HTTPS (эталон): ").concat(a.describe().as_str()),
            ),
            None => None,
        },
    );
    note(
        &mut list,
        match &p.real_sni {
            Some(o) => Some(
                String::from_str("рукопожатие с именем ").concat(p.domain.as_str()).concat(
                    ": ",
                ).concat(o.describe().as_str()),
            ),
            None => None,
        },
    );
    note(
        &mut list,
        match &p.neutral_sni {
            Some(o) => Some(
                String::from_str("то же соединение с нейтральным именем: ").concat(
                    o.describe().as_str(),
                ),
            ),
            None => None,
        },
    );
    note(
        &mut list,
        match &p.split_sni {
            Some(o) => Some(
                String::from_str("имя разбито на две части: ").concat(o.describe().as_str()),
            ),
            None => None,
        },
    );
    note(
        &mut list,
        match p.baseline {
            Some(b) => Some(
                String::from_str("время установки соединения с сервером: ").concat(
                    decimal(b.as_millis()).as_str(),
                ).concat(" мс"),
            ),
            None => None,
        },
    );
    note(
        &mut list,
        match &p.certificate {
            Some(c) => Some(String::from_str("сертификат: ").concat(c.describe().as_str())),
            None => None,
        },
    );
    note(
        &mut list,
        match &p.http {
            Some(h) => Some(String::from_str("ответ по HTTP: ").concat(h.describe().as_str())),
            None => None,
        },
    );
    list
}

fn decide(p: &Probe, covered: bool) -> (r: Verdict)
    ensures
        r == p@.verdict(covered),
{
    match (&p.system_dns, &p.doh) {
        (Some(system), Some(doh)) => {
            if system.is_blackhole() && !doh.is_blackhole() {
                return Verdict::DnsSpoofed;
            }
            if system.is_empty() && !doh.is_empty() && system.rcode != 0 {
                return Verdict::DnsSpoofed;
            }
        },
        _ => {},
    }
    if p.certificate.is_some() && !covered {
        return Verdict::CertificateSwapped;
    }
    if p.http_stub.is_some() {
        return Verdict::StubPage;
    }
    match (&p.real_sni, &p.neutral_sni) {
        (Some(own), Some(neutral)) => {
            if own.is_broken() && neutral.is_answered() {
                return Verdict::NameFiltered;
            }
            if own.is_broken() && neutral.is_broken() {
                let silent = match (own, neutral) {
                    (Outcome::Timeout, Outcome::Timeout) => true,
                    _ => false,
                };
                if silent && p.baseline.is_none() {
                    return Verdict::AddressBlocked;
                }
                return Verdict::SiteDown;
            }
            if own.is_answered() {
                Verdict::Reachable
            } else {
                Verdict::Unclear
            }
        },
        _ => Verdict::Unclear,
    }
}

fn nowhere(p: &Probe) -> (r: bool)
    ensures
        r == p@.led_nowhere(),
{
    match (&p.system_dns, &p.doh) {
        (Some(system), Some(doh)) => system.is_blackhole() && !doh.is_blackhole(),
        _ => false,
    }
}

fn say_simple(p: &Probe, verdict: Verdict) -> (r: String)
    ensures
        r@ == p@.simple(verdict),
{
    let domain = p.domain.as_str();
    match verdict {
        Verdict::DnsSpoofed => if nowhere(p) {
            String::from_str("Ваш DNS-сервер отвечает, что сайт ").concat(domain).concat(
                " находится «в никуда». Настоящий адрес существует — значит ответ подменили.",
            )
        } else {
            String::from_str("Ваш DNS-сервер говорит, что сайта ").concat(domain).concat(
                " не существует, хотя на самом деле он есть.",
            )
        },
        Verdict::CertificateSwapped => String::from_str("Соединение с ").concat(domain).concat(
            " кто-то вскрывает: сервер предъявляет не тот сертификат. Всё, что вы отправите на этот сайт, видно посреднику.",
        ),
        Verdict::StubPage => String::from_str("Вместо сайта ").concat(domain).concat(
            " отдают страницу с сообщением о блокировке. Сайт при этом может быть полностью исправен — ответ подставили по дороге.",
        ),
        Verdict::Unclear => String::from_str("Проверить сайт ").concat(domain).concat(
            " не удалось.",
        ),
        Verdict::NameFiltered => String::from_str("Сайт ").concat(domain).concat(
            " блокируют по имени. Сервер жив и на тот же адрес отвечает — обрывается только соединение, в котором указано это имя.",
        ),
        Verdict::AddressBlocked => String::from_str("До сервера сайта ").concat(domain).concat(
            " не доходят пакеты — ни с каким именем. Так выглядит блокировка по адресу.",
        ),
        Verdict::SiteDown => String::from_str("Сайт ").concat(domain).concat(
            " не отвечает, но признаков блокировки нет: он одинаково молчит на любое обращение. Скорее всего, дело в самом сайте.",
        ),
        Verdict::Reachable => String::from_str("Сайт ").concat(domain).concat(
            " открывается нормально.",
        ),
    }
}

fn say_forged(p: &Probe, system: &Answer, doh: &Answer) -> (r: String)
    requires
        p@.system_dns == Some(system@),
        p@.doh == Some(doh@),
    ensures
        r@ == p@.expert(Verdict::DnsSpoofed),
{
    if nowhere(p) {
        String::from_str("Системный резолвер вернул ").concat(system.describe().as_str()).concat(
            ", DoH — ",
        ).concat(doh.describe().as_str()).concat(".")
    } else {
        String::from_str("Системный резолвер: код ").concat(
            decimal(system.rcode as u128).as_str(),
        ).concat(" (").concat(rcode_name(system.rcode)).concat("). DoH вернул ").concat(
            decimal(doh.addresses.len() as u128).as_str(),
        ).concat(" адрес(ов).")
    }
}

fn say_filtered(p: &Probe, own: &Outcome, neutral: &Outcome) -> (r: String)
    requires
        p@.real_sni == Some(own@),
        p@.neutral_sni == Some(neutral@),
    ensures
        r@ == p@.expert(Verdict::NameFiltered),
{
    let helped = match &p.split_sni {
        Some(o) => o.is_answered(),
        None => false,
    };
    let split = if helped {
        " При отправке имени двумя частями соединение проходит — значит имя читает промежуточное оборудование, а не сервер: серверу безразлично, сколькими кусками пришли данные."
    } else {
        ""
    };
    let sooner = if looks_injected(own, p.baseline) {
        " Обрыв пришёл быстрее, чем сервер физически успел бы ответить, — отвечал не он."
    } else {
        ""
    };
    proof {
        reveal_strlit("");
        assert(""@ =~= Seq::<char>::empty());
    }
    String::from_str("На один и тот же адрес: с именем ").concat(p.domain.as_str()).concat(
        " — ",
    ).concat(own.describe().as_str()).concat(", с нейтральным именем — ").concat(
        neutral.describe().as_str(),
    ).concat(".").concat(split).concat(sooner)
}

/// Judges one site, where it is known whether its certificate is good for it.
pub fn judge_with(p: &Probe, covered: bool) -> (r: Finding)
    ensures
        r@ == p@.finding(covered),
{
    let verdict = decide(p, covered);
    let simple = say_simple(p, verdict);
    let expert = match verdict {
        Verdict::DnsSpoofed => match (&p.system_dns, &p.doh) {
            (Some(system), Some(doh)) => say_forged(p, system, doh),
            _ => String::new(),
        },
        Verdict::CertificateSwapped => match &p.certificate {
            Some(cert) => String::from_str(
                if cert.self_signed() {
                    "Сертификат выписан сам себе"
                } else {
                    "Сертификат выдан на другое имя"
                },
            ).concat(": ").concat(cert.describe().as_str()).concat("."),
            None => String::new(),
        },
        Verdict::StubPage => match &p.http_stub {
            Some(reason) => String::from_str("Запрос по HTTP с именем ").concat(
                p.domain.as_str(),
            ).concat(" вернул заглушку: ").concat(reason.as_str()).concat("."),
            None => String::new(),
        },
        Verdict::Unclear => String::from_str("Не хватает результатов проб TLS."),
        Verdict::AddressBlocked => String::from_str(
            "Соединение не устанавливается ни с настоящим, ни с нейтральным именем, явного отказа нет — пакеты пропадают молча.",
        ),
        _ => match (&p.real_sni, &p.neutral_sni) {
            (Some(own), Some(neutral)) => if verdict == Verdict::NameFiltered {
                say_filtered(p, own, neutral)
            } else if verdict == Verdict::SiteDown {
                String::from_str(
                    "Соединение устанавливается, но рукопожатие не проходит ни с настоящим именем (",
                ).concat(own.describe().as_str()).concat("), ни с нейтральным (").concat(
                    neutral.describe().as_str(),
                ).concat(").")
            } else {
                String::from_str("Рукопожатие прошло: ").concat(own.describe().as_str()).concat(
                    ".",
                )
            },
            _ => String::new(),
        },
    };
    Finding { domain: p.domain.clone(), verdict, simple, expert, evidence: gather(p) }
}

/// Judges one site.
pub fn judge(p: &Probe) -> (r: Finding)
    ensures
        r@ == p@.finding(p@.covered()),
{
    let covered = match &p.certificate {
        Some(cert) => cert.covers(p.domain.as_str()),
        None => true,
    };
    judge_with(p, covered)
}

/// Signs that a filter stands on the way, neither at the user's nor at the
/// sites'.
#[derive(Debug, Clone, Copy, PartialEq, Eq, Structural)]
pub struct Transit {
    /// How many sites break because of their name.
    pub name_filtered: usize,
    /// For how many of them the break came sooner than is possible.
    pub injected: usize,
    /// For how many of them a packet cut in two helps.
    pub split_helps: usize,
    /// How many sites were probed in all.
    pub total: usize,
}

impl Default for Transit {
    fn default() -> (r: Self)
        ensures
            r == (Transit { name_filtered: 0, injected: 0, split_helps: 0, total: 0 }),
    {
        Transit { name_filtered: 0, injected: 0, split_helps: 0, total: 0 }
    }
}

impl Transit {
    pub open spec fn confident(self) -> bool {
        self.name_filtered >= 2 && (self.injected > 0 || self.split_helps > 0)
    }

    /// Whether there are signs enough to speak of a filter on the way.
    ///
    /// One site will not do: it may simply be broken. Sites that have nothing to
    /// do with each other cannot break in the same manner.
    pub fn is_confident(&self) -> (r: bool)
        ensures
            r == self.confident(),
    {
        self.name_filtered >= 2 && (self.injected > 0 || self.split_helps > 0)
    }

    /// Whether there is anything to speak of.
    pub fn has_signals(&self) -> (r: bool)
        ensures
            r == (self.name_filtered > 0),
    {
        self.name_filtered > 0
    }

    pub open spec fn simple_text(self) -> Seq<char> {
        if self.confident() {
            "Соединения обрываются на оборудовании по дороге, а не у вас и не на стороне сайтов: одинаково перестают открываться "@
                + dec(self.name_filtered as nat)
                + " не связанных между собой сайта, и обрыв приходит раньше, чем успел бы ответить сам сайт."@
        } else {
            "Один сайт из "@ + dec(self.total as nat)
                + " обрывается по имени. Одного случая мало, чтобы утверждать что-то о фильтрации: сайт мог сломаться сам."@
        }
    }

    pub fn simple(&self) -> (r: String)
        ensures
            r@ == self.simple_text(),
    {
        if self.is_confident() {
            String::from_str(
                "Соединения обрываются на оборудовании по дороге, а не у вас и не на стороне сайтов: одинаково перестают открываться ",
            ).concat(decimal(self.name_filtered as u128).as_str()).concat(
                " не связанных между собой сайта, и обрыв приходит раньше, чем успел бы ответить сам сайт.",
            )
        } else {
            String::from_str("Один сайт из ").concat(decimal(self.total as u128).as_str()).concat(
                " обрывается по имени. Одного случая мало, чтобы утверждать что-то о фильтрации: сайт мог сломаться сам.",
            )
        }
    }

    pub open spec fn expert_text(self) -> Seq<char> {
        "Проверено сайтов: "@ + dec(self.total as nat) + ". Обрыв зависит от имени: "@ + dec(
            self.name_filtered as nat,
        ) + ". Ответ пришёл быстрее физически возможного: "@ + dec(self.injected as nat)
            + ". Помогает разделение первого пакета: "@ + dec(self.split_helps as nat) + "."@
    }

    pub fn expert(&self) -> (r: String)
        ensures
            r@ == self.expert_text(),
    {
        String::from_str("Проверено сайтов: ").concat(decimal(self.total as u128).as_str()).concat(
            ". Обрыв зависит от имени: ",
        ).concat(decimal(self.name_filtered as u128).as_str()).concat(
            ". Ответ пришёл быстрее физически возможного: ",
        ).concat(decimal(self.injected as u128).as_str()).concat(
            ". Помогает разделение первого пакета: ",
        ).concat(decimal(self.split_helps as u128).as_str()).concat(".")
    }
}

pub open spec fn probe_views(probes: Seq<Probe>) -> Seq<ProbeView> {
    probes.map_values(|p: Probe| p@)
}

pub open spec fn finding_views(findings: Seq<Finding>) -> Seq<FindingView> {
    findings.map_values(|f: Finding| f@)
}

/// How many of the first `n` pairs of a probe and its finding are name
/// filtering with a further sign.
pub open spec fn filtered_with(
    probes: Seq<ProbeView>,
    findings: Seq<FindingView>,
    sign: spec_fn(ProbeView) -> bool,
    n: int,
) -> nat
    decreases n,
{
    if n <= 0 {
        0
    } else {
        filtered_with(probes, findings, sign, n - 1) + if findings[n - 1].verdict
            == Verdict::NameFiltered && sign(probes[n - 1]) {
            1nat
        } else {
            0
        }
    }
}

/// How many pairs there are.
pub open spec fn pairs(probes: Seq<ProbeView>, findings: Seq<FindingView>) -> int {
    if probes.len() <= findings.len() {
        probes.len() as int
    } else {
        findings.len() as int
    }
}

pub open spec fn any_sign() -> spec_fn(ProbeView) -> bool {
    |p: ProbeView| true
}

pub open spec fn too_soon() -> spec_fn(ProbeView) -> bool {
    |p: ProbeView| p.real_sni matches Some(o) && injected(o, p.baseline)
}

pub open spec fn split_passes() -> spec_fn(ProbeView) -> bool {
    |p: ProbeView| p.split_helped()
}

/// Sums the probes of all sites up into signs of a filter on the way.
pub fn transit_signals(probes: &[Probe], findings: &[Finding]) -> (r: Transit)
    ensures
        ({
            let ps = probe_views(probes@);
            let fs = finding_views(findings@);
            &&& r.total == probes@.len()
            &&& r.name_filtered == filtered_with(ps, fs, any_sign(), pairs(ps, fs))
            &&& r.injected == filtered_with(ps, fs, too_soon(), pairs(ps, fs))
            &&& r.split_helps == filtered_with(ps, fs, split_passes(), pairs(ps, fs))
        }),
{
    let ghost ps = probe_views(probes@);
    let ghost fs = finding_views(findings@);
    let total: usize = probes.len();
    let mut t = Transit { name_filtered: 0, injected: 0, split_helps: 0, total };
    let mut i: usize = 0;
    while i < total && i < findings.len()
        invariant
            total == probes@.len(),
            ps == probe_views(probes@),
            fs == finding_views(findings@),
            i <= total,
            i <= findings@.len(),
            t.total == total,
            t.name_filtered == filtered_with(ps, fs, any_sign(), i as int),
            t.injected == filtered_with(ps, fs, too_soon(), i as int),
            t.split_helps == filtered_with(ps, fs, split_passes(), i as int),
            t.name_filtered <= i,
            t.injected <= i,
            t.split_helps <= i,
        decreases total - i,
    {
        assert(ps[i as int] == probes@[i as int]@);
        assert(fs[i as int] == findings@[i as int]@);
        if findings[i].verdict == Verdict::NameFiltered {
            t.name_filtered += 1;
            let soon = match &probes[i].real_sni {
                Some(o) => looks_injected(o, probes[i].baseline),
                None => false,
            };
            if soon {
                t.injected += 1;
            }
            let passes = match &probes[i].split_sni {
                Some(o) => o.is_answered(),
                None => false,
            };
            if passes {
                t.split_helps += 1;
            }
        }
        i += 1;
    }
    t
}

/// Further signs are counted only among the sites that break because of their
/// name, and there are never more of those than sites.
pub proof fn signs_are_among_the_filtered(
    probes: Seq<ProbeView>,
    findings: Seq<FindingView>,
    sign: spec_fn(ProbeView) -> bool,
    n: int,
)
    requires
        n >= 0,
    ensures
        filtered_with(probes, findings, sign, n) <= filtered_with(
            probes,
            findings,
            any_sign(),
            n,
        ) <= n,
    decreases n,
{
    if n > 0 {
        signs_are_among_the_filtered(probes, findings, sign, n - 1);
    }
}

/// One site is never enough for confidence.
pub proof fn confidence_needs_two_sites(t: Transit)
    ensures
        t.confident() ==> t.name_filtered >= 2,
{
}

/// The verdict in terms of what was seen. Broken is an attempt that was reset,
/// closed or left without an answer; answered is one that the server accepted
/// or declined.
///
/// A DNS answer is forged where the system's server leads to nowhere but the
/// standard does not, or where it denies a site that the standard knows. Where
/// none is, a certificate that is not good for the site comes next, and then a
/// page in the place of the site. Where there is nothing of these, the verdict
/// goes by the attempts: filtering by name exactly where the site's own name
/// breaks and a neutral one is answered; a blocked address exactly where both
/// end in silence and no connection was ever made; a site that is down exactly
/// where both break in any other manner; reachable exactly where the own name
/// is answered.
pub proof fn verdicts_mean_what_was_seen(p: ProbeView, covered: bool)
    ensures
        ({
            let nowhere = |a: AnswerView|
                a.addresses.len() > 0 && forall|i: int|
                    0 <= i < a.addresses.len() ==> (#[trigger] a.addresses[i]).a == 127 || (
                    a.addresses[i].a == 0 && a.addresses[i].b == 0 && a.addresses[i].c == 0
                        && a.addresses[i].d == 0);
            let forged = p.system_dns is Some && p.doh is Some && ((nowhere(p.system_dns->0)
                && !nowhere(p.doh->0)) || (p.system_dns->0.addresses.len() == 0
                && p.doh->0.addresses.len() > 0 && p.system_dns->0.rcode != 0));
            let swapped = p.certificate is Some && !covered;
            let plain = !forged && !swapped && p.http_stub is None;
            let broken = |o: Option<OutcomeView>|
                o is Some && (o->0 is Reset || o->0 is Closed || o->0 is Timeout);
            let answered = |o: Option<OutcomeView>|
                o is Some && (o->0 is ServerHello || o->0 is Alert);
            let mute = p.real_sni == Some(OutcomeView::Timeout) && p.neutral_sni == Some(
                OutcomeView::Timeout,
            ) && p.baseline is None;
            let v = p.verdict(covered);
            &&& v == Verdict::DnsSpoofed <==> forged
            &&& v == Verdict::CertificateSwapped <==> !forged && swapped
            &&& v == Verdict::StubPage <==> !forged && !swapped && p.http_stub is Some
            &&& v == Verdict::NameFiltered <==> plain && broken(p.real_sni) && answered(
                p.neutral_sni,
            )
            &&& v == Verdict::AddressBlocked <==> plain && mute
            &&& v == Verdict::SiteDown <==> plain && broken(p.real_sni) && broken(p.neutral_sni)
                && !mute
            &&& v == Verdict::Reachable <==> plain && answered(p.real_sni) && p.neutral_sni is Some
            &&& v == Verdict::SiteDown || v == Verdict::AddressBlocked ==> broken(p.neutral_sni)
            &&& p.finding(covered).verdict == v
            &&& p.finding(covered).domain == p.domain
        }),
{
}

/// A reaction is too soon to be the server's exactly where it came, and the time
/// of connecting is known, is longer than four milliseconds, and is more than
/// twice the time of the reaction.
pub proof fn the_server_cannot_be_faster_than_its_distance(
    outcome: OutcomeView,
    baseline: Option<Duration>,
)
    ensures
        injected(outcome, baseline) <==> baseline is Some && baseline->0.nanos > 4_000_000 && (
        match outcome {
            OutcomeView::ServerHello { rtt } => 2 * rtt.nanos < baseline->0.nanos,
            OutcomeView::Alert { rtt, code } => 2 * rtt.nanos < baseline->0.nanos,
            OutcomeView::Reset { after } => 2 * after.nanos < baseline->0.nanos,
            OutcomeView::Closed { after } => 2 * after.nanos < baseline->0.nanos,
            OutcomeView::Timeout => false,
            OutcomeView::ConnectFailed { error } => false,
        }),
{
}

/// Every site counts once and for itself: as many are counted as there are
/// places in the list where the site breaks because of its name and shows the
/// sign.
pub proof fn sites_are_counted_one_by_one(
    probes: Seq<ProbeView>,
    findings: Seq<FindingView>,
    sign: spec_fn(ProbeView) -> bool,
    n: int,
)
    requires
        0 <= n,
    ensures
        filtered_with(probes, findings, sign, n) == Seq::new(n as nat, |i: int| i).filter(
            |i: int| findings[i].verdict == Verdict::NameFiltered && sign(probes[i]),
        ).len(),
        pairs(probes, findings) <= probes.len(),
        pairs(probes, findings) <= findings.len(),
        pairs(probes, findings) == probes.len() || pairs(probes, findings) == findings.len(),
        forall|p: ProbeView|
            #[trigger] too_soon()(p) <==> p.real_sni is Some && injected(p.real_sni->0, p.baseline),
        forall|p: ProbeView|
            #[trigger] split_passes()(p) <==> p.split_sni is Some && (p.split_sni->0 is ServerHello
                || p.split_sni->0 is Alert),
    decreases n,
{
    reveal(Seq::filter);
    if n > 0 {
        sites_are_counted_one_by_one(probes, findings, sign, n - 1);
        let all = Seq::new(n as nat, |i: int| i);
        assert(all.drop_last() =~= Seq::new((n - 1) as nat, |i: int| i));
    }
}

/// Confidence takes two sites that break because of their name, and a sign that
/// it was not the sites themselves.
pub proof fn confidence_takes_signs(t: Transit)
    ensures
        t.confident() <==> t.name_filtered >= 2 && (t.injected >= 1 || t.split_helps >= 1),
{
}

} // verus!
