//! The questions that are asked about one target, and in which order.
//!
//! Each answer decides what is asked next: whoever performs the network calls
//! asks what [`Inquiry::question`] says and hands the answer back.

use vstd::prelude::*;
use crate::net::Ipv4Addr;
use crate::targets::{Kind, Target, TargetView};
use crate::time::Duration;
use super::censorship::{blank_probe, Probe, ProbeView};
use super::dns::{Answer, AnswerView};
use super::probe::{TcpOutcome, TcpView};
use super::tls::{Delivery, Outcome, OutcomeView};

verus! {

/// The name that stands in for the real one, to tell "the server does not
/// answer" from "this name is not let through".
pub const NEUTRAL_SNI: &'static str = "example.org";

/// The servers of DNS inside HTTPS. They are given by number: where DNS is
/// broken or forged, resolving the name of such a server would go in a circle.
pub fn doh_endpoints() -> (r: [&'static str; 2])
    ensures
        r@[0]@ == "https://1.1.1.1/dns-query"@,
        r@[1]@ == "https://8.8.8.8/dns-query"@,
{
    ["https://1.1.1.1/dns-query", "https://8.8.8.8/dns-query"]
}

/// How many such servers there are.
pub const DOH_COUNT: usize = 2;

/// How far an inquiry has come.
#[derive(Debug, Clone, Copy, PartialEq, Eq, Structural)]
pub enum Stage {
    /// A server of DNS inside HTTPS is asked: the answer that a provider cannot
    /// forge.
    Doh(usize),
    /// The system's resolver is asked.
    System,
    /// A connection is tried: the server cannot answer faster than that.
    Connect,
    /// It is tried again, with more time: a lost packet looks like blocking.
    Retry,
    /// A handshake with the target's own name.
    Own,
    /// A handshake with the neutral name.
    Neutral,
    /// A handshake with the target's own name in two parts.
    Split,
    Done,
}

/// What is asked next.
#[derive(Debug)]
pub enum Question {
    Doh { server: usize },
    SystemDns,
    Connect { address: Ipv4Addr, patient: bool },
    Handshake { address: Ipv4Addr, name: String, delivery: Delivery },
    Nothing,
}

#[verifier::ext_equal]
pub enum QuestionView {
    Doh { server: usize },
    SystemDns,
    Connect { address: Ipv4Addr, patient: bool },
    Handshake { address: Ipv4Addr, name: Seq<char>, delivery: Delivery },
    Nothing,
}

impl View for Question {
    type V = QuestionView;

    open spec fn view(&self) -> QuestionView {
        match self {
            Question::Doh { server } => QuestionView::Doh { server: *server },
            Question::SystemDns => QuestionView::SystemDns,
            Question::Connect { address, patient } => QuestionView::Connect {
                address: *address,
                patient: *patient,
            },
            Question::Handshake { address, name, delivery } => QuestionView::Handshake {
                address: *address,
                name: name@,
                delivery: *delivery,
            },
            Question::Nothing => QuestionView::Nothing,
        }
    }
}

/// What came back.
#[derive(Debug)]
pub enum Response {
    /// An answer of DNS, if there was one.
    Dns(Option<Answer>),
    Tcp(TcpOutcome),
    Tls(Outcome),
}

#[verifier::ext_equal]
pub enum ResponseView {
    Dns(Option<AnswerView>),
    Tcp(TcpView),
    Tls(OutcomeView),
}

impl View for Response {
    type V = ResponseView;

    open spec fn view(&self) -> ResponseView {
        match self {
            Response::Dns(answer) => ResponseView::Dns(
                match answer {
                    Some(a) => Some(a@),
                    None => None,
                },
            ),
            Response::Tcp(outcome) => ResponseView::Tcp(outcome@),
            Response::Tls(outcome) => ResponseView::Tls(outcome@),
        }
    }
}

/// An inquiry about one target.
#[derive(Debug)]
pub struct Inquiry {
    pub kind: Kind,
    /// Whether the system has a DNS server to ask.
    pub has_server: bool,
    pub probe: Probe,
    pub stage: Stage,
}

#[verifier::ext_equal]
pub struct InquiryView {
    pub kind: Kind,
    pub has_server: bool,
    pub probe: ProbeView,
    pub stage: Stage,
}

impl View for Inquiry {
    type V = InquiryView;

    open spec fn view(&self) -> InquiryView {
        InquiryView {
            kind: self.kind,
            has_server: self.has_server,
            probe: self.probe@,
            stage: self.stage,
        }
    }
}

/// The address to probe: that of the standard, which is real for certain, or
/// else that of the system's resolver.
pub open spec fn address_from(
    doh: Option<AnswerView>,
    system: Option<AnswerView>,
) -> Option<Ipv4Addr> {
    match first_address(doh) {
        Some(a) => Some(a),
        None => first_address(system),
    }
}

pub open spec fn first_address(answer: Option<AnswerView>) -> Option<Ipv4Addr> {
    match answer {
        Some(a) => if a.addresses.len() > 0 {
            Some(a.addresses[0])
        } else {
            None
        },
        None => None,
    }
}

fn head(answer: &Option<Answer>) -> (r: Option<Ipv4Addr>)
    ensures
        r == first_address(
            match *answer {
                Some(a) => Some(a@),
                None => None,
            },
        ),
{
    match answer {
        Some(a) => if a.addresses.len() > 0 {
            Some(a.addresses[0])
        } else {
            None
        },
        None => None,
    }
}

impl InquiryView {
    /// Whether the parts of an inquiry fit together.
    pub open spec fn well_formed(self) -> bool {
        match self.stage {
            Stage::Doh(i) => i < DOH_COUNT && self.kind == Kind::Domain,
            Stage::System => self.kind == Kind::Domain && self.has_server,
            Stage::Connect => self.probe.address is Some,
            Stage::Retry => self.probe.address is Some,
            Stage::Own => self.probe.address is Some && self.probe.baseline is Some,
            Stage::Neutral => self.probe.address is Some && self.probe.baseline is Some
                && self.probe.real_sni is Some,
            Stage::Split => self.probe.address is Some && self.kind == Kind::Domain
                && self.probe.real_sni is Some && self.probe.real_sni->0.broken(),
            Stage::Done => true,
        }
    }

    pub open spec fn question(self) -> QuestionView {
        match self.stage {
            Stage::Doh(i) => QuestionView::Doh { server: i },
            Stage::System => QuestionView::SystemDns,
            Stage::Connect => QuestionView::Connect {
                address: self.probe.address->0,
                patient: false,
            },
            Stage::Retry => QuestionView::Connect {
                address: self.probe.address->0,
                patient: true,
            },
            Stage::Own => QuestionView::Handshake {
                address: self.probe.address->0,
                name: self.own_name(),
                delivery: Delivery::Whole,
            },
            Stage::Neutral => QuestionView::Handshake {
                address: self.probe.address->0,
                name: NEUTRAL_SNI@,
                delivery: Delivery::Whole,
            },
            Stage::Split => QuestionView::Handshake {
                address: self.probe.address->0,
                name: self.probe.domain,
                delivery: Delivery::Split,
            },
            Stage::Done => QuestionView::Nothing,
        }
    }

    /// The name for a handshake. A bare address has none of its own.
    pub open spec fn own_name(self) -> Seq<char> {
        match self.kind {
            Kind::Domain => self.probe.domain,
            Kind::Address(_) => NEUTRAL_SNI@,
        }
    }

    /// Whether a response is one to the question at hand.
    pub open spec fn fits(self, response: ResponseView) -> bool {
        match self.stage {
            Stage::Doh(_) => response is Dns,
            Stage::System => response is Dns,
            Stage::Connect => response is Tcp,
            Stage::Retry => response is Tcp,
            Stage::Done => false,
            _ => response is Tls,
        }
    }

    /// The inquiry once DNS has been asked: to the connection, or to the end
    /// where there is no address.
    pub open spec fn located(self, doh: Option<AnswerView>, system: Option<AnswerView>) -> InquiryView {
        let address = address_from(doh, system);
        InquiryView {
            probe: ProbeView { doh, system_dns: system, address, ..self.probe },
            stage: if address is Some {
                Stage::Connect
            } else {
                Stage::Done
            },
            ..self
        }
    }

    /// The inquiry once the standard is known, or not to be had.
    pub open spec fn with_standard(self, doh: Option<AnswerView>) -> InquiryView {
        if self.has_server {
            InquiryView {
                probe: ProbeView { doh, ..self.probe },
                stage: Stage::System,
                ..self
            }
        } else {
            self.located(doh, self.probe.system_dns)
        }
    }

    /// The inquiry where no connection could be made: no handshake will begin,
    /// so none is tried, and both count as ended in the same way.
    pub open spec fn cut_short(self, outcome: OutcomeView) -> InquiryView {
        InquiryView {
            probe: ProbeView {
                real_sni: Some(outcome),
                neutral_sni: Some(outcome),
                ..self.probe
            },
            stage: Stage::Done,
            ..self
        }
    }

    /// The inquiry after a response.
    pub open spec fn after(self, response: ResponseView) -> InquiryView {
        match (self.stage, response) {
            (Stage::Doh(i), ResponseView::Dns(answer)) => if answer is None && i + 1
                < DOH_COUNT {
                InquiryView { stage: Stage::Doh((i + 1) as usize), ..self }
            } else {
                self.with_standard(answer)
            },
            (Stage::System, ResponseView::Dns(answer)) => self.located(self.probe.doh, answer),
            (_, ResponseView::Tcp(outcome)) => match outcome {
                TcpView::Open { rtt } => InquiryView {
                    probe: ProbeView { baseline: Some(rtt), ..self.probe },
                    stage: Stage::Own,
                    ..self
                },
                TcpView::Refused { rtt } => self.cut_short(OutcomeView::Reset { after: rtt }),
                TcpView::Timeout => if self.stage == Stage::Connect {
                    InquiryView { stage: Stage::Retry, ..self }
                } else {
                    self.cut_short(OutcomeView::Timeout)
                },
                TcpView::Unreachable { .. } => self.cut_short(OutcomeView::Timeout),
            },
            (Stage::Own, ResponseView::Tls(outcome)) => InquiryView {
                probe: ProbeView { real_sni: Some(outcome), ..self.probe },
                stage: Stage::Neutral,
                ..self
            },
            (Stage::Neutral, ResponseView::Tls(outcome)) => InquiryView {
                probe: ProbeView { neutral_sni: Some(outcome), ..self.probe },
                stage: if self.probe.real_sni->0.broken() && self.kind == Kind::Domain {
                    Stage::Split
                } else {
                    Stage::Done
                },
                ..self
            },
            (_, ResponseView::Tls(outcome)) => InquiryView {
                probe: ProbeView { split_sni: Some(outcome), ..self.probe },
                stage: Stage::Done,
                ..self
            },
            _ => self,
        }
    }

    /// How many questions are left at most.
    pub open spec fn questions_left(self) -> int {
        match self.stage {
            Stage::Doh(i) => 6 + DOH_COUNT - i,
            Stage::System => 6,
            Stage::Connect => 5,
            Stage::Retry => 4,
            Stage::Own => 3,
            Stage::Neutral => 2,
            Stage::Split => 1,
            Stage::Done => 0,
        }
    }
}

/// An inquiry before anything was asked.
pub open spec fn opened(target: TargetView, has_server: bool) -> InquiryView {
    let blank = blank_probe(target.value);
    match target.kind {
        Kind::Address(a) => InquiryView {
            kind: target.kind,
            has_server,
            probe: ProbeView { address: Some(a), ..blank },
            stage: Stage::Connect,
        },
        Kind::Domain => InquiryView {
            kind: target.kind,
            has_server,
            probe: blank,
            stage: Stage::Doh(0),
        },
    }
}

impl Inquiry {
    pub fn new(target: &Target, has_server: bool) -> (r: Self)
        ensures
            r@ == opened(target@, has_server),
            r@.well_formed(),
    {
        let mut probe = Probe::new(target.value.as_str());
        let stage = match target.kind {
            Kind::Address(a) => {
                probe.address = Some(a);
                Stage::Connect
            },
            Kind::Domain => Stage::Doh(0),
        };
        Inquiry { kind: target.kind, has_server, probe, stage }
    }

    /// What is to be asked next.
    pub fn question(&self) -> (r: Question)
        requires
            self@.well_formed(),
        ensures
            r@ == self@.question(),
    {
        match self.stage {
            Stage::Doh(i) => {
                return Question::Doh { server: i };
            },
            Stage::System => {
                return Question::SystemDns;
            },
            Stage::Done => {
                return Question::Nothing;
            },
            _ => {},
        }
        let address = match self.probe.address {
            Some(a) => a,
            None => {
                return Question::Nothing;
            },
        };
        match self.stage {
            Stage::Connect => Question::Connect { address, patient: false },
            Stage::Retry => Question::Connect { address, patient: true },
            Stage::Own => Question::Handshake {
                address,
                name: match self.kind {
                    Kind::Domain => self.probe.domain.clone(),
                    Kind::Address(_) => NEUTRAL_SNI.to_owned(),
                },
                delivery: Delivery::Whole,
            },
            Stage::Neutral => Question::Handshake {
                address,
                name: NEUTRAL_SNI.to_owned(),
                delivery: Delivery::Whole,
            },
            _ => Question::Handshake {
                address,
                name: self.probe.domain.clone(),
                delivery: Delivery::Split,
            },
        }
    }

    fn locate(&mut self)
        requires
            old(self)@.kind == Kind::Domain,
        ensures
            final(self)@ == old(self)@.located(old(self)@.probe.doh, old(self)@.probe.system_dns),
    {
        let address = match head(&self.probe.doh) {
            Some(a) => Some(a),
            None => head(&self.probe.system_dns),
        };
        self.stage = if address.is_some() {
            Stage::Connect
        } else {
            Stage::Done
        };
        self.probe.address = address;
    }

    fn cut(&mut self, outcome: Outcome)
        ensures
            final(self)@ == old(self)@.cut_short(outcome@),
    {
        self.probe.real_sni = Some(outcome.clone());
        self.probe.neutral_sni = Some(outcome);
        self.stage = Stage::Done;
    }

    /// Takes in the response to the question at hand.
    pub fn answer(&mut self, response: Response)
        requires
            old(self)@.well_formed(),
            old(self)@.fits(response@),
        ensures
            final(self)@ == old(self)@.after(response@),
            final(self)@.well_formed(),
            final(self)@.questions_left() < old(self)@.questions_left(),
    {
        match response {
            Response::Dns(answer) => {
                match self.stage {
                    Stage::Doh(i) => {
                        if answer.is_none() && i + 1 < DOH_COUNT {
                            self.stage = Stage::Doh(i + 1);
                        } else {
                            self.probe.doh = answer;
                            if self.has_server {
                                self.stage = Stage::System;
                            } else {
                                self.locate();
                            }
                        }
                    },
                    _ => {
                        self.probe.system_dns = answer;
                        self.locate();
                    },
                }
            },
            Response::Tcp(outcome) => {
                match outcome {
                    TcpOutcome::Open { rtt } => {
                        self.probe.baseline = Some(rtt);
                        self.stage = Stage::Own;
                    },
                    TcpOutcome::Refused { rtt } => {
                        self.cut(Outcome::Reset { after: rtt });
                    },
                    TcpOutcome::Timeout => {
                        if self.stage == Stage::Connect {
                            self.stage = Stage::Retry;
                        } else {
                            self.cut(Outcome::Timeout);
                        }
                    },
                    TcpOutcome::Unreachable { .. } => {
                        self.cut(Outcome::Timeout);
                    },
                }
            },
            Response::Tls(outcome) => {
                match self.stage {
                    Stage::Own => {
                        self.probe.real_sni = Some(outcome);
                        self.stage = Stage::Neutral;
                    },
                    Stage::Neutral => {
                        self.probe.neutral_sni = Some(outcome);
                        let broken = match &self.probe.real_sni {
                            Some(o) => o.is_broken(),
                            None => false,
                        };
                        let named = match self.kind {
                            Kind::Domain => true,
                            Kind::Address(_) => false,
                        };
                        self.stage = if broken && named {
                            Stage::Split
                        } else {
                            Stage::Done
                        };
                    },
                    _ => {
                        self.probe.split_sni = Some(outcome);
                        self.stage = Stage::Done;
                    },
                }
            },
        }
    }
}

/// Every inquiry ends: at most eight questions are asked about a target.
pub proof fn inquiry_ends(target: TargetView, has_server: bool, inquiry: InquiryView)
    requires
        inquiry.well_formed(),
    ensures
        opened(target, has_server).questions_left() <= 8,
        inquiry.questions_left() >= 0,
        inquiry.questions_left() == 0 <==> inquiry.stage == Stage::Done,
{
}

/// A single lost packet is never called blocking: an inquiry ends in silence
/// only after a connection was tried twice without an answer.
pub proof fn silence_is_asked_twice(inquiry: InquiryView)
    requires
        inquiry.stage == Stage::Connect,
    ensures
        inquiry.after(ResponseView::Tcp(TcpView::Timeout)).stage == Stage::Retry,
        inquiry.after(ResponseView::Tcp(TcpView::Timeout)).probe == inquiry.probe,
{
}

/// Where a connection was tried twice in vain, the target is judged to be
/// blocked by address, unless its DNS answer was forged.
pub proof fn swallowed_packets_mean_blocking(inquiry: InquiryView)
    requires
        inquiry.well_formed(),
        inquiry.stage == Stage::Retry,
        inquiry.probe.baseline is None,
        inquiry.probe.certificate is None,
        inquiry.probe.http_stub is None,
        !inquiry.probe.led_nowhere(),
        !inquiry.probe.denied(),
    ensures
        inquiry.after(ResponseView::Tcp(TcpView::Timeout)).probe.verdict(true)
            == super::censorship::Verdict::AddressBlocked,
{
}

/// A packet is sent in two parts only where the whole one did not pass.
pub proof fn split_only_after_a_break(inquiry: InquiryView, outcome: OutcomeView)
    requires
        inquiry.well_formed(),
        inquiry.stage == Stage::Neutral,
        !inquiry.probe.real_sni->0.broken(),
    ensures
        inquiry.after(ResponseView::Tls(outcome)).stage == Stage::Done,
{
}

/// Every answer lands in its own place of the probe, and nothing else of the
/// probe changes.
pub proof fn answers_land_where_they_belong(
    inquiry: InquiryView,
    dns: Option<AnswerView>,
    rtt: Duration,
    outcome: OutcomeView,
)
    requires
        inquiry.well_formed(),
    ensures
        ({
            let p = inquiry.probe;
            let named = inquiry.after(ResponseView::Dns(dns));
            let opened = inquiry.after(ResponseView::Tcp(TcpView::Open { rtt }));
            let shaken = inquiry.after(ResponseView::Tls(outcome));
            // The standard is the first answer of a server of DNS inside HTTPS.
            &&& inquiry.stage is Doh && dns is Some ==> named.probe.doh == dns
            &&& inquiry.stage is Doh && dns is None && inquiry.stage->0 == 0 ==> named.stage
                == Stage::Doh(1) && named.probe == p
            &&& inquiry.stage is System ==> named.probe.system_dns == dns && named.probe.doh
                == p.doh
            &&& inquiry.stage is Connect || inquiry.stage is Retry ==> opened.probe == (ProbeView {
                baseline: Some(rtt),
                ..p
            }) && opened.stage == Stage::Own
            &&& inquiry.stage is Own ==> shaken.probe == (ProbeView {
                real_sni: Some(outcome),
                ..p
            }) && shaken.stage == Stage::Neutral
            &&& inquiry.stage is Neutral ==> shaken.probe == (ProbeView {
                neutral_sni: Some(outcome),
                ..p
            })
            &&& inquiry.stage is Split ==> shaken.probe == (ProbeView {
                split_sni: Some(outcome),
                ..p
            }) && shaken.stage == Stage::Done
        }),
{
}

/// Each handshake is tried with the right name at the address that was found:
/// the own one first, then the neutral one at the same address, and the own one
/// in two parts only where a site's own name was reset, closed or left without
/// an answer.
pub proof fn handshakes_carry_the_right_name(inquiry: InquiryView, outcome: OutcomeView)
    requires
        inquiry.well_formed(),
    ensures
        inquiry.stage is Own ==> inquiry.question() == (QuestionView::Handshake {
            address: inquiry.probe.address->0,
            name: if inquiry.kind is Domain {
                inquiry.probe.domain
            } else {
                "example.org"@
            },
            delivery: Delivery::Whole,
        }),
        inquiry.stage is Neutral ==> inquiry.question() == (QuestionView::Handshake {
            address: inquiry.probe.address->0,
            name: "example.org"@,
            delivery: Delivery::Whole,
        }),
        inquiry.stage is Split ==> inquiry.question() == (QuestionView::Handshake {
            address: inquiry.probe.address->0,
            name: inquiry.probe.domain,
            delivery: Delivery::Split,
        }),
        inquiry.stage is Neutral ==> (inquiry.after(ResponseView::Tls(outcome)).stage
            == Stage::Split <==> inquiry.kind is Domain && (inquiry.probe.real_sni->0 is Reset
            || inquiry.probe.real_sni->0 is Closed || inquiry.probe.real_sni->0 is Timeout)),
        inquiry.stage is Neutral ==> inquiry.after(ResponseView::Tls(outcome)).stage
            == Stage::Split || inquiry.after(ResponseView::Tls(outcome)).stage == Stage::Done,
{
}

/// The address that is probed is the first of the standard's answer, or of the
/// system's where the standard has none. Without any there is nothing to probe.
pub proof fn the_standard_names_the_address(
    inquiry: InquiryView,
    doh: Option<AnswerView>,
    system: Option<AnswerView>,
)
    ensures
        ({
            let next = inquiry.located(doh, system);
            let one = doh is Some && doh->0.addresses.len() > 0;
            let other = system is Some && system->0.addresses.len() > 0;
            &&& next.probe.address == (if one {
                Some(doh->0.addresses[0])
            } else if other {
                Some(system->0.addresses[0])
            } else {
                None
            })
            &&& next.stage == (if one || other { Stage::Connect } else { Stage::Done })
            &&& next.probe.doh == doh
            &&& next.probe.system_dns == system
            &&& next.probe.domain == inquiry.probe.domain
        }),
{
}

/// A connection that is not made decides at once: a refusal counts as a reset of
/// both handshakes, and silence on the second try, or a network that cannot be
/// reached, as silence in both.
pub proof fn no_connection_no_handshake(inquiry: InquiryView, rtt: Duration, error: Seq<char>)
    requires
        inquiry.stage is Connect || inquiry.stage is Retry,
    ensures
        ({
            let refused = inquiry.after(ResponseView::Tcp(TcpView::Refused { rtt }));
            let lost = inquiry.after(ResponseView::Tcp(TcpView::Unreachable { error }));
            let silent = inquiry.after(ResponseView::Tcp(TcpView::Timeout));
            &&& refused.stage == Stage::Done
            &&& refused.probe.real_sni == Some(OutcomeView::Reset { after: rtt })
            &&& refused.probe.neutral_sni == Some(OutcomeView::Reset { after: rtt })
            &&& lost.stage == Stage::Done
            &&& lost.probe.real_sni == Some(OutcomeView::Timeout)
            &&& lost.probe.neutral_sni == Some(OutcomeView::Timeout)
            &&& inquiry.stage is Retry ==> silent.stage == Stage::Done && silent.probe.real_sni
                == Some(OutcomeView::Timeout) && silent.probe.neutral_sni == Some(
                OutcomeView::Timeout,
            )
            &&& refused.probe.baseline == inquiry.probe.baseline
            &&& silent.probe.baseline == inquiry.probe.baseline
        }),
{
}

/// Behind the standard the system's own server is asked, where there is one;
/// without it the inquiry goes straight to the address.
pub proof fn the_system_is_asked_where_it_can_be(
    inquiry: InquiryView,
    doh: Option<AnswerView>,
)
    ensures
        inquiry.with_standard(doh).probe.doh == doh,
        inquiry.has_server ==> inquiry.with_standard(doh).stage is System,
        !inquiry.has_server ==> inquiry.with_standard(doh).stage is Connect
            || inquiry.with_standard(doh).stage is Done,
        !inquiry.has_server ==> (inquiry.with_standard(doh).stage is Connect <==> (
        inquiry.with_standard(doh).probe.address is Some)),
{
}

/// A standard is asked for at the next server while one is silent and another is
/// left; the first answer is taken.
pub proof fn standards_are_asked_in_turn(inquiry: InquiryView, i: usize, answer: AnswerView)
    requires
        inquiry.stage == Stage::Doh(i),
    ensures
        inquiry.after(ResponseView::Dns(Some(answer))).probe.doh == Some(answer),
        inquiry.after(ResponseView::Dns(Some(answer))).stage !is Doh,
        i + 1 < DOH_COUNT ==> inquiry.after(ResponseView::Dns(None)).stage == Stage::Doh(
            (i + 1) as usize,
        ) && inquiry.after(ResponseView::Dns(None)).probe == inquiry.probe,
        i + 1 >= DOH_COUNT ==> inquiry.after(ResponseView::Dns(None)).stage !is Doh,
{
}

/// What is asked at each stage: a server of the standard by its number, the
/// system's server, a connection to the address, the second time with patience.
/// Nothing is asked at the end, and only there.
pub proof fn each_stage_asks_its_question(inquiry: InquiryView)
    ensures
        inquiry.stage matches Stage::Doh(i) ==> inquiry.question() == (QuestionView::Doh {
            server: i,
        }),
        inquiry.stage is System ==> inquiry.question() is SystemDns,
        inquiry.stage is Connect ==> inquiry.question() == (QuestionView::Connect {
            address: inquiry.probe.address->0,
            patient: false,
        }),
        inquiry.stage is Retry ==> inquiry.question() == (QuestionView::Connect {
            address: inquiry.probe.address->0,
            patient: true,
        }),
        inquiry.question() is Nothing <==> inquiry.stage is Done,
{
}

} // verus!
