//! The course of a diagnosis: what is checked after what, and what each check
//! leaves for the verdict.
//!
//! Whoever performs the network calls takes the steps one by one and hands in
//! what they gave. Each step reports itself and announces the next.

use vstd::prelude::*;
use crate::bus::{EngineEvent, EventView, Reporter};
use crate::net::Ipv4Addr;
use crate::privileged::Capabilities;
use crate::scan::texts;
use super::bypass;
use super::censorship::Transit;
use super::checks::{
    anchor_views, anchors_check, anchors_node, bypass_check, check_anchors, check_bypass,
    check_router, first_answering, no_icmp_check, report_no_icmp, AnchorProbe, RouterProbe,
};
use super::l1_l2;
use super::l1_l2::{
    active_in, interface_views, link_events, link_of, vpn_in, Interface, InterfaceView, LinkInfo,
};
use super::names::{
    any_resolved, check_names, check_site, names_check, no_names_check, resolution_views,
    site_events, Resolution, SiteConnection,
};
use super::route::{check_route, no_route_check, report_no_route, route_events};
use super::survey::{filter_events, report_skipped, skipped_check, Survey};
use super::trace::{Trace, TraceView};
use super::verdict::{diagnosis, verdict, Observations, ObservationsView};

verus! {

/// How many steps there are.
pub const STEPS: usize = 7;

/// What is said of a step while it runs.
pub open spec fn step_label(step: usize) -> Seq<char> {
    match step {
        0 => "Проверяю сетевой адаптер и роутер…"@,
        1 => "Ищу VPN, прокси и средства обхода…"@,
        2 => "Проверяю отклик роутера…"@,
        3 => "Проверяю выход в интернет…"@,
        4 => "Строю маршрут до интернета…"@,
        5 => "Проверяю имена сайтов и соединение с ними…"@,
        6 => "Проверяю блокировки…"@,
        _ => "Готово"@,
    }
}

pub open spec fn announced(step: usize) -> EventView {
    EventView::Progress { done: step, label: step_label(step) }
}

fn announce(rep: &mut Reporter, step: usize)
    ensures
        final(rep)@ == old(rep)@.push(announced(step)),
{
    let label = match step {
        0 => "Проверяю сетевой адаптер и роутер…",
        1 => "Ищу VPN, прокси и средства обхода…",
        2 => "Проверяю отклик роутера…",
        3 => "Проверяю выход в интернет…",
        4 => "Строю маршрут до интернета…",
        5 => "Проверяю имена сайтов и соединение с ними…",
        6 => "Проверяю блокировки…",
        _ => "Готово",
    };
    rep.progress(step, label);
}

/// A diagnosis in progress.
#[derive(Debug)]
pub struct Run {
    pub caps: Capabilities,
    /// Whether echoes can be sent.
    pub can_ping: bool,
    pub link: LinkInfo,
    pub bypass: bypass::Report,
    pub router_alive: Option<bool>,
    /// The first anchor that answered.
    pub anchor: Option<Ipv4Addr>,
    pub route: Trace,
    pub dns_ok: bool,
    pub transit: Transit,
    /// The step at hand.
    pub step: usize,
}

/// What a diagnosis is based on, apart from the steps.
#[verifier::ext_equal]
pub struct RunView {
    pub link: l1_l2::LinkView,
    pub tools: Seq<bypass::FindingView>,
    pub router_alive: Option<bool>,
    pub anchor: Option<Ipv4Addr>,
    pub route: TraceView,
    pub dns_ok: bool,
    pub transit: Transit,
}

impl View for Run {
    type V = RunView;

    open spec fn view(&self) -> RunView {
        RunView {
            link: self.link@,
            tools: self.bypass@,
            router_alive: self.router_alive,
            anchor: self.anchor,
            route: self.route@,
            dns_ok: self.dns_ok,
            transit: self.transit,
        }
    }
}

impl RunView {
    pub open spec fn observations(self) -> ObservationsView {
        ObservationsView {
            connected: self.link.interface is Some,
            has_gateway: self.link.gateway is Some,
            tools: self.tools,
            router_alive: self.router_alive,
            anchors_ok: self.anchor is Some,
            route: self.route,
            dns_ok: self.dns_ok,
            transit: self.transit,
        }
    }
}

/// Signs of a filter before anything was surveyed.
pub open spec fn no_signs() -> Transit {
    Transit { name_filtered: 0, injected: 0, split_helps: 0, total: 0 }
}

/// A connection of which nothing is known.
pub open spec fn no_link() -> l1_l2::LinkView {
    l1_l2::LinkView {
        interface: None,
        gateway: None,
        dns_servers: Seq::empty(),
        through_vpn: false,
        interfaces: Seq::empty(),
        default_is_tunnel: false,
        local_v4: Seq::empty(),
    }
}

pub open spec fn no_trace() -> TraceView {
    TraceView { hops: Seq::empty(), reached: false, first_external: None }
}

pub open spec fn opt_interface(i: Option<Interface>) -> Option<InterfaceView> {
    match i {
        Some(i) => Some(i@),
        None => None,
    }
}

impl Run {
    /// Begins a diagnosis.
    pub fn start(rep: &mut Reporter, caps: Capabilities, can_ping: bool) -> (r: Self)
        ensures
            r.step == 0,
            r.caps == caps,
            r.can_ping == can_ping,
            r@ == (RunView {
                link: no_link(),
                tools: Seq::empty(),
                router_alive: None,
                anchor: None,
                route: no_trace(),
                dns_ok: false,
                transit: no_signs(),
            }),
            final(rep)@ == old(rep)@.push((EventView::Started { total: STEPS })).push(
                announced(0),
            ),
    {
        rep.send(EngineEvent::Started { total: STEPS });
        announce(rep, 0);
        let link = LinkInfo {
            interface: None,
            gateway: None,
            dns_servers: Vec::new(),
            through_vpn: false,
            interfaces: Vec::new(),
            default_is_tunnel: false,
            local_v4: Vec::new(),
        };
        assert(interface_views(link.interfaces@) =~= Seq::<InterfaceView>::empty());
        Run {
            caps,
            can_ping,
            link,
            bypass: bypass::Report::new(),
            router_alive: None,
            anchor: None,
            route: Trace::new(),
            dns_ok: false,
            transit: Transit { name_filtered: 0, injected: 0, split_helps: 0, total: 0 },
            step: 0,
        }
    }

    /// Takes in the system's interfaces.
    pub fn take_link(
        &mut self,
        rep: &mut Reporter,
        interfaces: Vec<Interface>,
        default: Option<Interface>,
    )
        requires
            old(self).step == 0,
        ensures
            ({
                let list = interface_views(interfaces@);
                let given = opt_interface(default);
                let tunnel = active_in(list, given) matches Some(i) && i.vpn_like();
                &&& final(rep)@ == old(rep)@ + link_events(list, given, vpn_in(list)).push(
                    announced(1),
                )
                &&& final(self)@ == (RunView {
                    link: link_of(list, given, vpn_in(list), tunnel),
                    ..old(self)@
                })
            }),
            final(self).step == 1,
            final(self).caps == old(self).caps,
            final(self).can_ping == old(self).can_ping,
    {
        let ghost was = rep@;
        let ghost list = interface_views(interfaces@);
        let ghost given = opt_interface(default);
        self.link = l1_l2::run(interfaces, default, rep);
        announce(rep, 1);
        self.step = 1;
        assert(rep@ =~= was + link_events(list, given, vpn_in(list)).push(announced(1)));
    }

    /// Takes in the names of running processes and the local ports that took a
    /// connection.
    pub fn take_tools(&mut self, rep: &mut Reporter, processes: &Vec<String>, open: &Vec<u16>)
        requires
            old(self).step == 1,
        ensures
            bypass::reduced(
                bypass::all_findings(
                    texts(processes@),
                    old(self)@.link.interfaces,
                    old(self)@.link.default_is_tunnel,
                    open@,
                ),
                final(self)@.tools,
            ),
            final(self)@ == (RunView { tools: final(self)@.tools, ..old(self)@ }),
            final(rep)@ == old(rep)@ + (if old(self).can_ping {
                seq![EventView::Check(bypass_check(final(self)@.tools)), announced(2)]
            } else {
                seq![
                    EventView::Check(bypass_check(final(self)@.tools)),
                    EventView::Check(no_icmp_check(old(self).caps.icmp)),
                    announced(2),
                ]
            }),
            final(self).step == 2,
            final(self).caps == old(self).caps,
            final(self).can_ping == old(self).can_ping,
    {
        let ghost was = rep@;
        self.bypass =
        bypass::detect(processes, &self.link.interfaces, self.link.default_is_tunnel, open);
        check_bypass(rep, &self.bypass);
        if !self.can_ping {
            report_no_icmp(rep, self.caps.icmp);
        }
        announce(rep, 2);
        self.step = 2;
        assert(rep@ =~= was + (if self.can_ping {
            seq![EventView::Check(bypass_check(self@.tools)), announced(2)]
        } else {
            seq![
                EventView::Check(bypass_check(self@.tools)),
                EventView::Check(no_icmp_check(self.caps.icmp)),
                announced(2),
            ]
        }));
    }

    /// Takes in the probes of the router.
    pub fn take_router(&mut self, rep: &mut Reporter, probe: &RouterProbe)
        requires
            old(self).step == 2,
            probe.complete(),
        ensures
            final(self)@ == (RunView { router_alive: probe.alive(), ..old(self)@ }),
            final(rep)@ == old(rep)@.push(EventView::Check(probe.check())).push(announced(3)),
            final(self).step == 3,
            final(self).caps == old(self).caps,
            final(self).can_ping == old(self).can_ping,
    {
        self.router_alive = check_router(rep, probe);
        announce(rep, 3);
        self.step = 3;
    }

    /// Takes in the probes of the anchors.
    pub fn take_anchors(&mut self, rep: &mut Reporter, probes: &Vec<AnchorProbe>)
        requires
            old(self).step == 3,
            probes@.len() == 3,
        ensures
            final(self)@ == (RunView {
                anchor: first_answering(anchor_views(probes@), 3),
                ..old(self)@
            }),
            final(rep)@ == old(rep)@.push(anchors_node(anchor_views(probes@))).push(
                EventView::Check(anchors_check(anchor_views(probes@), old(self).caps.icmp)),
            ).push(announced(4)),
            final(self).step == 4,
            final(self).caps == old(self).caps,
            final(self).can_ping == old(self).can_ping,
    {
        self.anchor = check_anchors(rep, probes, self.caps);
        announce(rep, 4);
        self.step = 4;
    }

    /// Takes in the route, where one could be traced.
    pub fn take_route(&mut self, rep: &mut Reporter, trace: Option<Trace>)
        requires
            old(self).step == 4,
        ensures
            match trace {
                Some(t) => final(rep)@ == old(rep)@ + route_events(t@).push(announced(5))
                    && final(self)@ == (RunView { route: t@, ..old(self)@ }),
                None => final(rep)@ == old(rep)@.push(EventView::Check(no_route_check())).push(
                    announced(5),
                ) && final(self)@ == (RunView { route: no_trace(), ..old(self)@ }),
            },
            final(self).step == 5,
            final(self).caps == old(self).caps,
            final(self).can_ping == old(self).can_ping,
    {
        let ghost was = rep@;
        match trace {
            Some(t) => {
                check_route(rep, &t);
                announce(rep, 5);
                assert(rep@ =~= was + route_events(t@).push(announced(5)));
                self.route = t;
            },
            None => {
                report_no_route(rep);
                announce(rep, 5);
                self.route = Trace::new();
            },
        }
        self.step = 5;
    }

    /// What is reported of names and of the first site.
    pub open spec fn name_events(
        self,
        names: Seq<Seq<char>>,
        results: Seq<Resolution>,
        connection: Option<SiteConnection>,
    ) -> Seq<EventView> {
        if names.len() == 0 {
            seq![EventView::Check(no_names_check(self.link.dns_servers@))]
        } else {
            seq![
                EventView::Check(
                    names_check(self.link.dns_servers@, names, resolution_views(results)),
                ),
            ] + site_events(names[0], connection)
        }
    }

    /// Takes in what the resolver said of some names and the connection to the
    /// first of them, and says whether blocking can be surveyed. Without a
    /// working internet the probes would show nothing.
    pub fn take_names(
        &mut self,
        rep: &mut Reporter,
        names: &Vec<String>,
        results: &Vec<Resolution>,
        connection: &Option<SiteConnection>,
    ) -> (r: bool)
        requires
            old(self).step == 5,
            names@.len() == results@.len(),
        ensures
            r == (any_resolved(resolution_views(results@)) && old(self).anchor is Some),
            final(self)@ == (RunView {
                dns_ok: any_resolved(resolution_views(results@)),
                ..old(self)@
            }),
            final(rep)@ == old(rep)@ + old(self).name_events(
                texts(names@),
                results@,
                *connection,
            ) + (if r {
                seq![announced(6)]
            } else {
                seq![announced(6), EventView::Check(skipped_check())]
            }),
            final(self).step == 6,
            final(self).caps == old(self).caps,
            final(self).can_ping == old(self).can_ping,
    {
        let ghost was = rep@;
        let ghost before = *self;
        self.dns_ok = check_names(rep, &self.link.dns_servers, names, results);
        if names.len() > 0 {
            assert(texts(names@)[0] == names@[0]@);
            check_site(rep, names[0].as_str(), connection);
        }
        assert(rep@ =~= was + before.name_events(texts(names@), results@, *connection));
        announce(rep, 6);
        self.step = 6;
        let go = self.dns_ok && self.anchor.is_some();
        if !go {
            report_skipped(rep);
        }
        assert(rep@ =~= was + before.name_events(texts(names@), results@, *connection) + (if go {
            seq![announced(6)]
        } else {
            seq![announced(6), EventView::Check(skipped_check())]
        }));
        go
    }

    /// Takes in a finished survey.
    pub fn take_survey(&mut self, rep: &mut Reporter, survey: &Survey)
        requires
            old(self).step == 6,
            survey.well_formed(),
        ensures
            final(self)@ == (RunView { transit: survey.signs(), ..old(self)@ }),
            final(rep)@ == old(rep)@ + filter_events(survey.signs(), old(self)@.tools),
            final(self).step == 6,
            final(self).caps == old(self).caps,
            final(self).can_ping == old(self).can_ping,
    {
        self.transit = survey.finish(rep, &self.bypass);
    }

    /// Ends the diagnosis with the verdict.
    pub fn finish(&self, rep: &mut Reporter)
        requires
            self.step == 6,
        ensures
            final(rep)@ == old(rep)@.push(announced(STEPS)).push(
                EventView::Finished(diagnosis(self@.observations())),
            ),
    {
        announce(rep, STEPS);
        let d = verdict(
            Observations {
                link: &self.link,
                bypass: &self.bypass,
                router_alive: self.router_alive,
                anchors_ok: self.anchor.is_some(),
                route: &self.route,
                dns_ok: self.dns_ok,
                transit: self.transit,
            },
        );
        rep.send(EngineEvent::Finished(Box::new(d)));
    }
}

/// A survey that did not take place leaves no trace in the conclusion. With names
/// that are not resolved or anchors that are silent the diagnosis is a failure.
pub proof fn no_survey_no_claim(run: RunView)
    requires
        !(run.dns_ok && run.anchor is Some),
    ensures
        diagnosis(run.observations()).status == crate::model::Status::Fail,
{
}

/// The verdict is drawn from what the run has taken in, each fact in its place.
pub proof fn the_verdict_rests_on_what_was_taken_in(run: RunView)
    ensures
        ({
            let o = run.observations();
            &&& o.connected == (run.link.interface is Some)
            &&& o.has_gateway == (run.link.gateway is Some)
            &&& o.tools == run.tools
            &&& o.router_alive == run.router_alive
            &&& o.anchors_ok == (run.anchor is Some)
            &&& o.route == run.route
            &&& o.dns_ok == run.dns_ok
            &&& o.transit == run.transit
        }),
{
}

/// Progress is told step by step, out of seven, and a run begins knowing
/// nothing.
pub proof fn progress_goes_up_to_seven(step: usize)
    ensures
        STEPS == 7,
        announced(step) matches EventView::Progress { done, .. } && done == step,
        no_signs() == (Transit { name_filtered: 0, injected: 0, split_helps: 0, total: 0 }),
        no_trace().hops.len() == 0 && !no_trace().reached,
        no_link().interface is None && no_link().gateway is None && !no_link().through_vpn
            && !no_link().default_is_tunnel,
{
}

/// The connection is told of the first name, right behind what the resolver said
/// of all of them. Without names only their lack is told.
pub proof fn the_first_name_is_connected_to(
    run: Run,
    names: Seq<Seq<char>>,
    results: Seq<Resolution>,
    connection: Option<SiteConnection>,
)
    ensures
        names.len() == 0 ==> run.name_events(names, results, connection) == seq![
            EventView::Check(no_names_check(run.link.dns_servers@)),
        ],
        names.len() > 0 ==> run.name_events(names, results, connection)[0] == EventView::Check(
            names_check(run.link.dns_servers@, names, resolution_views(results)),
        ) && run.name_events(names, results, connection).skip(1) == site_events(
            names.first(),
            connection,
        ),
{
    if names.len() > 0 {
        assert(run.name_events(names, results, connection).skip(1) =~= site_events(
            names.first(),
            connection,
        ));
    }
}

} // verus!
