//! The window's session: what runs, what is shown, what a command sets off.
//!
//! The window itself only draws. What it does in answer to an event, a click or
//! a command of the tray is decided here and handed back as a list of things to
//! carry out.

use vstd::prelude::*;
use vstd::string::StringExecFns;
use crate::bus::{event_views, EngineEvent, EventView};
use crate::model::{
    all_layers, blank_report, check_at, check_views, lemma_check_at, lemma_well_formed_shows,
    opt_text, CheckResult, CheckView, Diagnosis, DiagnosisView, Layer, NodeId, Report, ReportView,
    Status,
};
use crate::scan::{lemma_texts_empty, lemma_texts_push, texts};
use crate::settings::{Settings, SettingsView};
use crate::text::same;
use crate::tray::Command;
use super::settings_tab::Outcome;
use super::theme;

verus! {

/// The sections of the window.
#[derive(Debug, Clone, Copy, PartialEq, Eq, Structural)]
pub enum Tab {
    Overview,
    Layers,
    Targets,
    Monitor,
    Report,
    Settings,
    About,
}

impl Tab {
    pub open spec fn title_text(self) -> Seq<char> {
        match self {
            Tab::Overview => "Схема и вывод"@,
            Tab::Layers => "Уровни OSI"@,
            Tab::Targets => "Цели"@,
            Tab::Monitor => "Наблюдение"@,
            Tab::Report => "Отчёт"@,
            Tab::Settings => "Настройки"@,
            Tab::About => "О программе"@,
        }
    }

    pub fn title(self) -> (r: &'static str)
        ensures
            r@ == self.title_text(),
    {
        match self {
            Tab::Overview => "Схема и вывод",
            Tab::Layers => "Уровни OSI",
            Tab::Targets => "Цели",
            Tab::Monitor => "Наблюдение",
            Tab::Report => "Отчёт",
            Tab::Settings => "Настройки",
            Tab::About => "О программе",
        }
    }
}

/// What the window has to carry out.
#[derive(Debug, Clone, Copy, PartialEq, Eq, Structural)]
pub enum Effect {
    /// Begin a check of the current targets.
    Check,
    /// Bring the window back.
    Show,
    /// Hide the window instead of closing it.
    Hide,
    /// Close the window.
    Close,
    /// Begin to watch, at the interval of the settings.
    Watch,
    /// Stop watching.
    Unwatch,
    /// Switch starting with the system, and show what the system made of it.
    FlipAutostart,
    /// Save the settings.
    Save,
    /// Take the interval of the settings over for watching.
    Pace,
    /// Set the mark in the tray's menu by what the system says.
    MarkAutostart,
}

#[derive(Debug)]
pub struct App {
    pub report: Report,
    pub running: bool,
    pub total: usize,
    pub done: usize,
    pub progress_label: String,
    /// Changes the texts that are shown, but hides no check.
    pub expert: bool,
    pub tab: Tab,
    /// The node of the chart that was clicked: only its checks are listed.
    pub focus: Option<NodeId>,
    /// The window is hidden in the tray, not closed.
    pub hidden: bool,
    /// The user chose to quit: only then the window really closes.
    pub quitting: bool,
}

#[verifier::ext_equal]
pub struct AppView {
    pub report: ReportView,
    pub running: bool,
    pub total: usize,
    pub done: usize,
    pub progress_label: Seq<char>,
    pub expert: bool,
    pub tab: Tab,
    pub focus: Option<NodeId>,
    pub hidden: bool,
    pub quitting: bool,
}

impl View for App {
    type V = AppView;

    open spec fn view(&self) -> AppView {
        AppView {
            report: self.report@,
            running: self.running,
            total: self.total,
            done: self.done,
            progress_label: self.progress_label@,
            expert: self.expert,
            tab: self.tab,
            focus: self.focus,
            hidden: self.hidden,
            quitting: self.quitting,
        }
    }
}

/// What is said when the user stopped a check: what was found out so far is
/// shown, and that the picture is not complete.
pub open spec fn stopped_diagnosis() -> DiagnosisView {
    DiagnosisView {
        headline: "Проверка остановлена"@,
        simple: "Успевшие пройти проверки показаны ниже, остальные не выполнялись — картина неполная."@,
        expert: Seq::empty(),
        actions: seq!["Нажмите «Проверить», чтобы пройти всё заново."@],
        break_edge: None,
        status: Status::Skipped,
    }
}

fn stopped() -> (r: Diagnosis)
    ensures
        r@ == stopped_diagnosis(),
{
    let mut actions: Vec<String> = Vec::new();
    let step = "Нажмите «Проверить», чтобы пройти всё заново.".to_owned();
    proof {
        lemma_texts_empty(actions@);
        lemma_texts_push(actions@, step);
    }
    actions.push(step);
    let r = Diagnosis {
        headline: "Проверка остановлена".to_owned(),
        simple: "Успевшие пройти проверки показаны ниже, остальные не выполнялись — картина неполная.".to_owned(),
        expert: String::new(),
        actions,
        break_edge: None,
        status: Status::Skipped,
    };
    assert(r@.actions =~= stopped_diagnosis().actions);
    r
}

/// The picture after an event of the engine.
pub open spec fn shown_after(r: ReportView, e: EventView) -> ReportView {
    match e {
        EventView::Check(c) => r.applied(c),
        EventView::Node { id, subtitle, address } => r.captioned(id, subtitle, address),
        EventView::Finished(d) => ReportView { diagnosis: d, ..r },
        EventView::Cancelled => ReportView { diagnosis: stopped_diagnosis(), ..r },
        EventView::Started { .. } | EventView::Progress { .. } => r,
    }
}

/// Takes an event of the engine into the picture.
pub fn take_in(report: &mut Report, event: EngineEvent)
    requires
        old(report)@.well_formed(),
    ensures
        final(report)@ == shown_after(old(report)@, event@),
        final(report)@.well_formed(),
{
    let ghost was = report@;
    match event {
        EngineEvent::Check(result) => {
            proof {
                lemma_well_formed_shows(was, result.node);
            }
            report.apply(*result);
        },
        EngineEvent::Node { id, subtitle, address } => {
            proof {
                lemma_well_formed_shows(was, id);
            }
            report.caption(id, subtitle, address);
        },
        EngineEvent::Finished(diagnosis) => {
            report.diagnosis = *diagnosis;
        },
        EngineEvent::Cancelled => {
            report.diagnosis = stopped();
        },
        EngineEvent::Started { .. } | EngineEvent::Progress { .. } => {},
    }
}

/// The picture after events of the engine, oldest first.
pub open spec fn shown_after_all(r: ReportView, events: Seq<EventView>) -> ReportView
    decreases events.len(),
{
    if events.len() == 0 {
        r
    } else {
        shown_after(shown_after_all(r, events.drop_last()), events.last())
    }
}

/// The picture that all events of a run add up to.
pub fn gather(events: Vec<EngineEvent>) -> (r: Report)
    ensures
        r@ == shown_after_all(blank_report(), event_views(events@)),
        r@.well_formed(),
{
    let mut report = Report::new();
    let ghost all = event_views(events@);
    assert(all.take(0) =~= Seq::<EventView>::empty());
    for event in it: events
        invariant
            report@.well_formed(),
            it.seq() == events@,
            all == event_views(events@),
            report@ == shown_after_all(blank_report(), all.take(it.index() as int)),
    {
        proof {
            let i = it.index() as int;
            assert(all[i] == event@);
            assert(all.take(i + 1).drop_last() =~= all.take(i));
            assert(all.take(i + 1).last() == event@);
        }
        take_in(&mut report, event);
    }
    assert(all.take(all.len() as int) =~= all);
    report
}

impl AppView {
    /// Whether the chart is in order.
    pub open spec fn well_formed(self) -> bool {
        self.report.well_formed()
    }

    /// The session after a check was asked for. One that runs goes on.
    pub open spec fn started(self) -> AppView {
        if self.running {
            self
        } else {
            AppView {
                report: blank_report(),
                running: true,
                done: 0,
                total: 0,
                progress_label: "Запускаю проверку…"@,
                focus: None,
                ..self
            }
        }
    }

    /// The session after an event of the engine.
    pub open spec fn after(self, e: EventView) -> AppView {
        let report = shown_after(self.report, e);
        match e {
            EventView::Started { total } => AppView { report, total, ..self },
            EventView::Progress { done, label } => AppView {
                report,
                done,
                progress_label: label,
                ..self
            },
            EventView::Finished(_) | EventView::Cancelled => AppView {
                report,
                running: false,
                ..self
            },
            EventView::Check(_) | EventView::Node { .. } => AppView { report, ..self },
        }
    }

    /// The session after events of the engine, oldest first.
    pub open spec fn after_all(self, events: Seq<EventView>) -> AppView
        decreases events.len(),
    {
        if events.len() == 0 {
            self
        } else {
            self.after_all(events.drop_last()).after(events.last())
        }
    }
}

impl App {
    /// A session in which the first check has been asked for: the program was
    /// opened to learn how the connection is.
    pub fn new(hidden: bool) -> (r: Self)
        ensures
            r@ == (AppView {
                report: blank_report(),
                running: true,
                total: 0,
                done: 0,
                progress_label: "Запускаю проверку…"@,
                expert: false,
                tab: Tab::Overview,
                focus: None,
                hidden,
                quitting: false,
            }),
            r@.well_formed(),
    {
        App {
            report: Report::new(),
            running: true,
            total: 0,
            done: 0,
            progress_label: "Запускаю проверку…".to_owned(),
            expert: false,
            tab: Tab::Overview,
            focus: None,
            hidden,
            quitting: false,
        }
    }

    /// Begins a check; tells whether there is one to carry out.
    pub fn start(&mut self) -> (r: bool)
        ensures
            final(self)@ == old(self)@.started(),
            r == !old(self)@.running,
            old(self)@.well_formed() ==> final(self)@.well_formed(),
    {
        if self.running {
            return false;
        }
        self.report = Report::new();
        self.running = true;
        self.done = 0;
        self.total = 0;
        self.progress_label = "Запускаю проверку…".to_owned();
        self.focus = None;
        true
    }

    /// The user asked for the check to stop. It is over when the engine says so.
    pub fn stop(&mut self)
        ensures
            final(self)@ == (AppView { progress_label: "Останавливаю…"@, ..old(self)@ }),
    {
        self.progress_label = "Останавливаю…".to_owned();
    }

    fn take(&mut self, event: EngineEvent)
        requires
            old(self)@.well_formed(),
        ensures
            final(self)@ == old(self)@.after(event@),
            final(self)@.well_formed(),
    {
        match &event {
            EngineEvent::Started { total } => {
                self.total = *total;
            },
            EngineEvent::Progress { done, label } => {
                self.done = *done;
                self.progress_label = label.clone();
            },
            EngineEvent::Finished(_) | EngineEvent::Cancelled => {
                self.running = false;
            },
            EngineEvent::Check(_) | EngineEvent::Node { .. } => {},
        }
        take_in(&mut self.report, event);
    }

    /// Takes in what the engine has told since the last frame.
    pub fn drain_events(&mut self, events: Vec<EngineEvent>)
        requires
            old(self)@.well_formed(),
        ensures
            final(self)@ == old(self)@.after_all(event_views(events@)),
            final(self)@.well_formed(),
    {
        let ghost was = self@;
        let ghost all = event_views(events@);
        assert(all.take(0) =~= Seq::<EventView>::empty());
        for event in it: events
            invariant
                self@.well_formed(),
                it.seq() == events@,
                all == event_views(events@),
                self@ == was.after_all(all.take(it.index() as int)),
        {
            proof {
                let i = it.index() as int;
                assert(all[i] == event@);
                assert(all.take(i + 1).drop_last() =~= all.take(i));
                assert(all.take(i + 1).last() == event@);
            }
            self.take(event);
        }
        assert(all.take(all.len() as int) =~= all);
    }
}

// ---------------------------------------------------------------------------
// Commands
// ---------------------------------------------------------------------------

/// What a command does to the session and to watching, and what it sets off.
#[verifier::ext_equal]
pub struct Turn {
    pub app: AppView,
    pub watching: bool,
    pub effects: Seq<Effect>,
}

impl Turn {
    pub open spec fn with(self, e: Effect) -> Turn {
        Turn { effects: self.effects.push(e), ..self }
    }

    /// The window is brought back.
    pub open spec fn revealed(self) -> Turn {
        Turn { app: AppView { hidden: false, ..self.app }, ..self.with(Effect::Show) }
    }

    /// A check is begun, if none runs.
    pub open spec fn checked(self) -> Turn {
        let next = Turn { app: self.app.started(), ..self };
        if self.app.running {
            next
        } else {
            next.with(Effect::Check)
        }
    }

    /// Watching is switched.
    pub open spec fn toggled(self) -> Turn {
        let next = Turn { watching: !self.watching, ..self };
        if self.watching {
            next.with(Effect::Unwatch)
        } else {
            next.with(Effect::Watch)
        }
    }

    pub open spec fn commanded(self, c: Command) -> Turn {
        match c {
            Command::Open => self.revealed(),
            Command::CheckNow => self.revealed().checked(),
            Command::ToggleMonitor => self.toggled(),
            Command::ToggleAutostart => self.with(Effect::FlipAutostart),
            Command::Quit => {
                let next = Turn { app: AppView { quitting: true, ..self.app }, watching: false, ..self };
                next.with(Effect::Unwatch).with(Effect::Close)
            },
        }
    }

    pub open spec fn commanded_all(self, commands: Seq<Command>) -> Turn
        decreases commands.len(),
    {
        if commands.len() == 0 {
            self
        } else {
            self.commanded_all(commands.drop_last()).commanded(commands.last())
        }
    }
}

/// What switching the watching sets off.
pub fn toggle_monitor(watching: bool) -> (r: Effect)
    ensures
        r == (if watching {
            Effect::Unwatch
        } else {
            Effect::Watch
        }),
{
    if watching {
        Effect::Unwatch
    } else {
        Effect::Watch
    }
}

impl App {
    /// Carries out commands of the tray, in their order. Given is whether
    /// watching is on.
    pub fn handle_tray(&mut self, commands: &Vec<Command>, watching: bool) -> (r: Vec<Effect>)
        ensures
            ({
                let turn = (Turn {
                    app: old(self)@,
                    watching,
                    effects: Seq::empty(),
                }).commanded_all(commands@);
                final(self)@ == turn.app && r@ == turn.effects
            }),
            old(self)@.well_formed() ==> final(self)@.well_formed(),
    {
        let ghost first = Turn { app: self@, watching, effects: Seq::empty() };
        let mut on = watching;
        let mut effects: Vec<Effect> = Vec::new();
        let mut i: usize = 0;
        assert(commands@.take(0) =~= Seq::<Command>::empty());
        assert(effects@ =~= Seq::<Effect>::empty());
        while i < commands.len()
            invariant
                i <= commands@.len(),
                first.commanded_all(commands@.take(i as int)) == (Turn {
                    app: self@,
                    watching: on,
                    effects: effects@,
                }),
                old(self)@.well_formed() ==> self@.well_formed(),
            decreases commands@.len() - i,
        {
            assert(commands@.take(i + 1).drop_last() =~= commands@.take(i as int));
            assert(commands@.take(i + 1).last() == commands@[i as int]);
            let ghost turn = Turn { app: self@, watching: on, effects: effects@ };
            match commands[i] {
                Command::Open => {
                    self.hidden = false;
                    effects.push(Effect::Show);
                },
                Command::CheckNow => {
                    self.hidden = false;
                    effects.push(Effect::Show);
                    if self.start() {
                        effects.push(Effect::Check);
                    }
                },
                Command::ToggleMonitor => {
                    effects.push(toggle_monitor(on));
                    on = !on;
                },
                Command::ToggleAutostart => {
                    effects.push(Effect::FlipAutostart);
                },
                Command::Quit => {
                    self.quitting = true;
                    on = false;
                    effects.push(Effect::Unwatch);
                    effects.push(Effect::Close);
                },
            }
            assert(turn.commanded(commands@[i as int]) =~= (Turn {
                app: self@,
                watching: on,
                effects: effects@,
            }));
            i += 1;
        }
        assert(commands@.take(i as int) =~= commands@);
        effects
    }

    /// Answers the wish to close the window. Where there is a tray icon the
    /// window only hides, and watching goes on; otherwise, or where the user
    /// chose to quit, it closes.
    pub fn handle_close(&mut self, has_tray: bool) -> (r: Effect)
        ensures
            old(self)@.quitting || !has_tray ==> r == Effect::Unwatch && final(self)@ == old(
                self,
            )@,
            !old(self)@.quitting && has_tray ==> r == Effect::Hide && final(self)@ == (AppView {
                hidden: true,
                ..old(self)@
            }),
    {
        if self.quitting || !has_tray {
            return Effect::Unwatch;
        }
        self.hidden = true;
        Effect::Hide
    }

    /// A node of the chart was clicked: its checks are shown, or all of them at
    /// a second click.
    pub fn pick(&mut self, node: NodeId)
        ensures
            final(self)@ == (AppView {
                focus: if old(self)@.focus == Some(node) {
                    None
                } else {
                    Some(node)
                },
                tab: Tab::Layers,
                ..old(self)@
            }),
    {
        let again = match self.focus {
            Some(n) => n == node,
            None => false,
        };
        self.focus = if again {
            None
        } else {
            Some(node)
        };
        self.tab = Tab::Layers;
    }

    /// A new list of targets was applied: the chart comes to the front and a
    /// check begins.
    pub fn retarget(&mut self) -> (r: Vec<Effect>)
        ensures
            ({
                let turn = (Turn {
                    app: AppView { tab: Tab::Overview, ..old(self)@ },
                    watching: false,
                    effects: seq![Effect::Save],
                }).checked();
                final(self)@ == turn.app && r@ == turn.effects
            }),
            old(self)@.well_formed() ==> final(self)@.well_formed(),
    {
        self.tab = Tab::Overview;
        let mut effects: Vec<Effect> = Vec::new();
        effects.push(Effect::Save);
        if self.start() {
            effects.push(Effect::Check);
            assert(effects@ =~= seq![Effect::Save].push(Effect::Check));
        } else {
            assert(effects@ =~= seq![Effect::Save]);
        }
        effects
    }
}

/// What a change of the settings sets off.
pub fn after_settings(outcome: Outcome, has_tray: bool) -> (r: Vec<Effect>)
    ensures
        r@ == (if outcome.changed {
            seq![Effect::Pace, Effect::Save]
        } else {
            Seq::empty()
        }) + (if outcome.autostart_changed && has_tray {
            seq![Effect::MarkAutostart]
        } else {
            Seq::empty()
        }),
{
    let mut effects: Vec<Effect> = Vec::new();
    if outcome.changed {
        effects.push(Effect::Pace);
        effects.push(Effect::Save);
    }
    if outcome.autostart_changed && has_tray {
        effects.push(Effect::MarkAutostart);
    }
    assert(effects@ =~= (if outcome.changed {
        seq![Effect::Pace, Effect::Save]
    } else {
        Seq::empty()
    }) + (if outcome.autostart_changed && has_tray {
        seq![Effect::MarkAutostart]
    } else {
        Seq::empty()
    }));
    effects
}

/// Starting with the system was switched from the tray. The settings follow
/// only where the system agreed; tells whether they have to be saved.
pub fn switch_autostart(settings: &mut Settings, next: bool, agreed: bool) -> (r: bool)
    ensures
        r == agreed,
        final(settings)@ == (SettingsView {
            autostart: if agreed {
                next
            } else {
                old(settings)@.autostart
            },
            ..old(settings)@
        }),
{
    if agreed {
        settings.autostart = next;
    }
    agreed
}

/// Whether an argument is among those of the command line.
pub fn has_argument(args: &Vec<String>, name: &str) -> (r: bool)
    ensures
        r == texts(args@).contains(name@),
{
    let ghost all = texts(args@);
    let mut i: usize = 0;
    while i < args.len()
        invariant
            i <= args@.len(),
            all == texts(args@),
            forall|k: int| 0 <= k < i ==> all[k] != name@,
        decreases args@.len() - i,
    {
        assert(all[i as int] == args@[i as int]@);
        if same(args[i].as_str(), name) {
            return true;
        }
        i += 1;
    }
    false
}

/// Whether the report goes to the console instead of a window.
pub fn wants_report(args: &Vec<String>) -> (r: bool)
    ensures
        r == texts(args@).contains("--report"@),
{
    has_argument(args, "--report")
}

/// Whether the window starts hidden. It never does without a tray icon: there
/// would be no way to bring it back.
pub fn starts_hidden(has_tray: bool, start_minimized: bool, args: &Vec<String>) -> (r: bool)
    ensures
        r == (has_tray && (start_minimized || texts(args@).contains("--minimized"@))),
{
    has_tray && (start_minimized || has_argument(args, "--minimized"))
}

// ---------------------------------------------------------------------------
// What is shown
// ---------------------------------------------------------------------------

/// The explanation for the reader: the one for experts where it is asked for
/// and there is one.
pub open spec fn explained(simple: Seq<char>, expert: Seq<char>, wants_expert: bool) -> Seq<char> {
    if wants_expert && expert.len() > 0 {
        expert
    } else {
        simple
    }
}

fn is_blank(s: &str) -> (r: bool)
    ensures
        r == (s@.len() == 0),
{
    let r = same(s, "");
    proof {
        reveal_strlit("");
        if s@.len() == 0 {
            assert(s@ =~= ""@);
        }
    }
    r
}

fn explain(simple: &str, expert: &str, wants_expert: bool) -> (r: String)
    ensures
        r@ == explained(simple@, expert@, wants_expert),
{
    if wants_expert && !is_blank(expert) {
        expert.to_owned()
    } else {
        simple.to_owned()
    }
}

/// Lines with a dot in front of each.
pub open spec fn bulleted(lines: Seq<Seq<char>>) -> Seq<Seq<char>> {
    lines.map_values(|s: Seq<char>| "• "@ + s)
}

fn bullets(lines: &Vec<String>) -> (r: Vec<String>)
    ensures
        texts(r@) == bulleted(texts(lines@)),
{
    let mut out: Vec<String> = Vec::new();
    let mut i: usize = 0;
    while i < lines.len()
        invariant
            i <= lines@.len(),
            out@.len() == i,
            forall|k: int| 0 <= k < i ==> (#[trigger] out@[k])@ == "• "@ + lines@[k]@,
        decreases lines@.len() - i,
    {
        out.push(String::from_str("• ").concat(lines[i].as_str()));
        i += 1;
    }
    assert(texts(out@) =~= bulleted(texts(lines@)));
    out
}

/// The card with the conclusion.
#[derive(Debug)]
pub struct Card {
    pub colour: u32,
    pub headline: String,
    pub text: String,
    /// The plain explanation under the one for experts.
    pub small: Option<String>,
    pub actions: Vec<String>,
}

#[verifier::ext_equal]
pub struct CardView {
    pub colour: u32,
    pub headline: Seq<char>,
    pub text: Seq<char>,
    pub small: Option<Seq<char>>,
    pub actions: Seq<Seq<char>>,
}

impl View for Card {
    type V = CardView;

    open spec fn view(&self) -> CardView {
        CardView {
            colour: self.colour,
            headline: self.headline@,
            text: self.text@,
            small: opt_text(self.small),
            actions: texts(self.actions@),
        }
    }
}

pub open spec fn card_of(d: DiagnosisView, expert: bool) -> CardView {
    CardView {
        colour: theme::colour_of(d.status),
        headline: d.headline,
        text: explained(d.simple, d.expert, expert),
        small: if expert && d.simple.len() > 0 && d.expert.len() > 0 {
            Some(d.simple)
        } else {
            None
        },
        actions: bulleted(d.actions),
    }
}

pub fn verdict_card(d: &Diagnosis, expert: bool) -> (r: Card)
    ensures
        r@ == card_of(d@, expert),
{
    let small = if expert && !is_blank(d.simple.as_str()) && !is_blank(d.expert.as_str()) {
        Some(d.simple.clone())
    } else {
        None
    };
    Card {
        colour: theme::status_color(d.status),
        headline: d.headline.clone(),
        text: explain(d.simple.as_str(), d.expert.as_str(), expert),
        small,
        actions: bullets(&d.actions),
    }
}

/// The strip with what was found of tunnels and bypasses.
#[derive(Debug)]
pub struct Banner {
    pub colour: u32,
    pub mark: String,
    pub text: String,
    pub lines: Vec<String>,
}

#[verifier::ext_equal]
pub struct BannerView {
    pub colour: u32,
    pub mark: Seq<char>,
    pub text: Seq<char>,
    pub lines: Seq<Seq<char>>,
}

impl View for Banner {
    type V = BannerView;

    open spec fn view(&self) -> BannerView {
        BannerView {
            colour: self.colour,
            mark: self.mark@,
            text: self.text@,
            lines: texts(self.lines@),
        }
    }
}

pub open spec fn banner_of(checks: Seq<CheckView>) -> Option<BannerView> {
    let i = check_at(checks, "l2.bypass"@);
    if i < checks.len() {
        Some(
            BannerView {
                colour: theme::colour_of(checks[i].status),
                mark: "["@ + checks[i].status.glyph_text() + "]"@,
                text: checks[i].simple,
                lines: bulleted(checks[i].evidence),
            },
        )
    } else {
        None
    }
}

/// The strip over the chart. It stands there and not among the checks because
/// it changes what all the rest means: with the traffic in a tunnel the chart
/// shows the tunnel.
pub fn bypass_banner(report: &Report) -> (r: Option<Banner>)
    ensures
        match r {
            Some(b) => banner_of(report@.checks) == Some(b@),
            None => banner_of(report@.checks) is None,
        },
{
    let ghost checks = report@.checks;
    let mut i: usize = 0;
    while i < report.checks.len() && !same(report.checks[i].id.as_str(), "l2.bypass")
        invariant
            i <= report.checks@.len(),
            checks == check_views(report.checks@),
            forall|j: int| 0 <= j < i ==> (#[trigger] checks[j]).id != "l2.bypass"@,
        decreases report.checks@.len() - i,
    {
        assert(checks[i as int] == report.checks@[i as int]@);
        i += 1;
    }
    proof {
        if i < report.checks@.len() {
            assert(checks[i as int] == report.checks@[i as int]@);
        }
        lemma_check_at(checks, "l2.bypass"@, i as int);
    }
    if i < report.checks.len() {
        let check = &report.checks[i];
        Some(
            Banner {
                colour: theme::status_color(check.status),
                mark: String::from_str("[").concat(check.status.glyph()).concat("]"),
                text: check.simple.clone(),
                lines: bullets(&check.evidence),
            },
        )
    } else {
        None
    }
}

/// A check in the list of the layers.
#[derive(Debug)]
pub struct Line {
    pub id: String,
    pub head: String,
    pub colour: u32,
    pub text: String,
    pub evidence: Vec<String>,
}

#[verifier::ext_equal]
pub struct LineView {
    pub id: Seq<char>,
    pub head: Seq<char>,
    pub colour: u32,
    pub text: Seq<char>,
    pub evidence: Seq<Seq<char>>,
}

impl View for Line {
    type V = LineView;

    open spec fn view(&self) -> LineView {
        LineView {
            id: self.id@,
            head: self.head@,
            colour: self.colour,
            text: self.text@,
            evidence: texts(self.evidence@),
        }
    }
}

pub open spec fn line_views(lines: Seq<Line>) -> Seq<LineView> {
    lines.map_values(|l: Line| l@)
}

/// A check as it is listed. Raw data is shown to experts only.
pub open spec fn line_of(c: CheckView, expert: bool) -> LineView {
    LineView {
        id: c.id,
        head: "["@ + c.status.glyph_text() + "] "@ + c.title,
        colour: theme::colour_of(c.status),
        text: explained(c.simple, c.expert, expert),
        evidence: if expert {
            c.evidence
        } else {
            Seq::empty()
        },
    }
}

fn copy_lines(lines: &Vec<String>) -> (r: Vec<String>)
    ensures
        texts(r@) == texts(lines@),
{
    let mut out: Vec<String> = Vec::new();
    let mut i: usize = 0;
    while i < lines.len()
        invariant
            i <= lines@.len(),
            out@.len() == i,
            forall|k: int| 0 <= k < i ==> (#[trigger] out@[k])@ == lines@[k]@,
        decreases lines@.len() - i,
    {
        out.push(lines[i].clone());
        i += 1;
    }
    assert(texts(out@) =~= texts(lines@));
    out
}

fn line(c: &CheckResult, expert: bool) -> (r: Line)
    ensures
        r@ == line_of(c@, expert),
{
    let evidence = if expert {
        copy_lines(&c.evidence)
    } else {
        Vec::new()
    };
    proof {
        if !expert {
            lemma_texts_empty(evidence@);
        }
    }
    Line {
        id: c.id.clone(),
        head: String::from_str("[").concat(c.status.glyph()).concat("] ").concat(c.title.as_str()),
        colour: theme::status_color(c.status),
        text: explain(c.simple.as_str(), c.expert.as_str(), expert),
        evidence,
    }
}

/// The checks of a layer, or those of them that belong to the node in focus.
pub open spec fn listed(c: CheckView, layer: Layer, focus: Option<NodeId>) -> bool {
    c.layer == layer && (focus matches Some(n) ==> c.node == n)
}

/// The checks that are listed under a layer.
pub open spec fn listing(
    checks: Seq<CheckView>,
    layer: Layer,
    focus: Option<NodeId>,
) -> Seq<CheckView> {
    checks.filter(|c: CheckView| listed(c, layer, focus))
}

/// The worst status of checks; none is waiting.
pub open spec fn worst(checks: Seq<CheckView>) -> Status
    decreases checks.len(),
{
    if checks.len() == 0 {
        Status::Pending
    } else {
        worst(checks.drop_last()).worse_of(checks.last().status)
    }
}

/// A layer with its checks.
#[derive(Debug)]
pub struct Section {
    pub heading: String,
    pub colour: u32,
    pub lines: Vec<Line>,
}

#[verifier::ext_equal]
pub struct SectionView {
    pub heading: Seq<char>,
    pub colour: u32,
    pub lines: Seq<LineView>,
}

impl View for Section {
    type V = SectionView;

    open spec fn view(&self) -> SectionView {
        SectionView {
            heading: self.heading@,
            colour: self.colour,
            lines: line_views(self.lines@),
        }
    }
}

pub open spec fn section_views(sections: Seq<Section>) -> Seq<SectionView> {
    sections.map_values(|s: Section| s@)
}

pub open spec fn section_of(
    checks: Seq<CheckView>,
    layer: Layer,
    focus: Option<NodeId>,
    expert: bool,
) -> SectionView {
    let own = listing(checks, layer, focus);
    SectionView {
        heading: layer.code_text() + " · "@ + layer.title_text() + " — "@ + layer.plain_text(),
        colour: theme::colour_of(worst(own)),
        lines: own.map_values(|c: CheckView| line_of(c, expert)),
    }
}

/// The layers that have something to show, from the first to the last.
pub open spec fn sections_of(
    layers: Seq<Layer>,
    checks: Seq<CheckView>,
    focus: Option<NodeId>,
    expert: bool,
) -> Seq<SectionView>
    decreases layers.len(),
{
    if layers.len() == 0 {
        Seq::empty()
    } else {
        let before = sections_of(layers.drop_last(), checks, focus, expert);
        if listing(checks, layers.last(), focus).len() == 0 {
            before
        } else {
            before.push(section_of(checks, layers.last(), focus, expert))
        }
    }
}

fn section(report: &Report, layer: Layer, focus: Option<NodeId>, expert: bool) -> (r: Section)
    ensures
        r@ == section_of(report@.checks, layer, focus, expert),
        (r.lines@.len() == 0) == (listing(report@.checks, layer, focus).len() == 0),
{
    let ghost keep = |c: CheckView| listed(c, layer, focus);
    let ghost all = report@.checks;
    let mut lines: Vec<Line> = Vec::new();
    let mut rolled = Status::Pending;
    let mut i: usize = 0;
    proof {
        reveal(Seq::filter);
        assert(all.take(0) =~= Seq::<CheckView>::empty());
        assert(line_views(lines@) =~= all.take(0).filter(keep).map_values(
            |c: CheckView| line_of(c, expert),
        ));
    }
    while i < report.checks.len()
        invariant
            i <= report.checks@.len(),
            all == check_views(report.checks@),
            keep == (|c: CheckView| listed(c, layer, focus)),
            line_views(lines@) == all.take(i as int).filter(keep).map_values(
                |c: CheckView| line_of(c, expert),
            ),
            rolled == worst(all.take(i as int).filter(keep)),
        decreases report.checks@.len() - i,
    {
        proof {
            reveal(Seq::filter);
            assert(all.take(i + 1).drop_last() =~= all.take(i as int));
            assert(all.take(i + 1).last() == report.checks@[i as int]@);
        }
        let check = &report.checks[i];
        let in_focus = match focus {
            Some(n) => check.node == n,
            None => true,
        };
        if check.layer == layer && in_focus {
            let ghost was = lines@;
            let ghost own = all.take(i as int).filter(keep);
            lines.push(line(check, expert));
            rolled = rolled.worse(check.status);
            proof {
                let now = own.push(check@);
                assert(now.drop_last() =~= own);
                assert(line_views(lines@) =~= line_views(was).push(line_of(check@, expert)));
                assert(now.map_values(|c: CheckView| line_of(c, expert)) =~= own.map_values(
                    |c: CheckView| line_of(c, expert),
                ).push(line_of(check@, expert)));
            }
        }
        i += 1;
    }
    proof {
        assert(all.take(i as int) =~= all);
        assert(line_views(lines@).len() == lines@.len());
    }
    Section {
        heading: layer.code().to_owned().concat(" · ").concat(layer.title()).concat(" — ").concat(
            layer.plain(),
        ),
        colour: theme::status_color(rolled),
        lines,
    }
}

/// The checks by layers, all of them or those of the node in focus.
pub fn layers(report: &Report, focus: Option<NodeId>, expert: bool) -> (r: Vec<Section>)
    ensures
        section_views(r@) == sections_of(all_layers(), report@.checks, focus, expert),
{
    let order = Layer::all();
    let ghost all = all_layers();
    let mut out: Vec<Section> = Vec::new();
    let mut i: usize = 0;
    proof {
        assert(all.take(0) =~= Seq::<Layer>::empty());
        assert(section_views(out@) =~= Seq::<SectionView>::empty());
    }
    while i < 7
        invariant
            i <= 7,
            order@ == all,
            all == all_layers(),
            all.len() == 7,
            section_views(out@) == sections_of(
                all.take(i as int),
                report@.checks,
                focus,
                expert,
            ),
        decreases 7 - i,
    {
        assert(all.take(i + 1).drop_last() =~= all.take(i as int));
        assert(all.take(i + 1).last() == order@[i as int]);
        let s = section(report, order[i], focus, expert);
        if s.lines.len() > 0 {
            let ghost was = out@;
            out.push(s);
            assert(section_views(out@) =~= section_views(was).push(s@));
        }
        i += 1;
    }
    assert(all.take(7) =~= all);
    out
}

/// The line over the list while a node is in focus.
pub fn focus_note(node: NodeId) -> (r: String)
    ensures
        r@ == "Показаны проверки узла «"@ + node.title_text() + "»"@,
{
    String::from_str("Показаны проверки узла «").concat(node.title()).concat("»")
}

/// What is said of the rights of the program.
pub fn rights_note(elevated: bool) -> (r: &'static str)
    ensures
        r@ == (if elevated {
            "Программа запущена с правами администратора."@
        } else {
            "Программа запущена без прав администратора."@
        }),
{
    if elevated {
        "Программа запущена с правами администратора."
    } else {
        "Программа запущена без прав администратора."
    }
}

/// What is said of closing the window.
pub fn closing_note(has_tray: bool) -> (r: &'static str)
    ensures
        r@ == (if has_tray {
            "Закрытие окна прячет программу в значок рядом с часами — наблюдение при этом продолжает работать. Выйти совсем можно через меню значка."@
        } else {
            "Значок в трее в этой системе недоступен, поэтому закрытие окна завершает программу."@
        }),
{
    if has_tray {
        "Закрытие окна прячет программу в значок рядом с часами — наблюдение при этом продолжает работать. Выйти совсем можно через меню значка."
    } else {
        "Значок в трее в этой системе недоступен, поэтому закрытие окна завершает программу."
    }
}

// ---------------------------------------------------------------------------
// Laws
// ---------------------------------------------------------------------------

/// Whether an event ends a run.
pub open spec fn ends(e: EventView) -> bool {
    e is Finished || e is Cancelled
}

/// A run ends exactly when the engine says so, finished or stopped: nothing else
/// makes the window leave the state in which a check runs.
pub proof fn a_run_ends_when_told(app: AppView, events: Seq<EventView>)
    requires
        app.running,
    ensures
        app.after_all(events).running == !(exists|i: int|
            0 <= i < events.len() && ends(#[trigger] events[i])),
    decreases events.len(),
{
    if events.len() > 0 {
        let q = events.drop_last();
        a_run_ends_when_told(app, q);
        if ends(events.last()) {
            assert(ends(events[events.len() - 1]));
        }
        if !app.after_all(q).running {
            let i = choose|i: int| 0 <= i < q.len() && ends(#[trigger] q[i]);
            assert(ends(events[i]));
        } else {
            assert forall|i: int| 0 <= i < events.len() - 1 implies !ends(#[trigger] events[i]) by {
                assert(q[i] == events[i]);
            }
        }
        lemma_stays_ended(app.after_all(q), events.last());
    }
}

proof fn lemma_stays_ended(app: AppView, e: EventView)
    ensures
        app.after(e).running == (app.running && !ends(e)),
{
}

/// The window shows what the console prints: the picture that events add up to
/// is the same in both.
pub proof fn the_window_shows_what_is_printed(app: AppView, events: Seq<EventView>)
    ensures
        app.after_all(events).report == shown_after_all(app.report, events),
    decreases events.len(),
{
    if events.len() > 0 {
        the_window_shows_what_is_printed(app, events.drop_last());
    }
}

/// Once the user chose to quit, the window closes at the next wish to close it:
/// the choice is kept whatever other commands come.
pub proof fn quitting_is_kept(turn: Turn, commands: Seq<Command>)
    ensures
        turn.commanded_all(commands).app.quitting == (turn.app.quitting || commands.contains(
            Command::Quit,
        )),
    decreases commands.len(),
{
    if commands.len() > 0 {
        let q = commands.drop_last();
        quitting_is_kept(turn, q);
        if commands.last() == Command::Quit {
            assert(commands[commands.len() - 1] == Command::Quit);
        }
        if q.contains(Command::Quit) {
            let i = choose|i: int| 0 <= i < q.len() && q[i] == Command::Quit;
            assert(commands[i] == Command::Quit);
        }
        if commands.contains(Command::Quit) && commands.last() != Command::Quit {
            let i = choose|i: int| 0 <= i < commands.len() && commands[i] == Command::Quit;
            assert(q[i] == Command::Quit);
        }
    }
}

/// Without a focus every check is listed, under its own layer.
pub proof fn every_check_is_listed(checks: Seq<CheckView>, i: int, expert: bool)
    requires
        0 <= i < checks.len(),
    ensures
        sections_of(all_layers(), checks, None, expert).contains(
            section_of(checks, checks[i].layer, None, expert),
        ),
        section_of(checks, checks[i].layer, None, expert).lines.contains(
            line_of(checks[i], expert),
        ),
{
    let layer = checks[i].layer;
    let keep = |c: CheckView| listed(c, layer, None);
    assert(keep(checks[i]));
    checks.lemma_filter_contains(keep, i);
    let own = listing(checks, layer, None);
    assert(own.contains(checks[i]));
    let k = choose|k: int| 0 <= k < own.len() && own[k] == checks[i];
    assert(section_of(checks, layer, None, expert).lines[k] == line_of(checks[i], expert));
    let at: int = match layer {
        Layer::L1Physical => 0,
        Layer::L2Link => 1,
        Layer::L3Network => 2,
        Layer::L4Transport => 3,
        Layer::L5Session => 4,
        Layer::L6Presentation => 5,
        Layer::L7Application => 6,
    };
    assert(all_layers()[at] == layer);
    lemma_section_is_there(all_layers(), at, checks, None, expert);
}

proof fn lemma_section_is_there(
    layers: Seq<Layer>,
    at: int,
    checks: Seq<CheckView>,
    focus: Option<NodeId>,
    expert: bool,
)
    requires
        0 <= at < layers.len(),
        listing(checks, layers[at], focus).len() > 0,
    ensures
        sections_of(layers, checks, focus, expert).contains(
            section_of(checks, layers[at], focus, expert),
        ),
    decreases layers.len(),
{
    let all = sections_of(layers, checks, focus, expert);
    let before = sections_of(layers.drop_last(), checks, focus, expert);
    let wanted = section_of(checks, layers[at], focus, expert);
    if at == layers.len() - 1 {
        assert(all[all.len() - 1] == wanted);
    } else {
        lemma_section_is_there(layers.drop_last(), at, checks, focus, expert);
        let k = choose|k: int| 0 <= k < before.len() && before[k] == wanted;
        assert(all[k] == wanted);
    }
}

/// Whether two sections list the same checks under the same heading.
pub open spec fn lists_the_same(a: SectionView, b: SectionView) -> bool {
    &&& a.heading == b.heading
    &&& a.colour == b.colour
    &&& a.lines.len() == b.lines.len()
    &&& forall|i: int|
        0 <= i < a.lines.len() ==> (#[trigger] a.lines[i]).id == b.lines[i].id && a.lines[i].head
            == b.lines[i].head && a.lines[i].colour == b.lines[i].colour
}

/// The mode for experts changes texts but hides no check: both modes list the
/// same checks in the same order.
pub proof fn expert_mode_hides_no_check(
    layers: Seq<Layer>,
    checks: Seq<CheckView>,
    focus: Option<NodeId>,
)
    ensures
        sections_of(layers, checks, focus, true).len() == sections_of(
            layers,
            checks,
            focus,
            false,
        ).len(),
        forall|i: int|
            0 <= i < sections_of(layers, checks, focus, true).len() ==> lists_the_same(
                #[trigger] sections_of(layers, checks, focus, true)[i],
                sections_of(layers, checks, focus, false)[i],
            ),
    decreases layers.len(),
{
    if layers.len() > 0 {
        expert_mode_hides_no_check(layers.drop_last(), checks, focus);
    }
}

/// Every event changes what it names and leaves the rest of the window as it
/// was: the plan, the progress, the end of the run. No event touches the tab,
/// the focus, the mode for experts or whether the window is shown.
pub proof fn an_event_changes_what_it_names(app: AppView, e: EventView)
    ensures
        ({
            let next = app.after(e);
            &&& next.tab == app.tab && next.focus == app.focus && next.expert == app.expert
                && next.hidden == app.hidden && next.quitting == app.quitting
            &&& e matches EventView::Started { total } ==> next == (AppView { total, ..app })
            &&& e matches EventView::Progress { done, label } ==> next == (AppView {
                done,
                progress_label: label,
                ..app
            })
            &&& e matches EventView::Finished(d) ==> next == (AppView {
                running: false,
                report: ReportView { diagnosis: d, ..app.report },
                ..app
            })
            &&& e is Cancelled ==> !next.running && next.report.checks == app.report.checks
                && next.report.nodes == app.report.nodes && next.report.diagnosis.status is Skipped
                && next.report.diagnosis.break_edge is None
            &&& e is Check || e is Node ==> next.running == app.running && next.done == app.done
                && next.total == app.total && next.report.diagnosis == app.report.diagnosis
        }),
{
}

/// A new run clears the last one; while one runs, nothing is started.
pub proof fn a_new_run_clears_the_last(app: AppView)
    ensures
        app.running ==> app.started() == app,
        !app.running ==> {
            let next = app.started();
            &&& next.running && next.done == 0 && next.total == 0 && next.focus is None
            &&& next.report.checks.len() == 0
            &&& next.tab == app.tab && next.expert == app.expert && next.hidden == app.hidden
                && next.quitting == app.quitting
        },
{
}

/// What the commands of the tray do. Opening brings the window back; checking
/// does that too and starts a run where none runs; the switch of watching turns
/// it over; quitting stops watching and closes the window.
pub proof fn commands_do_what_they_say(turn: Turn, c: Command)
    ensures
        ({
            let next = turn.commanded(c);
            &&& c is Open ==> next.effects == turn.effects.push(Effect::Show) && !next.app.hidden
                && next.watching == turn.watching && next.app.running == turn.app.running
            &&& c is CheckNow ==> !next.app.hidden && next.app.running && next.watching
                == turn.watching
            &&& c is CheckNow && !turn.app.running ==> next.effects == turn.effects.push(
                Effect::Show,
            ).push(Effect::Check)
            &&& c is CheckNow && turn.app.running ==> next.effects == turn.effects.push(
                Effect::Show,
            ) && next.app.report == turn.app.report
            &&& c is ToggleMonitor ==> next.watching != turn.watching && next.app == turn.app
                && next.effects == turn.effects.push(
                if turn.watching {
                    Effect::Unwatch
                } else {
                    Effect::Watch
                },
            )
            &&& c is ToggleAutostart ==> next == (Turn {
                effects: turn.effects.push(Effect::FlipAutostart),
                ..turn
            })
            &&& c is Quit ==> next.app.quitting && !next.watching && next.effects
                == turn.effects.push(Effect::Unwatch).push(Effect::Close)
        }),
{
}

/// The banner is that of the first check on tools, and there is one exactly
/// where there is such a check.
pub proof fn the_banner_is_about_tools(checks: Seq<CheckView>, i: int)
    requires
        0 <= i <= checks.len(),
        forall|j: int| 0 <= j < i ==> (#[trigger] checks[j]).id != "l2.bypass"@,
        i < checks.len() ==> checks[i].id == "l2.bypass"@,
    ensures
        i == checks.len() ==> banner_of(checks) is None,
        i < checks.len() ==> banner_of(checks) is Some && (banner_of(checks)->0).text
            == checks[i].simple && (banner_of(checks)->0).lines.len() == checks[i].evidence.len() && (
        banner_of(checks)->0).colour == theme::colour_of(checks[i].status),
{
    lemma_check_at(checks, "l2.bypass"@, i);
}

/// A section is as bad as the worst of its checks: it fails where one fails, and
/// where none does it has a warning where one has.
pub proof fn a_section_is_as_bad_as_its_checks(checks: Seq<CheckView>)
    ensures
        worst(checks) is Fail <==> exists|i: int|
            0 <= i < checks.len() && (#[trigger] checks[i]).status is Fail,
        worst(checks) is Warn <==> (forall|i: int|
            0 <= i < checks.len() ==> (#[trigger] checks[i]).status !is Fail) && exists|i: int|
            0 <= i < checks.len() && (#[trigger] checks[i]).status is Warn,
        worst(checks) is Good ==> forall|i: int|
            0 <= i < checks.len() ==> (#[trigger] checks[i]).status !is Fail
                && checks[i].status !is Warn,
        worst(checks) !is Pending ==> exists|i: int|
            0 <= i < checks.len() && (#[trigger] checks[i]).status == worst(checks),
    decreases checks.len(),
{
    if checks.len() > 0 {
        let before = checks.drop_last();
        let n = checks.len() - 1;
        a_section_is_as_bad_as_its_checks(before);
        assert(forall|i: int| 0 <= i < n ==> #[trigger] checks[i] == before[i]);
        assert(forall|i: int| 0 <= i < n ==> #[trigger] before[i] == checks[i]);
        assert(checks[n] == checks.last());
        if worst(before) !is Pending {
            let k = choose|k: int|
                0 <= k < before.len() && (#[trigger] before[k]).status == worst(before);
            assert(checks[k] == before[k]);
        }
    }
}

/// A line tells what its check says: in the plain words for everyone, in the
/// words for experts where they are asked for and there are any. Evidence is
/// shown to experts alone.
pub proof fn experts_see_the_evidence(c: CheckView, expert: bool)
    ensures
        !expert ==> line_of(c, expert).text == c.simple && line_of(c, expert).evidence.len() == 0,
        expert && c.expert.len() > 0 ==> line_of(c, expert).text == c.expert,
        expert && c.expert.len() == 0 ==> line_of(c, expert).text == c.simple,
        expert ==> line_of(c, expert).evidence == c.evidence,
        line_of(c, expert).id == c.id,
{
}

/// A section lists the checks of its layer, in their order, and where a node is
/// in focus only that node's.
pub proof fn a_section_lists_its_layer(
    checks: Seq<CheckView>,
    layer: Layer,
    node: NodeId,
    expert: bool,
)
    ensures
        section_of(checks, layer, None, expert).lines == checks.filter(
            |c: CheckView| c.layer == layer,
        ).map_values(|c: CheckView| line_of(c, expert)),
        section_of(checks, layer, Some(node), expert).lines == checks.filter(
            |c: CheckView| c.layer == layer && c.node == node,
        ).map_values(|c: CheckView| line_of(c, expert)),
{
    assert((|c: CheckView| listed(c, layer, None)) =~= (|c: CheckView| c.layer == layer));
    assert((|c: CheckView| listed(c, layer, Some(node))) =~= (|c: CheckView|
        c.layer == layer && c.node == node));
}

} // verus!
