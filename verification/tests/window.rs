//! What is drawn and said: the logo, the tabs, the tray, the session.

use netchecker::bus::EngineEvent;
use netchecker::engine::icmp::{Reply, ReplyKind};
use netchecker::engine::probe::TcpOutcome;
use netchecker::logo::{render, render_tinted};
use netchecker::model::{
    note, CheckResult, Diagnosis, Layer, NodeId, Report, Status,
};
use netchecker::monitor::{
    anchor, describe, evaluate, Health, Monitor, Outage, Sample, Snapshot, State,
};
use netchecker::net::Ipv4Addr;
use netchecker::privileged::{Capabilities, IcmpBackend};
use netchecker::report;
use netchecker::settings::{drop_mark, Settings, DEFAULT_INTERVAL};
use netchecker::targets::{classify, clean, defaults, Kind, TargetList, CONTROLS, DEFAULTS_LEN};
use netchecker::time::{Duration, SystemTime};
use netchecker::tray::{icon_or_reason, poll, redraw, tint, tooltip, Command, MenuIds};
use netchecker::ui::app::{
    after_settings, bypass_banner, closing_note, focus_note, gather, has_argument, layers,
    rights_note, starts_hidden, switch_autostart, toggle_monitor, verdict_card, wants_report,
    App, Effect, Tab,
};
use netchecker::ui::monitor_tab::{button, curve, health_color, journal, local_time, pace};
use netchecker::ui::report_tab::{pick_folder, SaveState};
use netchecker::ui::settings_tab::{change, kept_in, Outcome, Touched};
use netchecker::ui::targets_tab::{Action, Editor};
use netchecker::ui::topology::{edges, ellipsize, glyph, signs, Edge};
use netchecker::ui::{settings_tab, theme};

fn millis(n: u64) -> Duration {
    Duration::from_millis(n)
}

fn at(secs: i64) -> SystemTime {
    SystemTime::from_unix(secs, 0)
}

// ---------------------------------------------------------------------------
// The logo
// ---------------------------------------------------------------------------

#[test]
fn buffer_has_expected_shape() {
    let img = render(32);
    assert_eq!(img.width, 32);
    assert_eq!(img.pixels.len(), 32 * 32 * 4);
}

#[test]
fn background_fills_the_centre_and_leaves_corners_clear() {
    let img = render(64);
    let at = |x: u32, y: u32| img.pixels[((y * 64 + x) * 4 + 3) as usize];
    assert_eq!(at(32, 32), 255, "the middle of the logo must be opaque");
    assert_eq!(at(0, 0), 0, "a corner behind the rounding must be clear");
}

#[test]
fn tinted_variant_has_no_background() {
    let img = render_tinted(64, [255, 0, 0]);
    let alpha_at = |x: u32, y: u32| img.pixels[((y * 64 + x) * 4 + 3) as usize];
    // A point on the ground, but on no line and no node.
    assert_eq!(alpha_at(12, 56), 0);
}

#[test]
fn parts_of_the_logo_have_their_colours() {
    let img = render(256);
    let at = |x: usize, y: usize| {
        let i = (y * 256 + x) * 4;
        [img.pixels[i], img.pixels[i + 1], img.pixels[i + 2], img.pixels[i + 3]]
    };
    assert_eq!(at(40, 150), [0x58, 0xA6, 0xFF, 255], "a node");
    assert_eq!(at(190, 150), [0x3D, 0xDC, 0x97, 255], "the pulse");
    assert_eq!(at(172, 108), [0x2F, 0x5F, 0xB5, 255], "a link");
    assert_eq!(at(128, 230), [0x10, 0x1B, 0x33, 255], "the ground");
    assert_eq!(at(2, 128), [0, 0, 0, 0], "outside");
    assert_eq!(render(0).pixels.len(), 0);
}

#[test]
fn the_silhouette_has_one_shape() {
    let red = render_tinted(48, [255, 0, 0]);
    let blue = render_tinted(48, [0, 0, 9]);
    let full = render(48);
    for i in 0..48 * 48 {
        let a = i * 4 + 3;
        assert_eq!(red.pixels[a], blue.pixels[a]);
        assert!(red.pixels[a] <= full.pixels[a]);
    }
    assert!(red.pixels.chunks(4).any(|p| p == [255, 0, 0, 255]));
}

// ---------------------------------------------------------------------------
// Watching
// ---------------------------------------------------------------------------

#[test]
fn time_is_formatted_as_clock() {
    let at = SystemTime::from_unix(3661, 0);
    assert_eq!(local_time(at), "01:01:01 UTC");
}

#[test]
fn the_clock_starts_anew_every_day() {
    assert_eq!(local_time(at(86_400 + 59)), "00:00:59 UTC");
    assert_eq!(local_time(at(86_399)), "23:59:59 UTC");
    // Before 1970 there is no clock.
    assert_eq!(local_time(at(-5)), "00:00:00 UTC");
}

#[test]
fn stopped_monitoring_is_visually_neutral() {
    assert_eq!(health_color(Health::Good, false), theme::IDLE);
    assert_eq!(health_color(Health::Good, true), theme::OK);
}

#[test]
fn every_state_has_its_colour() {
    assert_eq!(health_color(Health::Degraded, true), theme::WARN);
    assert_eq!(health_color(Health::Down, true), theme::FAIL);
    assert_eq!(health_color(Health::Unknown, true), theme::BUSY);
    assert_eq!(theme::rgb(theme::OK), [0x3D, 0xDC, 0x97]);
    assert_eq!(theme::status_color(Status::Skipped), theme::IDLE);
    assert_eq!(theme::status_color(Status::Running), theme::BUSY);
    assert_eq!(theme::message_color(true), theme::FAIL);
    assert_eq!(button(true), "Выключить наблюдение");
    assert_eq!(pace(15), "опрос раз в 15 с");
}

fn snapshot(outages: Vec<Outage>) -> Snapshot {
    Snapshot { samples: vec![], outages, health: Health::Good, summary: String::new() }
}

#[test]
fn the_journal_begins_with_the_latest() {
    let outage = |started, ended: Option<i64>| Outage {
        started: at(started),
        ended: ended.map(at),
        reason: "нет ответа".to_string(),
    };
    let lines = journal(&snapshot(vec![outage(0, Some(0)), outage(60, Some(72)), outage(120, None)]));
    assert_eq!(
        lines,
        vec![
            "00:02:00 UTC — продолжается · нет ответа",
            "00:01:00 UTC — 12 с · нет ответа",
            "00:00:00 UTC — 1 с · нет ответа",
        ]
    );
    assert!(journal(&snapshot(vec![])).is_empty());
    assert_eq!(outage(60, Some(50)).duration(), None);
}

fn sample(rtt: Option<u64>) -> Sample {
    Sample { at: at(0), rtt: rtt.map(millis) }
}

#[test]
fn only_an_echo_makes_an_answered_sample() {
    let echo = |rtt| Reply { kind: ReplyKind::Echo, from: None, rtt, detail: None };
    assert_eq!(Sample::from_reply(at(7), &echo(Some(millis(12)))).rtt, Some(millis(12)));
    assert_eq!(Sample::from_reply(at(7), &echo(None)).rtt, Some(Duration::zero()));
    assert!(Sample::from_reply(at(7), &Reply::timeout()).lost());
    assert_eq!(Sample::from_reply(at(7), &Reply::timeout()).at, at(7));

    let open = TcpOutcome::Open { rtt: millis(3) };
    assert_eq!(Sample::from_connection(at(7), &open, millis(5)).rtt, Some(millis(5)));
    let refused = TcpOutcome::Refused { rtt: millis(3) };
    assert!(Sample::from_connection(at(7), &refused, millis(5)).lost());
}

#[test]
fn the_curve_breaks_at_losses() {
    let rtts = [Some(5), None, Some(1), Some(9), Some(2), None, None, Some(3), Some(4)];
    let samples: Vec<Sample> = rtts.iter().map(|r| sample(*r)).collect();
    let c = curve(&samples);
    assert_eq!(c.lines, vec![(2, 5), (7, 9)]);
    assert_eq!(c.losses, vec![1, 5, 6]);
    assert_eq!(c.top, millis(9));
    let empty = curve(&vec![]);
    assert!(empty.lines.is_empty() && empty.losses.is_empty());
    assert_eq!(empty.top, millis(1));
}

#[test]
fn an_assessment_needs_a_window() {
    let state = |rtts: &[Option<u64>]| {
        let mut s = State::default();
        for r in rtts {
            s.push(sample(*r));
        }
        s
    };
    assert_eq!(evaluate(&State::default().samples), Health::Unknown);
    assert_eq!(state(&[None]).health, Health::Down);
    assert_eq!(state(&[Some(1), None]).health, Health::Degraded);
    let s = state(&[Some(20), Some(20), Some(20), Some(20), None]);
    assert_eq!(s.health, Health::Good);
    assert_eq!(s.summary, "последний запрос без ответа, потерь 1 из 5");
    let s = state(&[Some(20), Some(20), Some(60)]);
    assert_eq!(s.health, Health::Good, "three times the usual delay is no spike");
    let s = state(&[Some(20), Some(20), Some(61)]);
    assert_eq!(s.health, Health::Degraded);
    assert_eq!(s.summary, "61 мс, потерь 0 из 3");
    let s = state(&[Some(20), None, None]);
    assert_eq!(s.summary, "связи нет, потерь 2 из 3");
    assert_eq!(describe(&State::default().samples, Health::Unknown), "наблюдение только началось");
}

#[test]
fn the_watcher_starts_once() {
    let caps = Capabilities { icmp: IcmpBackend::Fallback, elevated: false };
    let mut monitor = Monitor::new(caps, 0);
    assert!(!monitor.is_running());
    assert!(monitor.start());
    assert!(!monitor.start());
    assert!(monitor.is_running());
    assert_eq!(monitor.pauses(), 4);
    monitor.set_interval(15);
    assert_eq!(monitor.pauses(), 60);
    monitor.state.push(sample(None));
    monitor.stop(at(9));
    let seen = monitor.snapshot();
    assert_eq!(seen.summary, "наблюдение выключено");
    assert_eq!(
        seen.outages[0].reason,
        "нет ответа от интернета (наблюдение выключено до восстановления)"
    );
    assert_eq!(seen.outages[0].ended, Some(at(9)));
    assert_eq!(seen.samples.len(), 1);
    assert_eq!(anchor(), Ipv4Addr::new(1, 1, 1, 1));
}

// ---------------------------------------------------------------------------
// The chart
// ---------------------------------------------------------------------------

#[test]
fn long_addresses_are_shortened() {
    let long = "2001:0db8:85a3:0000:0000:8a2e:0370:7334";
    let short = ellipsize(long, 200);
    assert!(short.chars().count() < long.chars().count());
    assert!(short.ends_with('…'));
    assert_eq!(short, "2001:0db8:85a3…");
}

#[test]
fn short_text_is_left_alone() {
    assert_eq!(ellipsize("192.168.1.1", 400), "192.168.1.1");
}

#[test]
fn without_room_a_caption_is_left_alone() {
    assert_eq!(ellipsize("192.168.1.1", 51), "192.168.1.1");
    assert_eq!(ellipsize("192.168.1.1", 52), "192…");
}

#[test]
fn the_chart_shows_where_it_breaks() {
    let mut report = Report::new();
    report.diagnosis.break_edge = Some((NodeId::Router, NodeId::Provider));
    report.node_mut(NodeId::Pc).status = Status::Good;
    report.node_mut(NodeId::Router).status = Status::Good;
    report.caption(NodeId::Router, "шлюз".into(), Some("192.168.1.1".into()));
    report.caption(NodeId::Provider, "путь".into(), None);
    let joints = edges(&report);
    assert_eq!(joints.len(), 5);
    assert_eq!(joints[0], Edge::Line { colour: theme::OK });
    assert_eq!(joints[1], Edge::Break);
    assert_eq!(joints[2], Edge::Line { colour: theme::IDLE });

    let nodes = signs(&report, 400);
    assert_eq!(nodes[1].caption, "192.168.1.1");
    assert_eq!(nodes[1].colour, theme::OK);
    assert_eq!(nodes[1].title, "Роутер");
    assert_eq!(nodes[2].caption, "путь");
    assert_eq!(nodes[0].tip, format!("Ваш компьютер — {}", Status::Good.label()));
}

#[test]
fn nodes_have_glyphs_of_their_own() {
    let all = NodeId::chain();
    for a in all {
        for b in all {
            assert_eq!(glyph(a) == glyph(b), a == b);
        }
    }
}

// ---------------------------------------------------------------------------
// The picture
// ---------------------------------------------------------------------------

fn check(id: &str, node: NodeId, status: Status) -> CheckResult {
    CheckResult::new(id, Layer::L3Network, node, "t").finish(status, "s", "e")
}

#[test]
fn a_check_has_one_line_and_its_node_the_worst_status() {
    let mut report = Report::new();
    report.apply(check("a", NodeId::Router, Status::Fail));
    report.apply(check("b", NodeId::Router, Status::Good));
    assert_eq!(report.nodes[1].status, Status::Fail);
    report.apply(check("a", NodeId::Router, Status::Warn));
    assert_eq!(report.checks.len(), 2);
    assert_eq!(report.checks[0].status, Status::Warn);
    assert_eq!(report.nodes[1].status, Status::Warn);
    assert_eq!(report.nodes[0].status, Status::Pending);
    assert_eq!(report.checks_of(Layer::L3Network).len(), 2);
    assert!(report.checks_of(Layer::L1Physical).is_empty());
}

#[test]
fn the_worse_status_wins() {
    assert_eq!(Status::Good.worse(Status::Fail), Status::Fail);
    assert_eq!(Status::Warn.worse(Status::Good), Status::Warn);
    assert_eq!(Status::Pending.worse(Status::Good), Status::Good);
}

#[test]
fn an_address_stays_where_none_is_given() {
    let mut report = Report::new();
    report.caption(NodeId::Pc, "a".into(), Some("1.2.3.4".into()));
    report.caption(NodeId::Pc, "b".into(), None);
    assert_eq!(report.nodes[0].subtitle, "b");
    assert_eq!(report.nodes[0].address.as_deref(), Some("1.2.3.4"));
}

#[test]
fn optional_lines_are_added() {
    let mut list = vec!["a".to_string()];
    note(&mut list, None);
    note(&mut list, Some("b".into()));
    assert_eq!(list, vec!["a", "b"]);
}

#[test]
fn a_report_leaves_nothing_out() {
    let mut r = Report::new();
    r.apply(
        CheckResult::new("x", Layer::L7Application, NodeId::Target, "Заголовок")
            .finish(Status::Warn, "первая\nвторая", "эксперт")
            .with_evidence("одна\nдве"),
    );
    r.diagnosis = Diagnosis::unknown();
    r.diagnosis.actions = vec!["сделать".into()];
    let caps = Capabilities { icmp: IcmpBackend::RawSocket, elevated: true };
    let text = report::render(&r, caps);
    for part in ["Заголовок", "первая", "вторая", "эксперт", "одна", "две", "сделать"] {
        assert!(text.contains(part), "{part} is missing");
    }
}

// ---------------------------------------------------------------------------
// Tabs
// ---------------------------------------------------------------------------

#[test]
fn what_became_of_a_report_is_said() {
    let mut state = SaveState::default();
    assert!(state.message.is_none());
    state.copied();
    assert_eq!(state.message.as_deref(), Some("Отчёт скопирован в буфер обмена."));
    state.saved(&Ok("/tmp/x".into()));
    assert_eq!(state.message.as_deref(), Some("Сохранено: /tmp/x"));
    assert!(!state.failed);
    state.saved(&Err("нет места".into()));
    assert_eq!(state.message.as_deref(), Some("Не удалось сохранить: нет места"));
    assert!(state.failed);
    let home = || "/home/u".to_string();
    assert_eq!(pick_folder(Some("/d".into()), Some("/l".into()), None, home()), "/d");
    assert_eq!(pick_folder(None, Some("/l".into()), Some("/t".into()), home()), "/l");
    assert_eq!(pick_folder(None, None, Some("/t".into()), home()), "/t");
    assert_eq!(pick_folder(None, None, None, home()), "/home/u");
}

fn untouched() -> Touched {
    Touched { monitor_on_start: None, seconds: None, autostart: None, start_minimized: None }
}

#[test]
fn settings_follow_the_user_and_the_system() {
    let mut settings = Settings::default();
    let mut state = settings_tab::State::default();
    let nothing = change(&mut settings, &mut state, &untouched());
    assert_eq!(nothing, Outcome { changed: false, autostart_changed: false });
    assert_eq!(settings, Settings::default());

    let touched = Touched {
        monitor_on_start: Some(true),
        seconds: Some(42),
        autostart: Some((true, Ok(()))),
        start_minimized: Some(true),
    };
    let outcome = change(&mut settings, &mut state, &touched);
    assert_eq!(outcome, Outcome { changed: true, autostart_changed: true });
    assert!(settings.autostart && settings.start_minimized && settings.monitor_on_start);
    assert_eq!(settings.interval(), 42);
    assert!(!state.failed);

    let mut touched = untouched();
    touched.autostart = Some((false, Err("запрещено".into())));
    let outcome = change(&mut settings, &mut state, &touched);
    assert_eq!(outcome, Outcome { changed: false, autostart_changed: false });
    assert!(settings.autostart);
    assert_eq!(
        state.message.as_deref(),
        Some("Не удалось изменить автозапуск: запрещено")
    );
    touched.autostart = Some((false, Ok(())));
    change(&mut settings, &mut state, &touched);
    assert_eq!(state.message.as_deref(), Some("Автозапуск выключен."));
    assert_eq!(kept_in("/x"), "Настройки хранятся в /x");
}

#[test]
fn the_editor_applies_what_it_understands() {
    let (list, _) = TargetList::parse("ya.ru");
    let mut editor = Editor::new(&list);
    assert_eq!(editor.text, "ya.ru");
    editor.text = "https://Ya.ru/x\nчто это\n8.8.8.8".to_string();
    assert_eq!(editor.count(), "Целей в списке: 2 (не больше 40)");
    match editor.submit() {
        Action::Apply(l) => assert_eq!(l.items().len(), 2),
        Action::Nothing => panic!("nothing was applied"),
    }
    assert_eq!(editor.text, "ya.ru\n8.8.8.8");
    assert_eq!(editor.rejected, vec!["что это"]);
    editor.saved(&Ok("/s".into()));
    assert_eq!(editor.message.as_deref(), Some("Сохранено: /s"));
    assert_eq!(editor.message_color(), theme::OK);
    editor.saved(&Err("e".into()));
    assert_eq!(editor.message.as_deref(), Some("Список принят, но не сохранён: e"));

    editor.text = "# пусто".to_string();
    assert!(matches!(editor.submit(), Action::Nothing));
    assert!(editor.failed);
    assert_eq!(editor.text, "# пусто");
    assert_eq!(editor.message_color(), theme::WARN);
    editor.restore();
    assert_eq!(editor.text.lines().count(), DEFAULTS_LEN);
    assert!(editor.rejected.is_empty() && !editor.failed);
}

#[test]
fn results_stand_beside_their_targets() {
    let (list, _) = TargetList::parse("ya.ru\nvk.com\n1.1.1.1");
    let mut editor = Editor::new(&list);
    let mut report = Report::new();
    report.apply(
        CheckResult::new(
            "l7.target.vk.com",
            Layer::L7Application,
            NodeId::Target,
            "vk.com — а — открывается",
        )
        .finish(Status::Good, "", ""),
    );
    let rows = editor.rows(&report);
    assert_eq!(rows.len(), 3);
    assert_eq!(rows[0].status, Status::Pending);
    assert_eq!(
        rows[0].result,
        format!("[{}] ещё не проверялось", Status::Pending.glyph())
    );
    assert_eq!(rows[1].result, format!("[{}] открывается", Status::Good.glyph()));
    assert_eq!(rows[2].kind, list.items()[2].kind.title());
    editor.search = "  VK ".to_string();
    let rows = editor.rows(&report);
    assert_eq!(rows.len(), 1);
    assert_eq!(rows[0].value, "vk.com");
}

// ---------------------------------------------------------------------------
// Targets and settings
// ---------------------------------------------------------------------------

#[test]
fn lines_are_cleaned() {
    let cases = [
        ("  HTTPS://x.ru", "https"),
        ("//User:pw@Site.RU:80/a", "site.ru"),
        ("a.ru:port", "a.ru:port"),
        ("# note", ""),
        ("a.ru?x=1#y", "a.ru"),
        (" ", ""),
    ];
    for (line, expected) in cases {
        assert_eq!(clean(line), expected, "{line}");
    }
    assert_eq!(clean("https://http://a.ru"), "a.ru");
    assert_eq!(classify("1.2.3.4"), Some(Kind::Address(Ipv4Addr::new(1, 2, 3, 4))));
    assert_eq!(classify("1.2.3.04"), Some(Kind::Domain));
    assert_eq!(classify("a.b"), None);
    assert_eq!(classify(".abc.ru"), None);
    assert_eq!(classify("localhost"), None);
    assert_eq!(classify("a_b.ru"), None);
    assert_eq!(defaults().len(), DEFAULTS_LEN);
    assert_eq!(
        defaults()[..CONTROLS],
        ["ya.ru", "vk.com", "gosuslugi.ru", "example.com", "cloudflare.com"]
    );
    assert_eq!(
        defaults()[CONTROLS..],
        [
            "www.youtube.com",
            "discord.com",
            "instagram.com",
            "www.facebook.com",
            "x.com",
            "telegram.org",
            "chatgpt.com",
            "www.linkedin.com",
            "medium.com",
            "signal.org",
            "soundcloud.com",
            "rutracker.org",
        ]
    );
}

#[test]
fn settings_keep_a_list() {
    let mut s = Settings::default();
    assert_eq!(s.interval(), DEFAULT_INTERVAL);
    let (list, _) = TargetList::parse("a.ru\n9.9.9.9");
    s.set_targets(&list);
    assert_eq!(s.targets, vec!["a.ru", "9.9.9.9"]);
    assert_eq!(s.target_list(), list);
    assert_eq!(drop_mark("\u{FEFF}{}"), "{}");
    assert_eq!(drop_mark("{}"), "{}");
}

// ---------------------------------------------------------------------------
// The tray
// ---------------------------------------------------------------------------

#[test]
fn a_refused_icon_comes_with_a_reason() {
    let short = tray_icon::Icon::from_rgba(vec![1, 2, 3], 1, 1);
    let reason = icon_or_reason(short).err().expect("three bytes are no pixel");
    assert!(reason.contains("isn't divisible by 4"));
    let wrong = tray_icon::Icon::from_rgba(vec![1, 2, 3, 4], 2, 1);
    assert!(icon_or_reason(wrong).is_err());
    assert!(icon_or_reason(tray_icon::Icon::from_rgba(vec![1, 2, 3, 4], 1, 1)).is_ok());
}

#[test]
fn the_tray_says_what_it_shows() {
    assert_eq!(
        tooltip(Health::Down, true, "потерь 2"),
        "Netchecker — связи нет\nпотерь 2"
    );
    assert_eq!(tooltip(Health::Down, false, "x"), "Netchecker — наблюдение выключено");
    let drawn = redraw(&None, Health::Good, true, "a");
    assert!(drawn.is_some());
    assert_eq!(drawn.as_ref().unwrap().colour, tint(Health::Good, true));
    assert!(redraw(&drawn, Health::Good, true, "a").is_none());
    assert!(redraw(&drawn, Health::Good, true, "b").is_some());
    assert!(redraw(&drawn, Health::Good, false, "a").is_some());
}

#[test]
fn the_menu_is_understood() {
    let ids = MenuIds {
        open: "1".into(),
        check: "2".into(),
        monitor: "3".into(),
        autostart: "4".into(),
        quit: "5".into(),
    };
    let events = vec!["5".to_string(), "9".to_string(), "3".to_string(), "4".to_string()];
    assert_eq!(
        poll(&events, 2, &ids),
        vec![
            Command::Quit,
            Command::ToggleMonitor,
            Command::ToggleAutostart,
            Command::Open,
            Command::Open,
        ]
    );
    assert_eq!(ids.command("2"), Some(Command::CheckNow));
}

// ---------------------------------------------------------------------------
// The session
// ---------------------------------------------------------------------------

fn finished() -> EngineEvent {
    let mut d = Diagnosis::unknown();
    d.headline = "итог".into();
    EngineEvent::Finished(Box::new(d))
}

#[test]
fn a_session_follows_the_engine() {
    let mut app = App::new(false);
    assert!(app.running);
    assert!(!app.start(), "a check that runs goes on");
    app.drain_events(vec![
        EngineEvent::Started { total: 7 },
        EngineEvent::Progress { done: 2, label: "шаг".into() },
        EngineEvent::Check(Box::new(check("a", NodeId::Router, Status::Fail))),
        EngineEvent::Node { id: NodeId::Pc, subtitle: "eth0".into(), address: None },
    ]);
    assert_eq!((app.total, app.done, app.progress_label.as_str()), (7, 2, "шаг"));
    assert_eq!(app.report.nodes[1].status, Status::Fail);
    assert_eq!(app.report.nodes[0].subtitle, "eth0");
    assert!(app.running);
    app.stop();
    assert_eq!(app.progress_label, "Останавливаю…");
    assert!(app.running);
    app.drain_events(vec![EngineEvent::Cancelled]);
    assert!(!app.running);
    assert_eq!(app.report.diagnosis.headline, "Проверка остановлена");
    assert_eq!(app.report.checks.len(), 1, "what was found out stays");

    app.focus = Some(NodeId::Pc);
    assert!(app.start());
    assert!(app.report.checks.is_empty());
    assert_eq!((app.total, app.done, app.focus), (0, 0, None));
    app.drain_events(vec![finished()]);
    assert_eq!(app.report.diagnosis.headline, "итог");
    assert!(!app.running);
}

#[test]
fn the_console_prints_what_the_window_shows() {
    let events = || {
        vec![
            EngineEvent::Check(Box::new(check("a", NodeId::Router, Status::Fail))),
            EngineEvent::Node { id: NodeId::Pc, subtitle: "eth0".into(), address: None },
            finished(),
        ]
    };
    let mut app = App::new(false);
    app.drain_events(events());
    let printed = gather(events());
    let caps = Capabilities { icmp: IcmpBackend::RawSocket, elevated: true };
    assert_eq!(report::render(&printed, caps), report::render(&app.report, caps));
}

#[test]
fn commands_set_off_effects() {
    let mut app = App::new(true);
    app.running = false;
    let commands = vec![
        Command::CheckNow,
        Command::ToggleMonitor,
        Command::ToggleMonitor,
        Command::ToggleAutostart,
        Command::Quit,
    ];
    assert_eq!(
        app.handle_tray(&commands, true),
        vec![
            Effect::Show,
            Effect::Check,
            Effect::Unwatch,
            Effect::Watch,
            Effect::FlipAutostart,
            Effect::Unwatch,
            Effect::Close,
        ]
    );
    assert!(!app.hidden && app.running && app.quitting);
    assert_eq!(app.handle_tray(&vec![Command::CheckNow, Command::Open], false), vec![
        Effect::Show,
        Effect::Show,
    ]);
    assert_eq!(app.handle_close(true), Effect::Unwatch);
    assert_eq!(toggle_monitor(false), Effect::Watch);
}

#[test]
fn closing_hides_where_there_is_a_tray() {
    let mut app = App::new(false);
    assert_eq!(app.handle_close(true), Effect::Hide);
    assert!(app.hidden);
    assert_eq!(App::new(false).handle_close(false), Effect::Unwatch);
}

#[test]
fn a_click_on_a_node_shows_its_checks() {
    let mut app = App::new(false);
    app.pick(NodeId::Router);
    assert_eq!((app.focus, app.tab), (Some(NodeId::Router), Tab::Layers));
    app.pick(NodeId::Router);
    assert_eq!(app.focus, None);
    assert_eq!(app.retarget(), vec![Effect::Save]);
    app.running = false;
    assert_eq!(app.retarget(), vec![Effect::Save, Effect::Check]);
    assert_eq!(app.tab, Tab::Overview);
    assert_eq!(Tab::About.title(), "О программе");
}

#[test]
fn changes_of_settings_set_off_effects() {
    let outcome = |changed, autostart_changed| Outcome { changed, autostart_changed };
    assert_eq!(after_settings(outcome(false, false), true), vec![]);
    assert_eq!(after_settings(outcome(true, true), true), vec![
        Effect::Pace,
        Effect::Save,
        Effect::MarkAutostart,
    ]);
    assert_eq!(after_settings(outcome(false, true), false), vec![]);
    let mut s = Settings::default();
    assert!(!switch_autostart(&mut s, true, false));
    assert!(!s.autostart);
    assert!(switch_autostart(&mut s, true, true));
    assert!(s.autostart);
}

#[test]
fn arguments_are_understood() {
    let args = |list: &[&str]| list.iter().map(|a| a.to_string()).collect::<Vec<_>>();
    assert!(wants_report(&args(&["x", "--report"])));
    assert!(!wants_report(&args(&["x", "--reports"])));
    assert!(starts_hidden(true, false, &args(&["x", "--minimized"])));
    assert!(starts_hidden(true, true, &args(&[])));
    assert!(!starts_hidden(false, true, &args(&["--minimized"])));
    assert!(has_argument(&args(&["a"]), "a"));
}

#[test]
fn the_card_speaks_to_its_reader() {
    let mut d = Diagnosis::unknown();
    d.simple = "просто".into();
    d.expert = "сложно".into();
    d.actions = vec!["раз".into()];
    d.status = Status::Warn;
    let plain = verdict_card(&d, false);
    assert_eq!((plain.text.as_str(), plain.small), ("просто", None));
    assert_eq!(plain.colour, theme::WARN);
    assert_eq!(plain.actions, vec!["• раз"]);
    let expert = verdict_card(&d, true);
    assert_eq!(expert.text, "сложно");
    assert_eq!(expert.small.as_deref(), Some("просто"));
    d.expert = String::new();
    assert_eq!(verdict_card(&d, true).text, "просто");
}

#[test]
fn the_banner_shows_what_was_found() {
    let mut r = Report::new();
    assert!(bypass_banner(&r).is_none());
    r.apply(
        CheckResult::new("l2.bypass", Layer::L2Link, NodeId::Pc, "t")
            .finish(Status::Warn, "Найдено", "e")
            .with_evidence("VPN"),
    );
    let banner = bypass_banner(&r).unwrap();
    assert_eq!(banner.text, "Найдено");
    assert_eq!(banner.mark, format!("[{}]", Status::Warn.glyph()));
    assert_eq!(banner.lines, vec!["• VPN"]);
    assert_eq!(banner.colour, theme::WARN);
}

#[test]
fn the_expert_mode_hides_no_check() {
    let mut r = Report::new();
    r.apply(check("a", NodeId::Router, Status::Fail).with_evidence("сырьё"));
    r.apply(
        CheckResult::new("b", Layer::L1Physical, NodeId::Pc, "x").finish(Status::Good, "s", ""),
    );
    let plain = layers(&r, None, false);
    let expert = layers(&r, None, true);
    assert_eq!(plain.len(), 2);
    assert_eq!(
        plain[1].heading,
        format!(
            "{} · {} — {}",
            Layer::L3Network.code(),
            Layer::L3Network.title(),
            Layer::L3Network.plain()
        )
    );
    assert_eq!(plain[1].colour, theme::FAIL);
    for (p, e) in plain.iter().zip(&expert) {
        assert_eq!(p.heading, e.heading);
        assert_eq!(p.lines.len(), e.lines.len());
        assert_eq!(p.lines[0].head, e.lines[0].head);
    }
    assert_eq!(plain[1].lines[0].text, "s");
    assert!(plain[1].lines[0].evidence.is_empty());
    assert_eq!(expert[1].lines[0].text, "e");
    assert_eq!(expert[1].lines[0].evidence, vec!["сырьё"]);
    assert_eq!(expert[0].lines[0].text, "s");

    let focused = layers(&r, Some(NodeId::Pc), false);
    assert_eq!(focused.len(), 1);
    assert_eq!(focused[0].lines[0].id, "b");
    assert_eq!(focus_note(NodeId::Pc), "Показаны проверки узла «Ваш компьютер»");
    assert!(rights_note(true).contains("с правами"));
    assert!(closing_note(false).contains("недоступен"));
}
