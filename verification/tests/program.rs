//! What the program keeps and shows: targets, settings, watching, the report.

use netchecker::model::{CheckResult, Layer, NodeId, Report, Status};
use netchecker::monitor::{Health, Monitor, Sample, State, HISTORY};
use netchecker::privileged::{Capabilities, IcmpBackend};
use netchecker::report::render;
use netchecker::settings::{Settings, Stored, DEFAULT_INTERVAL, MAX_INTERVAL, MIN_INTERVAL};
use netchecker::targets::{Kind, TargetList, DEFAULTS_LEN, MAX};
use netchecker::net::Ipv4Addr;
use netchecker::time::{Duration, SystemTime};
use netchecker::tray::{make_icon, tint};

fn sample(rtt: Option<u64>) -> Sample {
    Sample {
        at: SystemTime::from_unix(1_700_000_000, 0),
        rtt: rtt.map(Duration::from_millis),
    }
}

fn state_with(rtts: &[Option<u64>]) -> State {
    let mut state = State::default();
    for r in rtts {
        state.push(sample(*r));
    }
    state
}

#[test]
fn single_loss_is_not_an_outage() {
    let state = state_with(&[Some(20), Some(21), None, Some(20), Some(19)]);
    assert_eq!(state.health, Health::Good);
    assert!(state.outages.is_empty());
}

#[test]
fn two_losses_in_a_row_are_an_outage() {
    let state = state_with(&[Some(20), Some(21), None, None]);
    assert_eq!(state.health, Health::Down);
    assert_eq!(state.outages.len(), 1);
    assert!(state.outages[0].ended.is_none(), "the outage goes on");
}

#[test]
fn recovery_closes_the_outage_but_keeps_the_warning() {
    let state = state_with(&[Some(20), None, None, Some(22), Some(21), Some(20)]);
    assert_eq!(state.health, Health::Degraded);
    assert_eq!(state.outages.len(), 1);
    assert!(state.outages[0].ended.is_some(), "the outage must be closed");
}

#[test]
fn health_returns_to_ok_once_losses_leave_the_window() {
    let mut rtts = vec![Some(20), None, None];
    rtts.extend((0..12).map(|_| Some(20)));
    let state = state_with(&rtts);
    assert_eq!(state.health, Health::Good);
    assert_eq!(state.outages.len(), 1);
    assert!(state.outages[0].ended.is_some());
}

#[test]
fn latency_spike_is_relative_to_the_usual() {
    let mut rtts: Vec<Option<u64>> = (0..10).map(|_| Some(20)).collect();
    rtts.push(Some(200));
    assert_eq!(state_with(&rtts).health, Health::Degraded);

    let slow: Vec<Option<u64>> = (0..10).map(|_| Some(600)).collect();
    assert_eq!(state_with(&slow).health, Health::Good);
}

#[test]
fn history_does_not_grow_without_bound() {
    let rtts: Vec<Option<u64>> = (0..HISTORY + 50).map(|_| Some(20)).collect();
    assert_eq!(state_with(&rtts).samples.len(), HISTORY);
}

#[test]
fn stopping_closes_a_dangling_outage() {
    let mut monitor = Monitor::new(
        Capabilities { icmp: IcmpBackend::Fallback, elevated: false },
        15,
    );
    monitor.state.push(sample(Some(20)));
    monitor.state.push(sample(None));
    monitor.state.push(sample(None));
    assert!(monitor.state.outages[0].ended.is_none());

    monitor.stop(SystemTime::from_unix(1_700_000_060, 0));
    let snapshot = monitor.snapshot();
    assert!(snapshot.outages[0].ended.is_some());
    assert_eq!(snapshot.health, Health::Unknown);
}

#[test]
fn detect_is_infallible() {
    for raw in [false, true] {
        for windows in [false, true] {
            for dgram in [false, true] {
                let caps = Capabilities::detect(raw, windows, dgram);
                assert!(!caps.icmp.explanation().is_empty());
            }
        }
    }
}

#[test]
fn windows_without_rights_still_has_icmp() {
    let caps = Capabilities::detect(false, true, false);
    assert!(!caps.elevated);
    assert_eq!(caps.icmp, IcmpBackend::WindowsIcmpApi);
}

fn caps() -> Capabilities {
    Capabilities { icmp: IcmpBackend::WindowsIcmpApi, elevated: false }
}

#[test]
fn empty_report_still_renders() {
    let text = render(&Report::new(), caps());
    assert!(text.contains("СХЕМА СЕТИ"));
    assert!(text.contains("Итого проверок: 0"));
}

#[test]
fn check_appears_with_both_explanations_and_evidence() {
    let mut report = Report::new();
    report.apply(
        CheckResult::new("t", Layer::L3Network, NodeId::Router, "Отклик роутера")
            .finish(Status::Fail, "Роутер не отвечает.", "ICMP: 4/4 без ответа.")
            .with_evidence("192.168.1.1: тайм-аут"),
    );

    let text = render(&report, caps());
    assert!(text.contains("Роутер не отвечает."));
    assert!(text.contains("ICMP: 4/4 без ответа."));
    assert!(text.contains("192.168.1.1: тайм-аут"));
    assert!(text.contains("не прошло: 1"));
}

/// What a file holds, value by value.
fn stored(text: &str) -> Option<Stored> {
    let file: serde_json::Value = serde_json::from_str(text).ok()?;
    let list = |v: &serde_json::Value| {
        let items = v.as_array()?;
        items.iter().map(|item| item.as_str().map(String::from)).collect()
    };
    Some(Stored {
        targets: file.get("targets").and_then(list),
        monitor_interval: file.get("monitor_interval").and_then(|v| v.as_u64()),
        monitor_on_start: file.get("monitor_on_start").and_then(|v| v.as_bool()),
        start_minimized: file.get("start_minimized").and_then(|v| v.as_bool()),
        autostart: file.get("autostart").and_then(|v| v.as_bool()),
    })
}

/// A file with the values.
fn written(s: &Stored) -> String {
    let mut file = serde_json::Map::new();
    if let Some(list) = &s.targets {
        file.insert("targets".to_string(), serde_json::Value::from(list.clone()));
    }
    if let Some(n) = s.monitor_interval {
        file.insert("monitor_interval".to_string(), serde_json::Value::from(n));
    }
    for (name, value) in [
        ("monitor_on_start", s.monitor_on_start),
        ("start_minimized", s.start_minimized),
        ("autostart", s.autostart),
    ] {
        if let Some(on) = value {
            file.insert(name.to_string(), serde_json::Value::from(on));
        }
    }
    serde_json::Value::Object(file).to_string()
}

#[test]
fn file_without_new_fields_still_loads() {
    let old = r#"{ "targets": ["ya.ru"] }"#;
    let settings = Settings::from_stored(stored(old));
    assert_eq!(settings.targets, vec!["ya.ru"]);
    assert_eq!(settings.monitor_interval, DEFAULT_INTERVAL);
    assert!(!settings.autostart);
}

#[test]
fn settings_survive_a_round_trip() {
    let mut settings = Settings::default();
    settings.monitor_interval = 42;
    settings.start_minimized = true;
    let text = written(&settings.to_stored());
    assert_eq!(Settings::from_stored(stored(&text)), settings);
}

#[test]
fn an_unreadable_file_means_the_defaults() {
    assert_eq!(Settings::from_stored(stored("{ not a file")), Settings::default());
    assert_eq!(Settings::from_stored(stored("{}")), Settings::default());
}

#[test]
fn interval_is_kept_within_sane_bounds() {
    let mut s = Settings::default();
    s.monitor_interval = 0;
    assert_eq!(s.interval(), MIN_INTERVAL);
    s.monitor_interval = 99_999;
    assert_eq!(s.interval(), MAX_INTERVAL);
}

#[test]
fn empty_target_list_falls_back_to_defaults() {
    let mut s = Settings::default();
    s.targets = vec!["".into(), "  ".into()];
    assert!(!s.target_list().is_empty());
}

#[test]
fn default_list_parses_completely() {
    let list = TargetList::default();
    assert_eq!(list.items().len(), DEFAULTS_LEN);
    assert!(list.items().iter().all(|t| t.is_domain()));
}

#[test]
fn default_list_mixes_controls_with_problem_sites() {
    let list = TargetList::default();
    let has = |name: &str| list.items().iter().any(|t| t.value == name);
    assert!(has("ya.ru"), "no site that always works");
    assert!(has("gosuslugi.ru"), "no site that always works");
    assert!(has("instagram.com"), "no site with troubles");
    assert!(has("telegram.org"), "no site with troubles");
    assert!(DEFAULTS_LEN <= MAX, "the list must not reach the cap");
}

#[test]
fn urls_are_reduced_to_host() {
    let (list, rejected) = TargetList::parse(
        "https://www.youtube.com/watch?v=123\n\
         http://example.com:8080/path\n\
         ya.ru.\n",
    );
    assert!(rejected.is_empty(), "rejected: {rejected:?}");
    assert_eq!(
        list.items().iter().map(|t| t.value.as_str()).collect::<Vec<_>>(),
        ["www.youtube.com", "example.com", "ya.ru"]
    );
}

#[test]
fn addresses_and_domains_are_told_apart() {
    let (list, _) = TargetList::parse("1.1.1.1\ndiscord.com");
    assert_eq!(list.items()[0].kind, Kind::Address(Ipv4Addr::new(1, 1, 1, 1)));
    assert_eq!(list.items()[1].kind, Kind::Domain);
}

#[test]
fn unparsable_lines_are_reported_back() {
    let (list, rejected) = TargetList::parse("ya.ru\nне сайт вовсе\n\n  \n");
    assert_eq!(list.items().len(), 1);
    assert_eq!(rejected, vec!["не сайт вовсе"]);
}

#[test]
fn comments_and_blank_lines_are_skipped_silently() {
    let (list, rejected) = TargetList::parse("# мои сайты\nya.ru\n\n");
    assert_eq!(list.items().len(), 1);
    assert!(rejected.is_empty());
}

#[test]
fn duplicates_are_collapsed() {
    let (list, _) = TargetList::parse("ya.ru\nhttps://ya.ru/\nYA.RU");
    assert_eq!(list.items().len(), 1);
}

#[test]
fn list_is_capped() {
    let many: String = (0..MAX + 10).map(|i| format!("site{i}.example\n")).collect();
    let (list, _) = TargetList::parse(&many);
    assert_eq!(list.items().len(), MAX);
}

#[test]
fn text_round_trips() {
    let (list, _) = TargetList::parse("ya.ru\n1.1.1.1");
    let (again, _) = TargetList::parse(&list.to_text());
    assert_eq!(list, again);
}

#[test]
fn colours_tell_the_states_apart() {
    let off = tint(Health::Good, false);
    let ok = tint(Health::Good, true);
    let degraded = tint(Health::Degraded, true);
    let down = tint(Health::Down, true);

    assert_ne!(off, ok);
    assert_ne!(ok, degraded);
    assert_ne!(degraded, down);
    assert_ne!(ok, down);
}

#[test]
fn icon_is_built_for_every_state() {
    for health in [Health::Unknown, Health::Good, Health::Degraded, Health::Down] {
        assert!(make_icon(tint(health, true)).is_ok());
    }
}
