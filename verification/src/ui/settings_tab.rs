//! The settings as the user changes them.

use vstd::prelude::*;
use vstd::string::StringExecFns;
use crate::model::opt_text;
use crate::settings::{Settings, SettingsView};

verus! {

/// What the tab says about the last change of starting with the system.
#[derive(Debug)]
pub struct State {
    pub message: Option<String>,
    pub failed: bool,
}

#[verifier::ext_equal]
pub struct StateView {
    pub message: Option<Seq<char>>,
    pub failed: bool,
}

impl View for State {
    type V = StateView;

    open spec fn view(&self) -> StateView {
        StateView { message: opt_text(self.message), failed: self.failed }
    }
}

impl Default for State {
    fn default() -> (r: Self)
        ensures
            r@ == (StateView { message: None, failed: false }),
    {
        State { message: None, failed: false }
    }
}

/// What the tab asks for outside of itself.
#[derive(Debug, Clone, Copy, PartialEq, Eq, Structural)]
pub struct Outcome {
    /// The settings have changed and have to be saved.
    pub changed: bool,
    /// Starting with the system was switched: the mark in the tray's menu has to
    /// follow.
    pub autostart_changed: bool,
}

/// What the user touched in one frame. Starting with the system is a matter of
/// the system: what it answered comes along.
#[derive(Debug)]
pub struct Touched {
    pub monitor_on_start: Option<bool>,
    pub seconds: Option<u64>,
    pub autostart: Option<(bool, Result<(), String>)>,
    pub start_minimized: Option<bool>,
}

impl Touched {
    /// Whether starting with the system was switched, and the system agreed.
    pub open spec fn switched(self) -> Option<bool> {
        match self.autostart {
            Some((on, Ok(_))) => Some(on),
            _ => None,
        }
    }

    /// The settings after the change. A switch that the system refused leaves no
    /// trace in them.
    pub open spec fn carried(self, s: SettingsView) -> SettingsView {
        SettingsView {
            monitor_on_start: match self.monitor_on_start {
                Some(on) => on,
                None => s.monitor_on_start,
            },
            monitor_interval: match self.seconds {
                Some(n) => n,
                None => s.monitor_interval,
            },
            autostart: match self.switched() {
                Some(on) => on,
                None => s.autostart,
            },
            start_minimized: match self.start_minimized {
                Some(on) => on,
                None => s.start_minimized,
            },
            ..s
        }
    }

    pub open spec fn told(self, state: StateView) -> StateView {
        match self.autostart {
            Some((true, Ok(_))) => StateView {
                message: Some(
                    "Программа будет запускаться вместе с системой, свёрнутой в трей."@,
                ),
                failed: false,
            },
            Some((false, Ok(_))) => StateView {
                message: Some("Автозапуск выключен."@),
                failed: false,
            },
            Some((_, Err(e))) => StateView {
                message: Some("Не удалось изменить автозапуск: "@ + e@),
                failed: true,
            },
            None => state,
        }
    }
}

/// Carries out what the user touched.
pub fn change(settings: &mut Settings, state: &mut State, touched: &Touched) -> (r: Outcome)
    ensures
        final(settings)@ == touched.carried(old(settings)@),
        final(state)@ == touched.told(old(state)@),
        r.changed == (touched.monitor_on_start is Some || touched.seconds is Some
            || touched.switched() is Some || touched.start_minimized is Some),
        r.autostart_changed == touched.switched() is Some,
{
    let mut changed = false;
    let mut autostart_changed = false;
    match touched.monitor_on_start {
        Some(on) => {
            settings.monitor_on_start = on;
            changed = true;
        },
        None => {},
    }
    match touched.seconds {
        Some(n) => {
            settings.monitor_interval = n;
            changed = true;
        },
        None => {},
    }
    match &touched.autostart {
        Some((on, answer)) => match answer {
            Ok(_) => {
                settings.autostart = *on;
                changed = true;
                autostart_changed = true;
                state.message = Some(
                    if *on {
                        "Программа будет запускаться вместе с системой, свёрнутой в трей.".to_owned()
                    } else {
                        "Автозапуск выключен.".to_owned()
                    },
                );
                state.failed = false;
            },
            Err(e) => {
                state.message = Some(
                    String::from_str("Не удалось изменить автозапуск: ").concat(e.as_str()),
                );
                state.failed = true;
            },
        },
        None => {},
    }
    match touched.start_minimized {
        Some(on) => {
            settings.start_minimized = on;
            changed = true;
        },
        None => {},
    }
    Outcome { changed, autostart_changed }
}

/// What is not saved did not change: a frame without a change leaves the
/// settings as they are.
pub proof fn nothing_changes_unsaved(touched: Touched, s: SettingsView)
    requires
        touched.monitor_on_start is None,
        touched.seconds is None,
        touched.switched() is None,
        touched.start_minimized is None,
    ensures
        touched.carried(s) == s,
{
}

/// The line that says where the settings are kept.
pub fn kept_in(path: &str) -> (r: String)
    ensures
        r@ == "Настройки хранятся в "@ + path@,
{
    String::from_str("Настройки хранятся в ").concat(path)
}

/// A change is carried over field by field. What was not touched stays; starting
/// with the system follows the switch only where the system agreed.
pub proof fn only_what_was_touched_changes(touched: Touched, s: SettingsView)
    ensures
        ({
            let now = touched.carried(s);
            &&& now.targets == s.targets
            &&& touched.monitor_on_start is None ==> now.monitor_on_start == s.monitor_on_start
            &&& touched.monitor_on_start matches Some(on) ==> now.monitor_on_start == on
            &&& touched.seconds is None ==> now.monitor_interval == s.monitor_interval
            &&& touched.seconds matches Some(n) ==> now.monitor_interval == n
            &&& touched.start_minimized is None ==> now.start_minimized == s.start_minimized
            &&& touched.start_minimized matches Some(on) ==> now.start_minimized == on
            &&& touched.autostart is None ==> now.autostart == s.autostart
            &&& touched.autostart matches Some((_, Err(_))) ==> now.autostart == s.autostart
            &&& touched.autostart matches Some((on, Ok(_))) ==> now.autostart == on
        }),
{
}

/// A switch that failed is told as a failure, with its reason; one that worked,
/// or was not touched, is none.
pub proof fn failures_are_told(touched: Touched, state: StateView)
    ensures
        touched.autostart is None ==> touched.told(state) == state,
        touched.autostart matches Some((_, Ok(_))) ==> !touched.told(state).failed
            && touched.told(state).message is Some,
        touched.autostart matches Some((_, Err(e))) ==> touched.told(state).failed && touched.told(
            state,
        ).message == Some("Не удалось изменить автозапуск: "@ + e@),
{
}

} // verus!
