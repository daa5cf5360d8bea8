//! The program's settings: what to check and how to behave.
//!
//! They are kept in an ordinary file that may also be edited by hand, so every
//! value in them is brought within bounds before it is used. A value that is
//! missing there gets its default: a file of an earlier version has to be
//! readable.

use vstd::prelude::*;
use crate::scan::texts;
use crate::targets::{
    accepted, all_cleaned, default_lines, defaults, no_dot_at_end, values_of, values_round_trip,
    TargetList, TargetView,
};
use crate::text::{chars_of, cut};

verus! {

/// Watching more often than this is pointless: nobody notices a shorter outage,
/// but the load on the line is noticeable.
pub const MIN_INTERVAL: u64 = 5;

/// Watching less often than this is no longer watching.
pub const MAX_INTERVAL: u64 = 300;

pub const DEFAULT_INTERVAL: u64 = 15;

#[derive(Debug, PartialEq, Eq)]
pub struct Settings {
    /// The targets, one on a line.
    pub targets: Vec<String>,
    /// How often the connection is sampled, in seconds.
    pub monitor_interval: u64,
    /// Begin to watch right at the start.
    pub monitor_on_start: bool,
    /// Start minimised to the tray.
    pub start_minimized: bool,
    /// Start together with the system. The truth is with the system; this is
    /// what the user asked for, to show it before the system is asked.
    pub autostart: bool,
}

#[verifier::ext_equal]
pub struct SettingsView {
    pub targets: Seq<Seq<char>>,
    pub monitor_interval: u64,
    pub monitor_on_start: bool,
    pub start_minimized: bool,
    pub autostart: bool,
}

impl View for Settings {
    type V = SettingsView;

    open spec fn view(&self) -> SettingsView {
        SettingsView {
            targets: texts(self.targets@),
            monitor_interval: self.monitor_interval,
            monitor_on_start: self.monitor_on_start,
            start_minimized: self.start_minimized,
            autostart: self.autostart,
        }
    }
}

pub open spec fn default_settings() -> SettingsView {
    SettingsView {
        targets: default_lines(),
        monitor_interval: DEFAULT_INTERVAL,
        monitor_on_start: false,
        start_minimized: false,
        autostart: false,
    }
}

impl Default for Settings {
    fn default() -> (r: Self)
        ensures
            r@ == default_settings(),
    {
        Settings {
            targets: defaults(),
            monitor_interval: DEFAULT_INTERVAL,
            monitor_on_start: false,
            start_minimized: false,
            autostart: false,
        }
    }
}

/// The settings as the file has them: each value may be missing.
#[derive(Debug)]
pub struct Stored {
    pub targets: Option<Vec<String>>,
    pub monitor_interval: Option<u64>,
    pub monitor_on_start: Option<bool>,
    pub start_minimized: Option<bool>,
    pub autostart: Option<bool>,
}

#[verifier::ext_equal]
pub struct StoredView {
    pub targets: Option<Seq<Seq<char>>>,
    pub monitor_interval: Option<u64>,
    pub monitor_on_start: Option<bool>,
    pub start_minimized: Option<bool>,
    pub autostart: Option<bool>,
}

impl View for Stored {
    type V = StoredView;

    open spec fn view(&self) -> StoredView {
        StoredView {
            targets: match self.targets {
                Some(list) => Some(texts(list@)),
                None => None,
            },
            monitor_interval: self.monitor_interval,
            monitor_on_start: self.monitor_on_start,
            start_minimized: self.start_minimized,
            autostart: self.autostart,
        }
    }
}

impl StoredView {
    /// The settings with the defaults in place of what is missing.
    pub open spec fn completed(self) -> SettingsView {
        let d = default_settings();
        SettingsView {
            targets: match self.targets {
                Some(list) => list,
                None => d.targets,
            },
            monitor_interval: match self.monitor_interval {
                Some(n) => n,
                None => d.monitor_interval,
            },
            monitor_on_start: match self.monitor_on_start {
                Some(on) => on,
                None => d.monitor_on_start,
            },
            start_minimized: match self.start_minimized {
                Some(on) => on,
                None => d.start_minimized,
            },
            autostart: match self.autostart {
                Some(on) => on,
                None => d.autostart,
            },
        }
    }
}

impl SettingsView {
    /// What goes into the file: every value.
    pub open spec fn stored(self) -> StoredView {
        StoredView {
            targets: Some(self.targets),
            monitor_interval: Some(self.monitor_interval),
            monitor_on_start: Some(self.monitor_on_start),
            start_minimized: Some(self.start_minimized),
            autostart: Some(self.autostart),
        }
    }

    /// The list to check: that of the settings, or the default one where it is
    /// empty.
    pub open spec fn list(self) -> Seq<TargetView> {
        let own = accepted(all_cleaned(self.targets));
        if own.len() == 0 {
            accepted(all_cleaned(default_lines()))
        } else {
            own
        }
    }

    pub open spec fn bounded_interval(self) -> u64 {
        if self.monitor_interval < MIN_INTERVAL {
            MIN_INTERVAL
        } else if self.monitor_interval > MAX_INTERVAL {
            MAX_INTERVAL
        } else {
            self.monitor_interval
        }
    }
}

/// What was written is read back.
pub proof fn settings_survive_storing(s: SettingsView)
    ensures
        s.stored().completed() == s,
{
}

impl Settings {
    /// The settings of a file; the defaults where there is none that could be
    /// read. A program that looks for faults may not fail over its own file.
    pub fn from_stored(stored: Option<Stored>) -> (r: Self)
        ensures
            r@ == (match stored {
                Some(s) => s@.completed(),
                None => default_settings(),
            }),
    {
        let stored = match stored {
            Some(s) => s,
            None => return Settings::default(),
        };
        Settings {
            targets: match stored.targets {
                Some(list) => list,
                None => defaults(),
            },
            monitor_interval: match stored.monitor_interval {
                Some(n) => n,
                None => DEFAULT_INTERVAL,
            },
            monitor_on_start: match stored.monitor_on_start {
                Some(on) => on,
                None => false,
            },
            start_minimized: match stored.start_minimized {
                Some(on) => on,
                None => false,
            },
            autostart: match stored.autostart {
                Some(on) => on,
                None => false,
            },
        }
    }

    /// The settings for a file.
    pub fn to_stored(&self) -> (r: Stored)
        ensures
            r@ == self@.stored(),
    {
        let all = self.clone();
        Stored {
            targets: Some(all.targets),
            monitor_interval: Some(all.monitor_interval),
            monitor_on_start: Some(all.monitor_on_start),
            start_minimized: Some(all.start_minimized),
            autostart: Some(all.autostart),
        }
    }

    pub fn target_list(&self) -> (r: TargetList)
        ensures
            r@ == self@.list(),
    {
        let list = TargetList::from_lines(self.targets.as_slice()).0;
        if list.is_empty() {
            TargetList::default()
        } else {
            list
        }
    }

    /// Takes a list over. It is what [`Settings::target_list`] gives from then
    /// on, unless it is empty or a target ends in a dot.
    pub fn set_targets(&mut self, list: &TargetList)
        ensures
            final(self)@ == (SettingsView { targets: values_of(list@), ..old(self)@ }),
            list@.len() > 0 && no_dot_at_end(list@) ==> final(self)@.list() == list@,
    {
        let items = list.items();
        let mut out: Vec<String> = Vec::new();
        let mut i: usize = 0;
        while i < items.len()
            invariant
                i <= items@.len(),
                out@.len() == i,
                forall|k: int| 0 <= k < i ==> (#[trigger] out@[k])@ == items@[k].value@,
            decreases items@.len() - i,
        {
            out.push(items[i].value.clone());
            i += 1;
        }
        proof {
            assert(texts(out@) =~= values_of(list@));
            if no_dot_at_end(list@) {
                values_round_trip(list@);
            }
        }
        self.targets = out;
    }

    /// The interval within sane bounds: the file may have been edited by hand.
    pub fn interval(&self) -> (r: u64)
        ensures
            r == self@.bounded_interval(),
            MIN_INTERVAL <= r <= MAX_INTERVAL,
    {
        if self.monitor_interval < MIN_INTERVAL {
            MIN_INTERVAL
        } else if self.monitor_interval > MAX_INTERVAL {
            MAX_INTERVAL
        } else {
            self.monitor_interval
        }
    }
}

impl Clone for Settings {
    fn clone(&self) -> (r: Self)
        ensures
            r@ == self@,
    {
        let mut targets: Vec<String> = Vec::new();
        let mut i: usize = 0;
        while i < self.targets.len()
            invariant
                i <= self.targets@.len(),
                targets@.len() == i,
                forall|k: int| 0 <= k < i ==> (#[trigger] targets@[k])@ == self.targets@[k]@,
            decreases self.targets@.len() - i,
        {
            targets.push(self.targets[i].clone());
            i += 1;
        }
        assert(texts(targets@) =~= texts(self.targets@));
        Settings {
            targets,
            monitor_interval: self.monitor_interval,
            monitor_on_start: self.monitor_on_start,
            start_minimized: self.start_minimized,
            autostart: self.autostart,
        }
    }
}

/// A text without the byte order marks at its beginning.
pub open spec fn unmarked(text: Seq<char>) -> Seq<char>
    decreases text.len(),
{
    if text.len() > 0 && text[0] == '\u{FEFF}' {
        unmarked(text.drop_first())
    } else {
        text
    }
}

/// Drops the marks that some editors put at the beginning of a file; a parser
/// does not expect them, and the user's changes would be lost silently.
pub fn drop_mark(text: &str) -> (r: String)
    ensures
        r@ == unmarked(text@),
{
    let chars = chars_of(text);
    let total: usize = chars.len();
    let mut i: usize = 0;
    assert(chars@.skip(0) =~= chars@);
    while i < total && chars[i] == '\u{FEFF}'
        invariant
            total == chars@.len(),
            chars@ == text@,
            i <= total,
            unmarked(chars@.skip(i as int)) == unmarked(text@),
        decreases total - i,
    {
        assert(chars@.skip(i as int).drop_first() =~= chars@.skip(i + 1));
        i += 1;
    }
    assert(chars@.subrange(i as int, total as int) =~= chars@.skip(i as int));
    cut(&chars, i, total)
}

/// The interval is kept between five seconds and five minutes; inside that it is
/// what was asked for.
pub proof fn the_interval_is_kept_in_bounds(s: SettingsView)
    ensures
        5 <= s.bounded_interval() <= 300,
        5 <= s.monitor_interval <= 300 ==> s.bounded_interval() == s.monitor_interval,
        s.monitor_interval < 5 ==> s.bounded_interval() == 5,
        s.monitor_interval > 300 ==> s.bounded_interval() == 300,
{
}

/// What was not stored is as it is at the first start: nothing watches, nothing
/// is hidden and nothing starts by itself, and the interval is fifteen seconds.
/// What was stored is taken, whatever else is missing.
pub proof fn missing_settings_are_the_first_ones(s: StoredView)
    ensures
        s.targets is Some ==> s.completed().targets == s.targets->0,
        s.targets is None ==> s.completed().targets == default_lines(),
        s.monitor_interval is Some ==> s.completed().monitor_interval == s.monitor_interval->0,
        s.monitor_interval is None ==> s.completed().monitor_interval == 15,
        s.monitor_on_start is Some ==> s.completed().monitor_on_start == s.monitor_on_start->0,
        s.monitor_on_start is None ==> !s.completed().monitor_on_start,
        s.start_minimized is Some ==> s.completed().start_minimized == s.start_minimized->0,
        s.start_minimized is None ==> !s.completed().start_minimized,
        s.autostart is Some ==> s.completed().autostart == s.autostart->0,
        s.autostart is None ==> !s.completed().autostart,
{
}

/// Only marks at the beginning of a file are dropped, and all of them.
pub proof fn only_leading_marks_are_dropped(text: Seq<char>)
    ensures
        unmarked(text).len() <= text.len(),
        unmarked(text) == text.skip(text.len() - unmarked(text).len()),
        forall|i: int|
            0 <= i < text.len() - unmarked(text).len() ==> #[trigger] text[i] == '\u{FEFF}',
        unmarked(text).len() > 0 ==> unmarked(text)[0] != '\u{FEFF}',
    decreases text.len(),
{
    if text.len() > 0 && text[0] == '\u{FEFF}' {
        let r = text.drop_first();
        only_leading_marks_are_dropped(r);
        let n = unmarked(text).len();
        assert(r.skip(r.len() - n) =~= text.skip(text.len() - n));
        assert forall|i: int| 0 <= i < text.len() - n implies #[trigger] text[i]
            == '\u{FEFF}' by {
            if i > 0 {
                assert(text[i] == r[i - 1]);
            }
        }
    } else {
        assert(text.skip(0) =~= text);
    }
}

/// There is always something to check: where no line of one's own is a target,
/// the list is the one of the first start.
pub proof fn the_list_is_ones_own_where_there_is_one(s: SettingsView)
    ensures
        accepted(all_cleaned(s.targets)).len() > 0 ==> s.list() == accepted(all_cleaned(s.targets)),
        accepted(all_cleaned(s.targets)).len() == 0 ==> s.list() == accepted(
            all_cleaned(default_lines()),
        ),
        s.targets.len() == 0 ==> s.list() == accepted(all_cleaned(default_lines())),
{
}

} // verus!
