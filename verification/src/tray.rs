//! The tray icon: its colour, its hint and its menu.
//!
//! The program is of use exactly when the connection is lost, and then nobody
//! starts it. So it has to be running already, quietly: the colour of the icon
//! shows the state of the connection.

use vstd::prelude::*;
use vstd::string::StringExecFns;
use tray_icon::{BadIcon, Icon};
use crate::logo::{is_picture, one_colour, render_tinted};
use crate::monitor::Health;
use crate::text::same;

verus! {

/// What the user chose in the menu.
#[derive(Debug, Clone, Copy, PartialEq, Eq, Structural)]
pub enum Command {
    Open,
    CheckNow,
    ToggleMonitor,
    ToggleAutostart,
    Quit,
}

/// The colour of the icon.
pub open spec fn colour(health: Health, monitoring: bool) -> Seq<u8> {
    if !monitoring {
        seq![0x8Au8, 0x93, 0xA6]
    } else {
        match health {
            Health::Good => seq![0x3Du8, 0xDC, 0x97],
            Health::Degraded => seq![0xF5u8, 0xC0, 0x42],
            Health::Down => seq![0xF2u8, 0x62, 0x5F],
            Health::Unknown => seq![0x58u8, 0xA6, 0xFF],
        }
    }
}

/// The colour of the icon for a state of the connection; grey where watching is
/// off. There is always a hint in words beside it: colour alone would be of no
/// use to those who do not tell colours apart.
pub fn tint(health: Health, monitoring: bool) -> (r: [u8; 3])
    ensures
        r@ == colour(health, monitoring),
{
    let r: [u8; 3] = if !monitoring {
        [0x8A, 0x93, 0xA6]
    } else {
        match health {
            Health::Good => [0x3D, 0xDC, 0x97],
            Health::Degraded => [0xF5, 0xC0, 0x42],
            Health::Down => [0xF2, 0x62, 0x5F],
            Health::Unknown => [0x58, 0xA6, 0xFF],
        }
    };
    assert(r@ =~= colour(health, monitoring));
    r
}

/// Colours tell states apart: while watching, different states have different
/// colours, and none of them is the colour of watching switched off.
pub proof fn colours_tell_states_apart(a: Health, b: Health)
    ensures
        a != b ==> colour(a, true) != colour(b, true),
        colour(a, false) != colour(b, true),
{
    assert(colour(a, true)[0] == colour(b, true)[0] ==> a == b);
    assert(colour(a, false)[0] != colour(b, true)[0]);
}

// ---------------------------------------------------------------------------
// The picture
// ---------------------------------------------------------------------------

/// The icon of `tray_icon`. On some systems it is a handle of the system.
#[verifier::external_type_specification]
#[verifier::external_body]
pub struct ExIcon(Icon);

/// The reason for which `tray_icon` makes no icon.
#[verifier::external_type_specification]
#[verifier::external_body]
pub struct ExBadIcon(BadIcon);

/// The bytes, the width and the height that an icon was made of.
pub uninterp spec fn picture_of(icon: Icon) -> (Seq<u8>, u32, u32);

/// `tray_icon::Icon::from_rgba`: an icon is made of four bytes for each pixel,
/// and only where the bytes fill the width and the height. Where they do, it is
/// still up to the system whether there will be an icon. The function multiplies
/// the width by the height, and the product has to fit.
pub assume_specification[ Icon::from_rgba ](rgba: Vec<u8>, width: u32, height: u32) -> (r: Result<
    Icon,
    BadIcon,
>)
    requires
        width * height <= u32::MAX,
    ensures
        rgba@.len() != 4 * (width * height) ==> r is Err,
        r matches Ok(icon) ==> picture_of(icon) == (rgba@, width, height),
;

/// The text of `tray_icon::BadIcon`, by its `Display`. It may quote the system,
/// in the system's language, so nothing is claimed of it.
#[verifier::external_body]
fn told(error: &BadIcon) -> String {
    error.to_string()
}

/// What is made of the answer of `tray_icon`: the icon, or the reason in words.
pub fn icon_or_reason(answer: Result<Icon, BadIcon>) -> (r: Result<Icon, String>)
    ensures
        match answer {
            Ok(icon) => r == Ok::<Icon, String>(icon),
            Err(_) => r is Err,
        },
{
    match answer {
        Ok(icon) => Ok(icon),
        Err(e) => Err(told(&e)),
    }
}

/// The side of the icon in pixels.
pub const ICON_SIZE: u32 = 32;

/// The icon in a colour. The bytes fill the icon, so it is only for the system
/// to refuse it.
pub fn make_icon(colour: [u8; 3]) -> (r: Result<Icon, String>)
    ensures
        r matches Ok(icon) ==> {
            let (pixels, width, height) = picture_of(icon);
            &&& width == ICON_SIZE
            &&& height == ICON_SIZE
            &&& is_picture(pixels, ICON_SIZE as int, one_colour(colour))
        },
{
    let image = render_tinted(ICON_SIZE, colour);
    icon_or_reason(Icon::from_rgba(image.pixels, image.width, image.height))
}

// ---------------------------------------------------------------------------
// The hint and the menu
// ---------------------------------------------------------------------------

pub open spec fn hint(health: Health, monitoring: bool, summary: Seq<char>) -> Seq<char> {
    if monitoring {
        "Netchecker — "@ + health.title_text() + "\n"@ + summary
    } else {
        "Netchecker — наблюдение выключено"@
    }
}

/// The hint over the icon.
pub fn tooltip(health: Health, monitoring: bool, summary: &str) -> (r: String)
    ensures
        r@ == hint(health, monitoring, summary@),
{
    if monitoring {
        String::from_str("Netchecker — ").concat(health.title()).concat("\n").concat(summary)
    } else {
        String::from_str("Netchecker — наблюдение выключено")
    }
}

/// The icon as it was last drawn.
#[derive(Debug)]
pub struct Drawn {
    pub colour: [u8; 3],
    pub tooltip: String,
}

/// Brings the icon in line with the state. It is called for every frame, but
/// there is something to draw only where something changed: a flickering icon
/// is noticed.
pub fn redraw(drawn: &Option<Drawn>, health: Health, monitoring: bool, summary: &str) -> (r: Option<
    Drawn,
>)
    ensures
        ({
            let same_as_before = drawn matches Some(d) && d.colour@ == colour(health, monitoring)
                && d.tooltip@ == hint(health, monitoring, summary@);
            match r {
                Some(d) => !same_as_before && d.colour@ == colour(health, monitoring)
                    && d.tooltip@ == hint(health, monitoring, summary@),
                None => same_as_before,
            }
        }),
{
    let colour = tint(health, monitoring);
    let text = tooltip(health, monitoring, summary);
    match drawn {
        Some(d) => {
            let equal = d.colour[0] == colour[0] && d.colour[1] == colour[1] && d.colour[2]
                == colour[2];
            proof {
                if equal {
                    assert(d.colour@ =~= colour@);
                }
            }
            if equal && same(d.tooltip.as_str(), text.as_str()) {
                return None;
            }
        },
        None => {},
    }
    Some(Drawn { colour, tooltip: text })
}

/// The identifiers of the menu's items.
#[derive(Debug)]
pub struct MenuIds {
    pub open: String,
    pub check: String,
    pub monitor: String,
    pub autostart: String,
    pub quit: String,
}

/// What an item of the menu stands for.
pub open spec fn command_of(id: Seq<char>, ids: MenuIds) -> Option<Command> {
    if id == ids.open@ {
        Some(Command::Open)
    } else if id == ids.check@ {
        Some(Command::CheckNow)
    } else if id == ids.monitor@ {
        Some(Command::ToggleMonitor)
    } else if id == ids.autostart@ {
        Some(Command::ToggleAutostart)
    } else if id == ids.quit@ {
        Some(Command::Quit)
    } else {
        None
    }
}

impl MenuIds {
    pub fn command(&self, id: &str) -> (r: Option<Command>)
        ensures
            r == command_of(id@, *self),
    {
        if same(id, self.open.as_str()) {
            Some(Command::Open)
        } else if same(id, self.check.as_str()) {
            Some(Command::CheckNow)
        } else if same(id, self.monitor.as_str()) {
            Some(Command::ToggleMonitor)
        } else if same(id, self.autostart.as_str()) {
            Some(Command::ToggleAutostart)
        } else if same(id, self.quit.as_str()) {
            Some(Command::Quit)
        } else {
            None
        }
    }
}

/// What menu events stand for, in their order.
pub open spec fn commands_of(events: Seq<String>, ids: MenuIds) -> Seq<Command>
    decreases events.len(),
{
    if events.len() == 0 {
        Seq::empty()
    } else {
        match command_of(events.last()@, ids) {
            Some(c) => commands_of(events.drop_last(), ids).push(c),
            None => commands_of(events.drop_last(), ids),
        }
    }
}

/// What gathered menu events and double clicks on the icon stand for. A double
/// click is the usual way to bring the window back.
pub fn poll(events: &Vec<String>, double_clicks: usize, ids: &MenuIds) -> (r: Vec<Command>)
    ensures
        r@ == commands_of(events@, *ids) + Seq::new(
            double_clicks as nat,
            |i: int| Command::Open,
        ),
{
    let mut out: Vec<Command> = Vec::new();
    let mut i: usize = 0;
    assert(events@.take(0) =~= Seq::<String>::empty());
    while i < events.len()
        invariant
            i <= events@.len(),
            out@ == commands_of(events@.take(i as int), *ids),
        decreases events@.len() - i,
    {
        assert(events@.take(i + 1).drop_last() =~= events@.take(i as int));
        assert(events@.take(i + 1).last() == events@[i as int]);
        match ids.command(events[i].as_str()) {
            Some(c) => {
                out.push(c);
            },
            None => {},
        }
        i += 1;
    }
    assert(events@.take(i as int) =~= events@);
    let ghost chosen = out@;
    let mut k: usize = 0;
    assert(chosen + Seq::new(0, |i: int| Command::Open) =~= chosen);
    while k < double_clicks
        invariant
            k <= double_clicks,
            out@ == chosen + Seq::new(k as nat, |i: int| Command::Open),
        decreases double_clicks - k,
    {
        out.push(Command::Open);
        assert(out@ =~= chosen + Seq::new((k + 1) as nat, |i: int| Command::Open));
        k += 1;
    }
    out
}

/// An item of the menu gives its own command, where no two items have the same
/// identifier; an unknown identifier gives none.
pub proof fn items_give_their_commands(id: Seq<char>, ids: MenuIds)
    requires
        ids.open@ != ids.check@ && ids.open@ != ids.monitor@ && ids.open@ != ids.autostart@
            && ids.open@ != ids.quit@,
        ids.check@ != ids.monitor@ && ids.check@ != ids.autostart@ && ids.check@ != ids.quit@,
        ids.monitor@ != ids.autostart@ && ids.monitor@ != ids.quit@ && ids.autostart@ != ids.quit@,
    ensures
        command_of(id, ids) == Some(Command::Open) <==> id == ids.open@,
        command_of(id, ids) == Some(Command::CheckNow) <==> id == ids.check@,
        command_of(id, ids) == Some(Command::ToggleMonitor) <==> id == ids.monitor@,
        command_of(id, ids) == Some(Command::ToggleAutostart) <==> id == ids.autostart@,
        command_of(id, ids) == Some(Command::Quit) <==> id == ids.quit@,
{
}

/// The colours: green for a good connection, yellow for an unsteady one, red for
/// none, blue while nothing is known, and grey, with no colour above the others
/// by much, where watching is off.
pub proof fn colours_mean_what_they_do_everywhere(health: Health)
    ensures
        ({
            let c = colour(health, true);
            &&& c.len() == 3
            &&& health == Health::Good ==> c[1] > c[0] && c[1] > c[2]
            &&& health == Health::Degraded ==> c[0] > c[2] + 100 && c[1] > c[2] + 100
            &&& health == Health::Down ==> c[0] > c[1] + 100 && c[0] > c[2] + 100
            &&& health == Health::Unknown ==> c[2] > c[0] && c[2] > c[1]
            &&& colour(health, false) == seq![0x8Au8, 0x93, 0xA6]
        }),
{
}

/// The hint tells the state and the figures while watching goes on, and that it
/// is off otherwise, whatever was seen last.
pub proof fn the_hint_tells_the_state(health: Health, summary: Seq<char>)
    ensures
        hint(health, true, summary) == "Netchecker — "@ + health.title_text() + "\n"@ + summary,
        hint(health, false, summary) == "Netchecker — наблюдение выключено"@,
{
}

/// The icon and the window show a state in the same colour.
pub proof fn the_icon_has_exact_colours(health: Health)
    ensures
        colour(health, false) == seq![0x8Au8, 0x93, 0xA6],
        health is Good ==> colour(health, true) == seq![0x3Du8, 0xDC, 0x97],
        health is Degraded ==> colour(health, true) == seq![0xF5u8, 0xC0, 0x42],
        health is Down ==> colour(health, true) == seq![0xF2u8, 0x62, 0x5F],
        health is Unknown ==> colour(health, true) == seq![0x58u8, 0xA6, 0xFF],
{
}

} // verus!
