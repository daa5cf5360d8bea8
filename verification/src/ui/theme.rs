//! The colours shared by all parts of the window, as red, green and blue.

use vstd::prelude::*;
use crate::model::Status;

verus! {

pub const BG: u32 = 0x10141F;
pub const PANEL: u32 = 0x181F30;
pub const OUTLINE: u32 = 0x2A354D;
pub const TEXT: u32 = 0xE6EAF2;
pub const TEXT_DIM: u32 = 0x939FB8;

pub const OK: u32 = 0x3DDC97;
pub const WARN: u32 = 0xF5C042;
pub const FAIL: u32 = 0xF2625F;
pub const BUSY: u32 = 0x58A6FF;
pub const IDLE: u32 = 0x5A667E;

/// The three parts of a colour.
pub fn rgb(colour: u32) -> (r: [u8; 3])
    ensures
        r@ == seq![
            ((colour / 65536) % 256) as u8,
            ((colour / 256) % 256) as u8,
            (colour % 256) as u8,
        ],
{
    let r = [((colour / 65536) % 256) as u8, ((colour / 256) % 256) as u8, (colour % 256) as u8];
    assert(r@ =~= seq![
        ((colour / 65536) % 256) as u8,
        ((colour / 256) % 256) as u8,
        (colour % 256) as u8,
    ]);
    r
}

pub open spec fn colour_of(status: Status) -> u32 {
    match status {
        Status::Good => OK,
        Status::Warn => WARN,
        Status::Fail => FAIL,
        Status::Running => BUSY,
        Status::Pending | Status::Skipped => IDLE,
    }
}

pub fn status_color(status: Status) -> (r: u32)
    ensures
        r == colour_of(status),
{
    match status {
        Status::Good => OK,
        Status::Warn => WARN,
        Status::Fail => FAIL,
        Status::Running => BUSY,
        Status::Pending | Status::Skipped => IDLE,
    }
}

/// The colour of a message: of one that went wrong, or of one that went well.
pub fn message_color(failed: bool) -> (r: u32)
    ensures
        r == (if failed {
            FAIL
        } else {
            OK
        }),
{
    if failed {
        FAIL
    } else {
        OK
    }
}

/// What the colours mean: green for what works, amber for a warning, red for a
/// failure, blue for what is under way, grey for what did not take place.
pub proof fn colours_have_their_meaning(status: Status)
    ensures
        colour_of(status) == 0x3DDC97 <==> status is Good,
        colour_of(status) == 0xF5C042 <==> status is Warn,
        colour_of(status) == 0xF2625F <==> status is Fail,
        colour_of(status) == 0x58A6FF <==> status is Running,
        colour_of(status) == 0x5A667E <==> status is Pending || status is Skipped,
{
}

} // verus!
