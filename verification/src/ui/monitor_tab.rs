//! Watching on the screen: the curve of delays and the journal of outages.
//!
//! By one number nobody can tell whether a line is stable. The shape of the
//! curve shows what the watching is for: regular gaps, steps, growth under
//! load.

use vstd::prelude::*;
use vstd::string::StringExecFns;
use crate::monitor::{Health, Outage, OutageView, Sample, Snapshot};
use crate::text::{dec, dec2, decimal, decimal2};
use crate::time::{Duration, SystemTime};
use super::theme;

verus! {

/// What stands in the journal as long as there is nothing to enter.
pub const NO_OUTAGES: &'static str = "Обрывов не было.";

/// The delay from which on the scale of the curve grows: one millisecond.
pub const LEAST_SCALE: u128 = 1_000_000;

pub open spec fn colour_of(health: Health, running: bool) -> u32 {
    if !running {
        theme::IDLE
    } else {
        match health {
            Health::Good => theme::OK,
            Health::Degraded => theme::WARN,
            Health::Down => theme::FAIL,
            Health::Unknown => theme::BUSY,
        }
    }
}

/// The colour of the state. Watching that is switched off looks neutral,
/// whatever it saw last.
pub fn health_color(health: Health, running: bool) -> (r: u32)
    ensures
        r == colour_of(health, running),
{
    if !running {
        return theme::IDLE;
    }
    match health {
        Health::Good => theme::OK,
        Health::Degraded => theme::WARN,
        Health::Down => theme::FAIL,
        Health::Unknown => theme::BUSY,
    }
}

/// The words on the button.
pub fn button(running: bool) -> (r: &'static str)
    ensures
        r@ == (if running {
            "Выключить наблюдение"@
        } else {
            "Включить наблюдение"@
        }),
{
    if running {
        "Выключить наблюдение"
    } else {
        "Включить наблюдение"
    }
}

/// How often samples are taken, in words.
pub fn pace(interval: u64) -> (r: String)
    ensures
        r@ == "опрос раз в "@ + dec(interval as nat) + " с"@,
{
    String::from_str("опрос раз в ").concat(decimal(interval as u128).as_str()).concat(" с")
}

// ---------------------------------------------------------------------------
// The journal
// ---------------------------------------------------------------------------

/// The start of 1970.
pub open spec fn epoch() -> SystemTime {
    SystemTime { secs: 0, nanos: 0 }
}

/// Seconds since the start of the day, in UTC.
pub open spec fn second_of_day(at: SystemTime) -> nat {
    match at.since(epoch()) {
        Some(n) => n / 1_000_000_000 % 86_400,
        None => 0,
    }
}

/// A moment as hours, minutes and seconds.
pub open spec fn clock(at: SystemTime) -> Seq<char> {
    let s = second_of_day(at);
    dec2(s / 3600) + ":"@ + dec2(s % 3600 / 60) + ":"@ + dec2(s % 60) + " UTC"@
}

/// The time of day. The date is left out: outages are looked at on the day on
/// which they happen.
pub fn local_time(at: SystemTime) -> (r: String)
    ensures
        r@ == clock(at),
{
    let secs: u128 = match at.duration_since(SystemTime::from_unix(0, 0)) {
        Some(d) => d.as_secs(),
        None => 0,
    };
    let day: u128 = secs % 86_400;
    decimal2(day / 3600).concat(":").concat(decimal2(day % 3600 / 60).as_str()).concat(":").concat(
        decimal2(day % 60).as_str(),
    ).concat(" UTC")
}

/// How long an outage lasted, in words: whole seconds, but no outage took no
/// time.
pub open spec fn lasted(o: OutageView) -> Seq<char> {
    match o.ended {
        Some(end) => match end.since(o.started) {
            Some(n) => {
                let secs = n / 1_000_000_000;
                dec(
                    if secs < 1 {
                        1
                    } else {
                        secs
                    },
                ) + " с"@
            },
            None => "продолжается"@,
        },
        None => "продолжается"@,
    }
}

pub open spec fn entry(o: OutageView) -> Seq<char> {
    clock(o.started) + " — "@ + lasted(o) + " · "@ + o.reason
}

fn write_entry(o: &Outage) -> (r: String)
    ensures
        r@ == entry(o@),
{
    let duration = match o.duration() {
        Some(d) => {
            let secs = d.as_secs();
            let shown: u128 = if secs < 1 {
                1
            } else {
                secs
            };
            decimal(shown).concat(" с")
        },
        None => "продолжается".to_owned(),
    };
    local_time(o.started).concat(" — ").concat(duration.as_str()).concat(" · ").concat(
        o.reason.as_str(),
    )
}

/// The lines of the journal, the latest outage first: it is the one that is
/// asked about.
pub fn journal(snapshot: &Snapshot) -> (r: Vec<String>)
    ensures
        r@.len() == snapshot@.outages.len(),
        forall|i: int|
            0 <= i < r@.len() ==> (#[trigger] r@[i])@ == entry(
                snapshot@.outages[snapshot@.outages.len() - 1 - i],
            ),
{
    let mut out: Vec<String> = Vec::new();
    let total: usize = snapshot.outages.len();
    let mut i: usize = 0;
    while i < total
        invariant
            total == snapshot.outages@.len(),
            i <= total,
            out@.len() == i,
            forall|k: int|
                0 <= k < i ==> (#[trigger] out@[k])@ == entry(
                    snapshot@.outages[snapshot@.outages.len() - 1 - k],
                ),
        decreases total - i,
    {
        out.push(write_entry(&snapshot.outages[total - 1 - i]));
        i += 1;
    }
    out
}

// ---------------------------------------------------------------------------
// The curve
// ---------------------------------------------------------------------------

/// What is drawn of the samples. Losses are bars of the full height: on a line
/// they would not be seen, and they are what is looked for.
#[derive(Debug)]
pub struct Curve {
    /// Stretches of answered samples, from the first one to behind the last one.
    /// A single point makes no line.
    pub lines: Vec<(usize, usize)>,
    /// The positions of the losses.
    pub losses: Vec<usize>,
    /// The delay at the top of the scale.
    pub top: Duration,
}

/// Whether samples from one position to behind another were all answered, and
/// no further one at either end was.
pub open spec fn is_stretch(samples: Seq<Sample>, from: int, to: int) -> bool {
    &&& 0 <= from < to <= samples.len()
    &&& forall|k: int| from <= k < to ==> !(#[trigger] samples[k]).is_lost()
    &&& from == 0 || samples[from - 1].is_lost()
    &&& to == samples.len() || samples[to].is_lost()
}

/// The stretches of two and more samples that end before a position, in order.
pub open spec fn are_lines(lines: Seq<(usize, usize)>, samples: Seq<Sample>, until: int) -> bool {
    &&& forall|i: int|
        0 <= i < lines.len() ==> {
            let (from, to) = #[trigger] lines[i];
            is_stretch(samples, from as int, to as int) && to - from >= 2 && to < until
        }
    &&& forall|i: int, j: int|
        0 <= i < j < lines.len() ==> (#[trigger] lines[i]).1 <= (#[trigger] lines[j]).0
    &&& forall|from: int, to: int|
        #[trigger] is_stretch(samples, from, to) && to - from >= 2 && to < until ==> exists|i: int|
            0 <= i < lines.len() && (#[trigger] lines[i]).0 == from && lines[i].1 == to
}

/// The positions of the losses before a position, in order.
pub open spec fn are_losses(losses: Seq<usize>, samples: Seq<Sample>, until: int) -> bool {
    &&& forall|i: int|
        0 <= i < losses.len() ==> (#[trigger] losses[i]) < until && samples[losses[i] as int].is_lost()
    &&& forall|i: int, j: int|
        0 <= i < j < losses.len() ==> (#[trigger] losses[i]) < (#[trigger] losses[j])
    &&& forall|k: int|
        0 <= k < until && (#[trigger] samples[k]).is_lost() ==> exists|i: int|
            0 <= i < losses.len() && #[trigger] losses[i] == k
}

/// The longest delay, but not less than a millisecond.
pub open spec fn scale(samples: Seq<Sample>) -> u128
    decreases samples.len(),
{
    if samples.len() == 0 {
        LEAST_SCALE
    } else {
        let before = scale(samples.drop_last());
        match samples.last().rtt {
            Some(t) => if t.nanos > before {
                t.nanos
            } else {
                before
            },
            None => before,
        }
    }
}

/// Lays the samples out.
pub fn curve(samples: &Vec<Sample>) -> (r: Curve)
    ensures
        are_lines(r.lines@, samples@, 1 + samples@.len() as int),
        are_losses(r.losses@, samples@, samples@.len() as int),
        r.top.nanos == scale(samples@),
{
    let total: usize = samples.len();
    let mut lines: Vec<(usize, usize)> = Vec::new();
    let mut losses: Vec<usize> = Vec::new();
    let mut top: u128 = LEAST_SCALE;
    let mut from: usize = 0;
    let mut i: usize = 0;
    assert(samples@.take(0) =~= Seq::<Sample>::empty());
    while i < total
        invariant
            total == samples@.len(),
            from <= i <= total,
            forall|k: int| from <= k < i ==> !(#[trigger] samples@[k]).is_lost(),
            from == 0 || samples@[from - 1].is_lost(),
            forall|k: int| 0 <= k < lines@.len() ==> (#[trigger] lines@[k]).1 < from,
            are_lines(lines@, samples@, from as int),
            are_losses(losses@, samples@, i as int),
            top == scale(samples@.take(i as int)),
        decreases total - i,
    {
        assert(samples@.take(i + 1).drop_last() =~= samples@.take(i as int));
        assert(samples@.take(i + 1).last() == samples@[i as int]);
        match samples[i].rtt {
            Some(t) => {
                if t.nanos > top {
                    top = t.nanos;
                }
            },
            None => {
                let ghost was = lines@;
                if i - from >= 2 {
                    lines.push((from, i));
                }
                proof {
                    lemma_one_more_stretch(was, lines@, samples@, from as int, i as int);
                }
                let ghost seen = losses@;
                losses.push(i);
                proof {
                    assert(losses@[seen.len() as int] == i);
                    assert forall|k: int| 0 <= k < i + 1 && (#[trigger] samples@[k]).is_lost()
                        implies exists|j: int|
                        0 <= j < losses@.len() && #[trigger] losses@[j] == k by {
                        if k < i {
                            let j = choose|j: int| 0 <= j < seen.len() && #[trigger] seen[j] == k;
                            assert(losses@[j] == k);
                        }
                    }
                }
                from = i + 1;
            },
        }
        i += 1;
    }
    let ghost was = lines@;
    if total - from >= 2 {
        lines.push((from, total));
    }
    proof {
        lemma_one_more_stretch(was, lines@, samples@, from as int, total as int);
        assert(samples@.take(total as int) =~= samples@);
    }
    Curve { lines, losses, top: Duration::from_nanos(top) }
}

/// The stretch that ends at a position joins those before it, if it is long
/// enough to make a line.
proof fn lemma_one_more_stretch(
    was: Seq<(usize, usize)>,
    lines: Seq<(usize, usize)>,
    samples: Seq<Sample>,
    from: int,
    to: int,
)
    requires
        0 <= from <= to <= samples.len(),
        to <= usize::MAX,
        forall|k: int| from <= k < to ==> !(#[trigger] samples[k]).is_lost(),
        from == 0 || samples[from - 1].is_lost(),
        to == samples.len() || samples[to].is_lost(),
        forall|k: int| 0 <= k < was.len() ==> (#[trigger] was[k]).1 < from,
        are_lines(was, samples, from),
        lines == (if to - from >= 2 {
            was.push((from as usize, to as usize))
        } else {
            was
        }),
    ensures
        are_lines(lines, samples, to + 1),
        forall|k: int| 0 <= k < lines.len() ==> (#[trigger] lines[k]).1 < to + 1,
{
    assert forall|i: int| 0 <= i < lines.len() implies ({
        let (a, b) = #[trigger] lines[i];
        is_stretch(samples, a as int, b as int) && b - a >= 2 && b < to + 1
    }) by {
        if i < was.len() {
            assert(lines[i] == was[i]);
        } else {
            assert(is_stretch(samples, from, to));
        }
    }
    assert forall|i: int, j: int| 0 <= i < j < lines.len() implies (#[trigger] lines[i]).1 <= (
    #[trigger] lines[j]).0 by {
        assert(lines[i] == was[i]);
        if j < was.len() {
            assert(lines[j] == was[j]);
        }
    }
    assert forall|a: int, b: int|
        #[trigger] is_stretch(samples, a, b) && b - a >= 2 && b < to + 1 implies exists|i: int|
        0 <= i < lines.len() && (#[trigger] lines[i]).0 == a && lines[i].1 == b by {
        if b < from {
            let i = choose|i: int|
                0 <= i < was.len() && (#[trigger] was[i]).0 == a && was[i].1 == b;
            assert(lines[i] == was[i]);
        } else {
            // The stretch reaches into the one that begins at `from`.
            if b == from {
                assert(!samples[b - 1].is_lost());
                assert(false);
            }
            if b < to {
                assert(samples[b].is_lost());
                assert(false);
            }
            if a > from {
                assert(samples[a - 1].is_lost());
                assert(false);
            }
            if a < from {
                assert(!samples[from - 1].is_lost());
                assert(false);
            }
            assert(lines[was.len() as int] == (from as usize, to as usize));
        }
    }
}

/// The colours of watching: green, amber and red while it runs and knows, blue
/// while it does not know yet, grey while it does not run.
pub proof fn watching_has_its_colours(health: Health, running: bool)
    ensures
        !running ==> colour_of(health, running) == 0x5A667E,
        running && health is Good ==> colour_of(health, running) == 0x3DDC97,
        running && health is Degraded ==> colour_of(health, running) == 0xF5C042,
        running && health is Down ==> colour_of(health, running) == 0xF2625F,
        running && health is Unknown ==> colour_of(health, running) == 0x58A6FF,
{
}

/// The clock shows the moment: hours, minutes and seconds add up to the seconds
/// since midnight, and a day later it shows the same.
pub proof fn the_clock_shows_the_moment(at: SystemTime, days: nat, h: nat, m: nat, s: nat)
    requires
        h < 24,
        m < 60,
        s < 60,
        at.nanos < 1_000_000_000,
        at.secs == 86_400 * days + 3600 * h + 60 * m + s,
    ensures
        second_of_day(at) == 3600 * h + 60 * m + s,
        clock(at) == dec2(h) + ":"@ + dec2(m) + ":"@ + dec2(s) + " UTC"@,
{
    let n = at.secs * 1_000_000_000 + at.nanos;
    assert(n / 1_000_000_000 == at.secs) by (nonlinear_arith)
        requires
            n == at.secs * 1_000_000_000 + at.nanos,
            0 <= at.nanos < 1_000_000_000,
    ;
    let r = 3600 * h + 60 * m + s;
    assert(at.secs as int % 86_400 == r) by (nonlinear_arith)
        requires
            at.secs == 86_400 * days + r,
            0 <= r < 86_400,
    ;
    assert(r / 3600 == h);
    assert(r % 3600 / 60 == m);
    assert(r % 60 == s);
}

/// An outage is written with whole seconds, at least one. It goes on where it
/// has not ended.
pub proof fn outages_take_whole_seconds(o: OutageView)
    ensures
        o.ended is None ==> lasted(o) == "продолжается"@,
        o.ended matches Some(end) ==> {
            let n = end.total() - o.started.total();
            &&& n < 0 ==> lasted(o) == "продолжается"@
            &&& 0 <= n < 1_000_000_000 ==> lasted(o) == dec(1) + " с"@
            &&& n >= 1_000_000_000 ==> lasted(o) == dec((n / 1_000_000_000) as nat) + " с"@
        },
{
}

/// The scale of the curve holds every delay and is no larger than it must be:
/// one millisecond, or the longest delay.
pub proof fn the_scale_is_the_longest_delay(samples: Seq<Sample>)
    ensures
        scale(samples) >= 1_000_000,
        forall|i: int|
            0 <= i < samples.len() && (#[trigger] samples[i]).rtt is Some ==> (
            samples[i].rtt->0).nanos <= scale(samples),
        scale(samples) == 1_000_000 || exists|i: int|
            0 <= i < samples.len() && (#[trigger] samples[i]).rtt is Some && (
            samples[i].rtt->0).nanos == scale(samples),
    decreases samples.len(),
{
    if samples.len() > 0 {
        let before = samples.drop_last();
        the_scale_is_the_longest_delay(before);
        assert forall|i: int|
            0 <= i < samples.len() && (#[trigger] samples[i]).rtt is Some implies (
        samples[i].rtt->0).nanos <= scale(samples) by {
            if i < before.len() {
                assert(samples[i] == before[i]);
            }
        }
        if scale(samples) == scale(before) && scale(before) != 1_000_000 {
            let i = choose|i: int|
                0 <= i < before.len() && (#[trigger] before[i]).rtt is Some && (
                before[i].rtt->0).nanos == scale(before);
            assert(samples[i] == before[i]);
        } else if scale(samples) != scale(before) {
            assert(samples[samples.len() - 1] == samples.last());
        }
    }
}

} // verus!
