//! Watching the connection in the background.
//!
//! A single diagnosis says how things are now, but the worst problems come and
//! go: the connection is lost for a minute every hour, and when it is checked
//! everything is in order. Only watching catches that.
//!
//! Samples go into a ring, and the passages between working and not working
//! into a journal of outages: what a person wants to know is when the
//! connection was lost and for how long.

use vstd::prelude::*;
use vstd::relations::{sorted_by, total_ordering};
use vstd::seq_lib::{lemma_sorted_unique, to_multiset_build, to_multiset_insert, to_multiset_len};
use vstd::string::StringExecFns;
use std::collections::VecDeque;
use crate::engine::icmp::{Reply, ReplyKind};
use crate::engine::probe::TcpOutcome;
use crate::engine::trace::{format_rtt, rtt_text};
use crate::net::Ipv4Addr;
use crate::privileged::Capabilities;
use crate::text::{dec, decimal};
use crate::time::{Duration, SystemTime};

verus! {

/// How many samples are kept. At one in fifteen seconds this is a little over
/// two hours: enough to see a pattern.
pub const HISTORY: usize = 512;

/// How many of the last samples an assessment looks at.
pub const WINDOW: usize = 10;

/// How long a probe waits, in milliseconds.
pub const PROBE_TIMEOUT_MS: u64 = 1500;

/// The part of samples, one in so many, above which losses make a connection
/// unstable.
pub const LOSS_PART: u128 = 5;

/// How many times a delay has to exceed the usual one to be called a spike.
pub const LATENCY_FACTOR: u128 = 3;

/// The node that is watched. It is not one of the targets: what is watched is
/// the connection as such.
pub fn anchor() -> (r: Ipv4Addr)
    ensures
        r == (Ipv4Addr { a: 1, b: 1, c: 1, d: 1 }),
{
    Ipv4Addr::new(1, 1, 1, 1)
}

/// One sample.
#[derive(Debug, Clone, Copy, PartialEq, Eq, Structural)]
pub struct Sample {
    pub at: SystemTime,
    /// The response time. None where there was no answer.
    pub rtt: Option<Duration>,
}

impl Sample {
    pub open spec fn is_lost(self) -> bool {
        self.rtt is None
    }

    pub fn lost(&self) -> (r: bool)
        ensures
            r == self.is_lost(),
    {
        self.rtt.is_none()
    }

    /// The sample that an echo gives. No time means less than a millisecond,
    /// not that nothing was measured.
    pub fn from_reply(at: SystemTime, reply: &Reply) -> (r: Self)
        ensures
            r.at == at,
            r.rtt == (if reply.kind == ReplyKind::Echo {
                match reply.rtt {
                    Some(t) => Some(t),
                    None => Some(Duration { nanos: 0 }),
                }
            } else {
                None
            }),
    {
        let rtt = if reply.kind == ReplyKind::Echo {
            match reply.rtt {
                Some(t) => Some(t),
                None => Some(Duration::zero()),
            }
        } else {
            None
        };
        Sample { at, rtt }
    }

    /// The sample that connecting gives, where echoes cannot be sent. The
    /// number is larger than the delay of the network, but can be compared with
    /// itself.
    pub fn from_connection(at: SystemTime, outcome: &TcpOutcome, elapsed: Duration) -> (r: Self)
        ensures
            r.at == at,
            r.rtt == (if outcome@ is Open {
                Some(elapsed)
            } else {
                None
            }),
    {
        let rtt = if outcome.is_open() {
            Some(elapsed)
        } else {
            None
        };
        Sample { at, rtt }
    }
}

/// How the connection is assessed right now.
#[derive(Debug, Clone, Copy, PartialEq, Eq, Structural)]
pub enum Health {
    /// Watching is off, or has not gathered anything yet.
    Unknown,
    Good,
    /// There is a connection, but with losses or spikes.
    Degraded,
    /// There is no connection.
    Down,
}

impl Health {
    pub open spec fn title_text(self) -> Seq<char> {
        match self {
            Health::Unknown => "нет данных"@,
            Health::Good => "связь стабильна"@,
            Health::Degraded => "связь с перебоями"@,
            Health::Down => "связи нет"@,
        }
    }

    pub fn title(self) -> (r: &'static str)
        ensures
            r@ == self.title_text(),
    {
        match self {
            Health::Unknown => "нет данных",
            Health::Good => "связь стабильна",
            Health::Degraded => "связь с перебоями",
            Health::Down => "связи нет",
        }
    }
}

impl Default for Health {
    fn default() -> (r: Self)
        ensures
            r == Health::Unknown,
    {
        Health::Unknown
    }
}

/// An entry of the journal of outages.
#[derive(Debug)]
pub struct Outage {
    pub started: SystemTime,
    /// None while it lasts.
    pub ended: Option<SystemTime>,
    /// What could be found out about the reason.
    pub reason: String,
}

#[verifier::ext_equal]
pub struct OutageView {
    pub started: SystemTime,
    pub ended: Option<SystemTime>,
    pub reason: Seq<char>,
}

impl View for Outage {
    type V = OutageView;

    open spec fn view(&self) -> OutageView {
        OutageView { started: self.started, ended: self.ended, reason: self.reason@ }
    }
}

impl Outage {
    /// How long it lasted, if it is over.
    pub fn duration(&self) -> (r: Option<Duration>)
        ensures
            match r {
                Some(d) => self@.ended matches Some(end) && end.since(self@.started) == Some(
                    d.nanos as nat,
                ),
                None => self@.ended is None || self@.ended->0.since(self@.started) is None,
            },
    {
        match self.ended {
            Some(end) => end.duration_since(self.started),
            None => None,
        }
    }
}

impl Clone for Outage {
    fn clone(&self) -> (r: Self)
        ensures
            r@ == self@,
    {
        Outage { started: self.started, ended: self.ended, reason: self.reason.clone() }
    }
}

pub open spec fn outage_views(list: Seq<Outage>) -> Seq<OutageView> {
    list.map_values(|o: Outage| o@)
}

/// What the window and the tray icon see.
#[derive(Debug, Clone)]
pub struct Snapshot {
    pub samples: Vec<Sample>,
    pub outages: Vec<Outage>,
    pub health: Health,
    /// A short line for the hint over the tray icon.
    pub summary: String,
}

#[verifier::ext_equal]
pub struct StateView {
    pub samples: Seq<Sample>,
    pub outages: Seq<OutageView>,
    pub health: Health,
    pub summary: Seq<char>,
}

impl View for Snapshot {
    type V = StateView;

    open spec fn view(&self) -> StateView {
        StateView {
            samples: self.samples@,
            outages: outage_views(self.outages@),
            health: self.health,
            summary: self.summary@,
        }
    }
}

impl Default for Snapshot {
    fn default() -> (r: Self)
        ensures
            r@ == blank_state(),
    {
        let r = Snapshot {
            samples: Vec::new(),
            outages: Vec::new(),
            health: Health::Unknown,
            summary: String::new(),
        };
        assert(r@ =~= blank_state());
        r
    }
}

/// Nothing observed yet.
pub open spec fn blank_state() -> StateView {
    StateView {
        samples: Seq::empty(),
        outages: Seq::empty(),
        health: Health::Unknown,
        summary: Seq::empty(),
    }
}

/// How many samples were lost.
pub open spec fn lost_in(samples: Seq<Sample>) -> nat
    decreases samples.len(),
{
    if samples.len() == 0 {
        0
    } else {
        lost_in(samples.drop_last()) + (if samples.last().is_lost() {
            1nat
        } else {
            0
        })
    }
}

/// The last few samples.
pub open spec fn window(samples: Seq<Sample>) -> Seq<Sample> {
    if samples.len() <= WINDOW {
        samples
    } else {
        samples.skip(samples.len() - WINDOW)
    }
}

/// The response times of the samples that were answered, in nanoseconds.
pub open spec fn times_in(samples: Seq<Sample>) -> Seq<u128>
    decreases samples.len(),
{
    if samples.len() == 0 {
        Seq::empty()
    } else {
        match samples.last().rtt {
            Some(t) => times_in(samples.drop_last()).push(t.nanos),
            None => times_in(samples.drop_last()),
        }
    }
}

pub open spec fn ascending() -> spec_fn(u128, u128) -> bool {
    |a: u128, b: u128| a <= b
}

/// The usual response time: the middle one of all, in order.
pub open spec fn median(samples: Seq<Sample>) -> Option<u128> {
    let times = times_in(samples);
    if times.len() == 0 {
        None
    } else {
        Some(times.sort_by(ascending())[(times.len() / 2) as int])
    }
}

/// Whether the last two samples were lost.
pub open spec fn two_lost(samples: Seq<Sample>) -> bool {
    samples.len() >= 2 && samples[samples.len() - 1].is_lost() && samples[samples.len()
        - 2].is_lost()
}

/// Whether the last response took much longer than usual. What is usual depends
/// on the line: a satellite and a fibre have different norms.
pub open spec fn spiked(samples: Seq<Sample>) -> bool {
    match (median(samples), samples.last().rtt) {
        (Some(usual), Some(recent)) => usual > 0 && recent.nanos > usual * LATENCY_FACTOR,
        _ => false,
    }
}

/// The assessment.
pub open spec fn assessed(samples: Seq<Sample>) -> Health {
    let w = window(samples);
    if w.len() == 0 {
        Health::Unknown
    } else if two_lost(samples) || lost_in(w) == w.len() {
        Health::Down
    } else if lost_in(w) * LOSS_PART > w.len() || spiked(samples) {
        Health::Degraded
    } else {
        Health::Good
    }
}

/// The short line.
pub open spec fn summarised(samples: Seq<Sample>, health: Health) -> Seq<char> {
    let losses = "потерь "@ + dec(lost_in(samples)) + " из "@ + dec(samples.len());
    if samples.len() == 0 {
        "наблюдение только началось"@
    } else if health == Health::Down {
        "связи нет, "@ + losses
    } else {
        match samples.last().rtt {
            Some(t) => rtt_text(t) + ", "@ + losses,
            None => "последний запрос без ответа, "@ + losses,
        }
    }
}

/// The samples with one more; the oldest one goes where the ring is full.
pub open spec fn remembered(samples: Seq<Sample>, sample: Sample) -> Seq<Sample> {
    if samples.len() == HISTORY {
        samples.drop_first().push(sample)
    } else {
        samples.push(sample)
    }
}

/// The journal with its last entry ended, if it was not.
pub open spec fn closed_journal(
    outages: Seq<OutageView>,
    at: SystemTime,
    remark: Seq<char>,
) -> Seq<OutageView> {
    if outages.len() > 0 && outages.last().ended is None {
        outages.drop_last().push(
            OutageView {
                ended: Some(at),
                reason: outages.last().reason + remark,
                ..outages.last()
            },
        )
    } else {
        outages
    }
}

impl StateView {
    /// Whether the parts of a state fit together: the ring does not overflow,
    /// and exactly while there is no connection the last outage is open. All
    /// others are over.
    pub open spec fn well_formed(self) -> bool {
        &&& self.samples.len() <= HISTORY
        &&& self.health == Health::Down <==> self.outages.len() > 0
            && self.outages.last().ended is None
        &&& forall|i: int|
            0 <= i < self.outages.len() - 1 ==> (#[trigger] self.outages[i]).ended is Some
    }

    /// The state after a sample. The journal goes by passages and not by
    /// samples.
    pub open spec fn pushed(self, sample: Sample) -> StateView {
        let samples = remembered(self.samples, sample);
        let health = assessed(samples);
        StateView {
            samples,
            health,
            summary: summarised(samples, health),
            outages: if self.health != Health::Down && health == Health::Down {
                self.outages.push(
                    OutageView {
                        started: sample.at,
                        ended: None,
                        reason: "нет ответа от интернета"@,
                    },
                )
            } else if self.health == Health::Down && health != Health::Down {
                closed_journal(self.outages, sample.at, Seq::empty())
            } else {
                self.outages
            },
        }
    }

    /// The state after watching was switched off. An outage that lasts is ended:
    /// not because the connection came back but because nobody looks any more.
    pub open spec fn stopped(self, now: SystemTime) -> StateView {
        StateView {
            health: Health::Unknown,
            summary: "наблюдение выключено"@,
            outages: closed_journal(
                self.outages,
                now,
                " (наблюдение выключено до восстановления)"@,
            ),
            ..self
        }
    }
}

/// What has been observed.
#[derive(Debug)]
pub struct State {
    pub samples: VecDeque<Sample>,
    pub outages: Vec<Outage>,
    pub health: Health,
    pub summary: String,
}

impl View for State {
    type V = StateView;

    open spec fn view(&self) -> StateView {
        StateView {
            samples: self.samples@,
            outages: outage_views(self.outages@),
            health: self.health,
            summary: self.summary@,
        }
    }
}

impl Default for State {
    fn default() -> (r: Self)
        ensures
            r@ == blank_state(),
            r@.well_formed(),
    {
        let r = State {
            samples: VecDeque::new(),
            outages: Vec::new(),
            health: Health::Unknown,
            summary: String::new(),
        };
        assert(r@ =~= blank_state());
        r
    }
}

fn close_last(outages: &mut Vec<Outage>, at: SystemTime, remark: &str)
    ensures
        outage_views(final(outages)@) == closed_journal(outage_views(old(outages)@), at, remark@),
{
    let ghost was = outage_views(outages@);
    let n: usize = outages.len();
    if n > 0 && outages[n - 1].ended.is_none() {
        assert(was[n - 1] == outages@[n - 1]@);
        let last = outages[n - 1].clone();
        let ended = Outage {
            started: last.started,
            ended: Some(at),
            reason: last.reason.concat(remark),
        };
        outages.set(n - 1, ended);
        assert(outage_views(outages@) =~= closed_journal(was, at, remark@));
    } else {
        proof {
            if n > 0 {
                assert(was[n - 1] == outages@[n - 1]@);
            }
        }
    }
}

impl State {
    /// Takes in a sample.
    pub fn push(&mut self, sample: Sample)
        requires
            old(self)@.well_formed(),
        ensures
            final(self)@ == old(self)@.pushed(sample),
            final(self)@.well_formed(),
    {
        let ghost before = self@;
        if self.samples.len() == HISTORY {
            self.samples.pop_front();
            assert(self.samples@ =~= before.samples.drop_first());
        }
        self.samples.push_back(sample);
        assert(self.samples@ =~= remembered(before.samples, sample));
        let previous = self.health;
        self.health = evaluate(&self.samples);
        self.summary = describe(&self.samples, self.health);
        if previous != Health::Down && self.health == Health::Down {
            let ghost was = self.outages@;
            self.outages.push(
                Outage {
                    started: sample.at,
                    ended: None,
                    reason: String::from_str("нет ответа от интернета"),
                },
            );
            assert(outage_views(self.outages@) =~= before.pushed(sample).outages);
        } else if previous == Health::Down && self.health != Health::Down {
            proof {
                reveal_strlit("");
                assert(""@ =~= Seq::<char>::empty());
            }
            close_last(&mut self.outages, sample.at, "");
        }
        assert(self@ =~= before.pushed(sample));
    }

    fn stop(&mut self, now: SystemTime)
        requires
            old(self)@.well_formed(),
        ensures
            final(self)@ == old(self)@.stopped(now),
            final(self)@.well_formed(),
    {
        self.health = Health::Unknown;
        self.summary = String::from_str("наблюдение выключено");
        close_last(&mut self.outages, now, " (наблюдение выключено до восстановления)");
    }
}

fn count_lost(samples: &VecDeque<Sample>, from: usize) -> (r: usize)
    requires
        from <= samples@.len(),
    ensures
        r == lost_in(samples@.skip(from as int)),
        r <= samples@.len() - from,
{
    let ghost rest = samples@.skip(from as int);
    let total: usize = samples.len();
    let mut count: usize = 0;
    let mut i: usize = from;
    assert(rest.take(0) =~= Seq::<Sample>::empty());
    while i < total
        invariant
            total == samples@.len(),
            from <= i <= total,
            rest == samples@.skip(from as int),
            count == lost_in(rest.take(i - from)),
            count <= i - from,
        decreases total - i,
    {
        assert(rest.take(i - from + 1).drop_last() =~= rest.take(i - from));
        assert(rest.take(i - from + 1).last() == samples@[i as int]);
        if samples[i].lost() {
            count += 1;
        }
        i += 1;
    }
    assert(rest.take(i - from) =~= rest);
    count
}

/// Puts a number in its place in an ordered list.
fn insert_in_order(list: &mut Vec<u128>, value: u128)
    requires
        sorted_by(old(list)@, ascending()),
    ensures
        sorted_by(final(list)@, ascending()),
        final(list)@.to_multiset() == old(list)@.to_multiset().insert(value),
{
    let ghost was = list@;
    let mut pos: usize = 0;
    while pos < list.len() && list[pos] <= value
        invariant
            pos <= list@.len(),
            list@ == was,
            forall|k: int| 0 <= k < pos ==> #[trigger] list@[k] <= value,
        decreases list@.len() - pos,
    {
        pos += 1;
    }
    proof {
        to_multiset_insert(was, pos as int, value);
    }
    list.insert(pos, value);
    proof {
        let leq = ascending();
        assert forall|i: int, j: int| 0 <= i < j < list@.len() implies #[trigger] leq(
            list@[i],
            list@[j],
        ) by {
            let x = if i < pos {
                i
            } else {
                i - 1
            };
            let y = if j < pos {
                j
            } else {
                j - 1
            };
            if i != pos && j != pos {
                assert(leq(was[x], was[y]));
            } else if j == pos {
                assert(was[i] <= value);
            } else {
                if pos < y {
                    assert(leq(was[pos as int], was[y]));
                }
            }
        }
    }
}

/// The usual response time.
fn median_rtt(samples: &VecDeque<Sample>) -> (r: Option<u128>)
    ensures
        r == median(samples@),
{
    let ghost all = samples@;
    let total: usize = samples.len();
    let mut values: Vec<u128> = Vec::new();
    let mut i: usize = 0;
    proof {
        assert(all.take(0) =~= Seq::<Sample>::empty());
        assert(times_in(all.take(0)) =~= values@);
    }
    while i < total
        invariant
            total == samples@.len(),
            all == samples@,
            i <= total,
            sorted_by(values@, ascending()),
            values@.to_multiset() == times_in(all.take(i as int)).to_multiset(),
        decreases total - i,
    {
        proof {
            assert(all.take(i + 1).drop_last() =~= all.take(i as int));
            assert(all.take(i + 1).last() == samples@[i as int]);
        }
        match samples[i].rtt {
            Some(t) => {
                proof {
                    to_multiset_build(times_in(all.take(i as int)), t.nanos);
                }
                insert_in_order(&mut values, t.nanos);
            },
            None => {},
        }
        i += 1;
    }
    let ghost times = times_in(all);
    proof {
        assert(all.take(i as int) =~= all);
        to_multiset_len(values@);
        to_multiset_len(times);
    }
    if values.len() == 0 {
        return None;
    }
    proof {
        let leq = ascending();
        assert(total_ordering(leq));
        times.lemma_sort_by_ensures(leq);
        lemma_sorted_unique(values@, times.sort_by(leq), leq);
    }
    Some(values[values.len() / 2])
}

/// Assesses the last samples.
///
/// The window is looked at and not the last sample: one loss is the normal life
/// of a network, and calling it an outage would bother people for nothing.
pub fn evaluate(samples: &VecDeque<Sample>) -> (r: Health)
    ensures
        r == assessed(samples@),
{
    let total: usize = samples.len();
    if total == 0 {
        return Health::Unknown;
    }
    let from: usize = if total <= WINDOW {
        0
    } else {
        total - WINDOW
    };
    assert(samples@.skip(0) =~= samples@);
    let size: usize = total - from;
    let lost = count_lost(samples, from);
    let both = total >= 2 && samples[total - 1].lost() && samples[total - 2].lost();
    if both || lost == size {
        return Health::Down;
    }
    if lost as u128 * LOSS_PART > size as u128 {
        return Health::Degraded;
    }
    match (median_rtt(samples), samples[total - 1].rtt) {
        (Some(usual), Some(recent)) => {
            if usual > 0 && usual <= recent.nanos / LATENCY_FACTOR && (recent.nanos
                / LATENCY_FACTOR > usual || recent.nanos % LATENCY_FACTOR > 0) {
                return Health::Degraded;
            }
        },
        _ => {},
    }
    Health::Good
}

/// A short line about the connection.
pub fn describe(samples: &VecDeque<Sample>, health: Health) -> (r: String)
    ensures
        r@ == summarised(samples@, health),
{
    let total: usize = samples.len();
    if total == 0 {
        return String::from_str("наблюдение только началось");
    }
    assert(samples@.skip(0) =~= samples@);
    let lost = count_lost(samples, 0);
    let losses = String::from_str("потерь ").concat(decimal(lost as u128).as_str()).concat(
        " из ",
    ).concat(decimal(total as u128).as_str());
    if health == Health::Down {
        return String::from_str("связи нет, ").concat(losses.as_str());
    }
    match samples[total - 1].rtt {
        Some(t) => format_rtt(t).concat(", ").concat(losses.as_str()),
        None => String::from_str("последний запрос без ответа, ").concat(losses.as_str()),
    }
}

/// The watcher.
#[derive(Debug)]
pub struct Monitor {
    pub state: State,
    pub running: bool,
    /// How often a sample is taken, in seconds.
    pub interval: u64,
    pub caps: Capabilities,
}

impl Monitor {
    pub fn new(caps: Capabilities, interval: u64) -> (r: Self)
        ensures
            r.state@ == blank_state(),
            r.state@.well_formed(),
            !r.running,
            r.interval == interval,
            r.caps == caps,
    {
        Monitor { state: State::default(), running: false, interval, caps }
    }

    pub fn is_running(&self) -> (r: bool)
        ensures
            r == self.running,
    {
        self.running
    }

    pub fn set_interval(&mut self, seconds: u64)
        ensures
            final(self).interval == seconds,
            final(self).state == old(self).state,
            final(self).running == old(self).running,
            final(self).caps == old(self).caps,
    {
        self.interval = seconds;
    }

    /// Switches watching on, and says whether it was off: two quick presses
    /// must not start two threads.
    pub fn start(&mut self) -> (r: bool)
        ensures
            r == !old(self).running,
            final(self).running,
            final(self).state == old(self).state,
            final(self).interval == old(self).interval,
            final(self).caps == old(self).caps,
    {
        let begins = !self.running;
        self.running = true;
        begins
    }

    /// How many times a quarter of a second passes between samples. The wait is
    /// cut up so that switching off works at once.
    pub fn pauses(&self) -> (r: u128)
        ensures
            r == 4 * (if self.interval < 1 {
                1
            } else {
                self.interval as int
            }),
    {
        let seconds: u64 = if self.interval < 1 {
            1
        } else {
            self.interval
        };
        seconds as u128 * 4
    }

    /// Switches watching off.
    pub fn stop(&mut self, now: SystemTime)
        requires
            old(self).state@.well_formed(),
        ensures
            !final(self).running,
            final(self).state@ == old(self).state@.stopped(now),
            final(self).state@.well_formed(),
            final(self).interval == old(self).interval,
            final(self).caps == old(self).caps,
    {
        self.running = false;
        self.state.stop(now);
    }

    /// What has been observed, for the window and the tray icon.
    pub fn snapshot(&self) -> (r: Snapshot)
        ensures
            r@ == self.state@,
    {
        let mut samples: Vec<Sample> = Vec::new();
        let mut i: usize = 0;
        let total: usize = self.state.samples.len();
        while i < total
            invariant
                total == self.state.samples@.len(),
                i <= total,
                samples@.len() == i,
                forall|k: int| 0 <= k < i ==> #[trigger] samples@[k] == self.state.samples@[k],
            decreases total - i,
        {
            samples.push(self.state.samples[i]);
            i += 1;
        }
        assert(samples@ =~= self.state.samples@);
        let mut outages: Vec<Outage> = Vec::new();
        let mut j: usize = 0;
        while j < self.state.outages.len()
            invariant
                j <= self.state.outages@.len(),
                outages@.len() == j,
                forall|k: int| 0 <= k < j ==> (#[trigger] outages@[k])@ == self.state.outages@[k]@,
            decreases self.state.outages@.len() - j,
        {
            outages.push(self.state.outages[j].clone());
            j += 1;
        }
        assert(outage_views(outages@) =~= outage_views(self.state.outages@));
        Snapshot {
            samples,
            outages,
            health: self.state.health,
            summary: self.state.summary.clone(),
        }
    }
}

proof fn lemma_lost_bounds(samples: Seq<Sample>)
    ensures
        lost_in(samples) <= samples.len(),
        samples.len() > 0 && samples.last().is_lost() ==> lost_in(samples) >= 1,
        two_lost(samples) ==> lost_in(samples) >= 2,
    decreases samples.len(),
{
    if samples.len() > 0 {
        lemma_lost_bounds(samples.drop_last());
        if samples.len() >= 2 {
            assert(samples.drop_last().last() == samples[samples.len() - 2]);
        }
    }
}

/// One loss is no outage: with a single loss among two or more of the last
/// samples the connection is not called down.
pub proof fn single_loss_is_not_an_outage(samples: Seq<Sample>)
    requires
        window(samples).len() >= 2,
        lost_in(window(samples)) <= 1,
    ensures
        assessed(samples) != Health::Down,
{
    let w = window(samples);
    lemma_lost_bounds(w);
    if two_lost(samples) {
        assert(w[w.len() - 1] == samples[samples.len() - 1]);
        assert(w[w.len() - 2] == samples[samples.len() - 2]);
    }
}

/// Two losses in a row are an outage, whatever came before.
pub proof fn two_losses_are_an_outage(samples: Seq<Sample>)
    requires
        two_lost(samples),
    ensures
        assessed(samples) == Health::Down,
{
}

/// Once losses have left the window, and the delay is the usual one, the
/// connection is good again: an old failure does not stain it for ever.
pub proof fn losses_leave_the_window(samples: Seq<Sample>)
    requires
        samples.len() > 0,
        lost_in(window(samples)) == 0,
        !spiked(samples),
    ensures
        assessed(samples) == Health::Good,
{
    lemma_lost_bounds(samples);
    lemma_lost_bounds(window(samples));
    if two_lost(samples) {
        let w = window(samples);
        assert(w.last() == samples.last());
    }
}

/// However long watching goes on, an outage is in the journal exactly once, and
/// none but the last can be open.
pub proof fn journal_stays_in_order(state: StateView, sample: Sample, now: SystemTime)
    requires
        state.well_formed(),
    ensures
        state.pushed(sample).well_formed(),
        state.stopped(now).well_formed(),
        state.stopped(now).outages.len() == state.outages.len(),
        forall|i: int|
            0 <= i < state.stopped(now).outages.len() ==> (
            #[trigger] state.stopped(now).outages[i]).ended is Some,
{
    let p = state.pushed(sample);
    assert forall|i: int| 0 <= i < p.outages.len() - 1 implies (
    #[trigger] p.outages[i]).ended is Some by {
        if i < state.outages.len() - 1 {
            assert(state.outages[i].ended is Some);
        }
    }
    let s = state.stopped(now);
    assert forall|i: int| 0 <= i < s.outages.len() implies (
    #[trigger] s.outages[i]).ended is Some by {
        if i < state.outages.len() - 1 {
            assert(state.outages[i].ended is Some);
        }
    }
}

/// The journal goes by passages. Where the connection is lost, a new entry
/// begins with that sample. Where it comes back, the last entry ends with that
/// sample, and nothing else of the journal changes. Otherwise the journal stays
/// as it is.
pub proof fn passages_make_the_journal(state: StateView, sample: Sample)
    requires
        state.well_formed(),
    ensures
        ({
            let new = state.pushed(sample);
            &&& state.health != Health::Down && new.health == Health::Down ==> {
                &&& new.outages.len() == state.outages.len() + 1
                &&& new.outages.drop_last() == state.outages
                &&& new.outages.last().started == sample.at
                &&& new.outages.last().ended is None
            }
            &&& state.health == Health::Down && new.health != Health::Down ==> {
                &&& new.outages.len() == state.outages.len() > 0
                &&& new.outages.drop_last() == state.outages.drop_last()
                &&& new.outages.last().started == state.outages.last().started
                &&& new.outages.last().ended == Some(sample.at)
                &&& new.outages.last().reason == state.outages.last().reason
            }
            &&& (state.health == Health::Down) == (new.health == Health::Down) ==> new.outages
                == state.outages
        }),
{
    let new = state.pushed(sample);
    if state.health == Health::Down && new.health != Health::Down {
        assert(state.outages.last().reason + Seq::<char>::empty()
            =~= state.outages.last().reason);
        assert(new.outages.drop_last() =~= state.outages.drop_last());
    } else if state.health != Health::Down && new.health == Health::Down {
        assert(new.outages.drop_last() =~= state.outages);
    }
}

/// Switching watching off ends an outage that lasts at that moment, and leaves
/// the samples and all earlier entries alone.
pub proof fn stopping_ends_the_outage(state: StateView, now: SystemTime)
    requires
        state.well_formed(),
    ensures
        ({
            let new = state.stopped(now);
            &&& new.samples == state.samples
            &&& new.health == Health::Unknown
            &&& new.outages.len() == state.outages.len()
            &&& state.health != Health::Down ==> new.outages == state.outages
            &&& state.health == Health::Down ==> {
                &&& new.outages.drop_last() == state.outages.drop_last()
                &&& new.outages.last().started == state.outages.last().started
                &&& new.outages.last().ended == Some(now)
            }
        }),
{
    if state.health == Health::Down {
        assert(state.stopped(now).outages.drop_last() =~= state.outages.drop_last());
    }
}

/// The last five hundred and twelve samples are kept, in their order, with the
/// new one behind all others.
pub proof fn the_newest_samples_are_kept(state: StateView, sample: Sample)
    requires
        state.well_formed(),
    ensures
        ({
            let old_len = state.samples.len();
            let new = state.pushed(sample).samples;
            &&& new.len() == (if old_len < 512 { 1 + old_len as int } else { 512int })
            &&& new.last() == sample
            &&& forall|i: int|
                0 <= i < new.len() - 1 ==> #[trigger] new[i] == state.samples[old_len - (new.len()
                    - 1) + i]
        }),
{
}

proof fn lemma_lost_is_a_count(samples: Seq<Sample>)
    ensures
        lost_in(samples) == samples.filter(|s: Sample| s.rtt is None).len(),
    decreases samples.len(),
{
    reveal(Seq::filter);
    if samples.len() > 0 {
        lemma_lost_is_a_count(samples.drop_last());
    }
}

proof fn lemma_all_lost(samples: Seq<Sample>)
    ensures
        lost_in(samples) <= samples.len(),
        lost_in(samples) == samples.len() <==> forall|i: int|
            0 <= i < samples.len() ==> (#[trigger] samples[i]).rtt is None,
    decreases samples.len(),
{
    if samples.len() > 0 {
        let rest = samples.drop_last();
        let n = samples.len() - 1;
        lemma_all_lost(rest);
        if lost_in(samples) == samples.len() {
            assert forall|i: int| 0 <= i < samples.len() implies (
            #[trigger] samples[i]).rtt is None by {
                if i < n {
                    assert(rest[i].rtt is None);
                }
            }
        }
        if forall|i: int| 0 <= i < samples.len() ==> (#[trigger] samples[i]).rtt is None {
            assert(samples[n].rtt is None);
            assert forall|i: int| 0 <= i < rest.len() implies (#[trigger] rest[i]).rtt is None by {
                assert(samples[i].rtt is None);
            }
        }
    }
}

/// The health goes by the last ten samples. Nothing is known without a sample.
/// The connection is down where the last two samples, or all of the ten, are
/// lost. It is unsteady where more than a fifth of the ten is lost, or the last
/// answer took more than three times as long as usual. Otherwise it is good.
pub proof fn health_goes_by_the_last_ten(samples: Seq<Sample>)
    ensures
        ({
            let n = samples.len() as int;
            let from = if n <= 10 { 0int } else { n - 10 };
            let recent = samples.subrange(from, n);
            let lost = recent.filter(|s: Sample| s.rtt is None).len();
            let down = n > 0 && ((n >= 2 && samples[n - 1].rtt is None && samples[n
                - 2].rtt is None) || (forall|i: int|
                from <= i < n ==> (#[trigger] samples[i]).rtt is None));
            let slow = n > 0 && samples[n - 1].rtt is Some && median(samples) is Some && median(
                samples,
            )->0 > 0 && samples[n - 1].rtt->0.nanos > 3 * median(samples)->0;
            &&& assessed(samples) == Health::Unknown <==> n == 0
            &&& assessed(samples) == Health::Down <==> down
            &&& assessed(samples) == Health::Degraded <==> n > 0 && !down && (5 * lost > n - from
                || slow)
            &&& assessed(samples) == Health::Good <==> n > 0 && !down && !(5 * lost > n - from)
                && !slow
        }),
{
    let n = samples.len() as int;
    let from = if n <= 10 { 0int } else { n - 10 };
    let w = window(samples);
    assert(w =~= samples.subrange(from, n));
    lemma_lost_is_a_count(w);
    lemma_all_lost(w);
    if forall|i: int| 0 <= i < w.len() ==> (#[trigger] w[i]).rtt is None {
        assert forall|i: int| from <= i < n implies (#[trigger] samples[i]).rtt is None by {
            assert(w[i - from].rtt is None);
        }
    }
    if n > 0 && (forall|i: int| from <= i < n ==> (#[trigger] samples[i]).rtt is None) {
        assert forall|i: int| 0 <= i < w.len() implies (#[trigger] w[i]).rtt is None by {
            assert(samples[from + i].rtt is None);
        }
    }
    if n > 0 {
        assert(samples.last() == samples[n - 1]);
    }
}

proof fn lemma_times_count(samples: Seq<Sample>, p: spec_fn(u128) -> bool)
    ensures
        times_in(samples).filter(p).len() == samples.filter(
            |s: Sample| s.rtt is Some && p(s.rtt->0.nanos),
        ).len(),
    decreases samples.len(),
{
    reveal(Seq::filter);
    if samples.len() > 0 {
        let rest = samples.drop_last();
        lemma_times_count(rest, p);
        match samples.last().rtt {
            Some(t) => {
                let times = times_in(samples);
                assert(times.drop_last() =~= times_in(rest));
            },
            None => {},
        }
    }
}

proof fn lemma_count_ignores_order(a: Seq<u128>, b: Seq<u128>, p: spec_fn(u128) -> bool)
    requires
        a.to_multiset() == b.to_multiset(),
    ensures
        a.filter(p).len() == b.filter(p).len(),
    decreases a.len(),
{
    reveal(Seq::filter);
    to_multiset_len(a);
    to_multiset_len(b);
    if a.len() > 0 {
        let x = a.last();
        let rest = a.drop_last();
        assert(rest.push(x) =~= a);
        to_multiset_build(rest, x);
        b.to_multiset_ensures();
        a.to_multiset_ensures();
        assert(a.contains(x));
        assert(b.to_multiset().count(x) > 0);
        let i = choose|i: int| 0 <= i < b.len() && b[i] == x;
        let head = b.take(i);
        let tail = b.skip(i + 1);
        assert(b.remove(i).to_multiset() == rest.to_multiset()) by {
            assert(rest.to_multiset() =~= rest.to_multiset().insert(x).remove(x));
        }
        lemma_count_ignores_order(rest, b.remove(i), p);
        assert(b.remove(i) =~= head + tail);
        assert(b =~= head.push(x) + tail);
        Seq::filter_distributes_over_add(head, tail, p);
        Seq::filter_distributes_over_add(head.push(x), tail, p);
        assert(head.push(x).drop_last() =~= head);
    }
}

proof fn lemma_middle(s: Seq<u128>, k: int)
    requires
        sorted_by(s, ascending()),
        0 <= k < s.len(),
    ensures
        s.filter(|t: u128| t < s[k]).len() <= k,
        s.filter(|t: u128| t <= s[k]).len() > k,
{
    let leq = ascending();
    let m = s[k];
    let less = |t: u128| t < s[k];
    let upto = |t: u128| t <= s[k];
    let a = s.take(k);
    let b = s.skip(k);
    assert(s =~= a + b);
    Seq::filter_distributes_over_add(a, b, less);
    assert forall|i: int| 0 <= i < b.len() implies !#[trigger] less(b[i]) by {
        if i > 0 {
            assert(leq(s[k], s[k + i]));
        }
    }
    lemma_none_pass(b, less);
    a.lemma_filter_len(less);
    let c = s.take(k + 1);
    let d = s.skip(k + 1);
    assert(s =~= c + d);
    Seq::filter_distributes_over_add(c, d, upto);
    assert forall|i: int| 0 <= i < c.len() implies #[trigger] upto(c[i]) by {
        if i < k {
            assert(leq(s[i], s[k]));
        }
    }
    lemma_all_pass(c, upto);
}

proof fn lemma_none_pass(s: Seq<u128>, p: spec_fn(u128) -> bool)
    requires
        forall|i: int| 0 <= i < s.len() ==> !#[trigger] p(s[i]),
    ensures
        s.filter(p).len() == 0,
    decreases s.len(),
{
    reveal(Seq::filter);
    if s.len() > 0 {
        assert(!p(s[s.len() - 1]));
        assert forall|i: int| 0 <= i < s.drop_last().len() implies !#[trigger] p(
            s.drop_last()[i],
        ) by {
            assert(!p(s[i]));
        }
        lemma_none_pass(s.drop_last(), p);
    }
}

proof fn lemma_all_pass(s: Seq<u128>, p: spec_fn(u128) -> bool)
    requires
        forall|i: int| 0 <= i < s.len() ==> #[trigger] p(s[i]),
    ensures
        s.filter(p).len() == s.len(),
    decreases s.len(),
{
    reveal(Seq::filter);
    if s.len() > 0 {
        assert(p(s[s.len() - 1]));
        assert forall|i: int| 0 <= i < s.drop_last().len() implies #[trigger] p(
            s.drop_last()[i],
        ) by {
            assert(p(s[i]));
        }
        lemma_all_pass(s.drop_last(), p);
    }
}

/// The usual response time is the middle one: no more than half of the answers
/// came sooner, and more than half came no later. There is one exactly where
/// something was answered.
pub proof fn the_usual_time_is_in_the_middle(samples: Seq<Sample>)
    ensures
        ({
            let answered = samples.filter(|s: Sample| s.rtt is Some).len();
            &&& median(samples) is Some <==> answered > 0
            &&& median(samples) matches Some(m) ==> {
                &&& samples.filter(|s: Sample| s.rtt is Some && s.rtt->0.nanos < m).len()
                    <= answered / 2
                &&& samples.filter(|s: Sample| s.rtt is Some && s.rtt->0.nanos <= m).len()
                    > answered / 2
            }
        }),
{
    let times = times_in(samples);
    let any = |t: u128| true;
    lemma_times_count(samples, any);
    lemma_all_pass(times, any);
    assert(samples.filter(|s: Sample| s.rtt is Some && any(s.rtt->0.nanos)).len()
        == samples.filter(|s: Sample| s.rtt is Some).len()) by {
        lemma_filter_alike(
            samples,
            |s: Sample| s.rtt is Some && any(s.rtt->0.nanos),
            |s: Sample| s.rtt is Some,
        );
    }
    if times.len() > 0 {
        let leq = ascending();
        assert(total_ordering(leq));
        times.lemma_sort_by_ensures(leq);
        let sorted = times.sort_by(leq);
        to_multiset_len(times);
        to_multiset_len(sorted);
        let k = (times.len() / 2) as int;
        let m = sorted[k];
        lemma_middle(sorted, k);
        let less = |t: u128| t < sorted[k];
        let upto = |t: u128| t <= sorted[k];
        lemma_count_ignores_order(times, sorted, less);
        lemma_count_ignores_order(times, sorted, upto);
        lemma_times_count(samples, less);
        lemma_times_count(samples, upto);
        lemma_filter_alike(
            samples,
            |s: Sample| s.rtt is Some && less(s.rtt->0.nanos),
            |s: Sample| s.rtt is Some && s.rtt->0.nanos < m,
        );
        lemma_filter_alike(
            samples,
            |s: Sample| s.rtt is Some && upto(s.rtt->0.nanos),
            |s: Sample| s.rtt is Some && s.rtt->0.nanos <= m,
        );
    }
}

proof fn lemma_filter_alike(
    samples: Seq<Sample>,
    p: spec_fn(Sample) -> bool,
    q: spec_fn(Sample) -> bool,
)
    requires
        forall|s: Sample| #[trigger] p(s) == q(s),
    ensures
        samples.filter(p).len() == samples.filter(q).len(),
    decreases samples.len(),
{
    reveal(Seq::filter);
    if samples.len() > 0 {
        lemma_filter_alike(samples.drop_last(), p, q);
        assert(p(samples.last()) == q(samples.last()));
    }
}

/// Two losses in a row count from the second sample on.
pub proof fn two_losses_need_two_samples(samples: Seq<Sample>)
    ensures
        samples.len() < 2 ==> !two_lost(samples),
        samples.len() >= 2 ==> (two_lost(samples) <==> samples.last().rtt is None
            && samples.drop_last().last().rtt is None),
{
}

} // verus!
