//! Speed, and the search for throttling.
//!
//! Throttling is hard to catch by one number: how good a speed is depends on
//! the tariff. It is seen well in a comparison, where one place is fast and
//! another, no farther away, is many times slower. The user's own line would
//! slow down for all alike. The other sign is a quick answer with a slow
//! transfer: on a crowded line the answer is late as well.
//!
//! Speeds are kept as exact fractions.

use vstd::prelude::*;
use vstd::string::StringExecFns;
use crate::model::opt_text;
use crate::text::{dec, decimal};
use crate::time::Duration;

verus! {

/// How many bytes are fetched: enough for the start of a connection not to
/// matter, and no more than that.
pub const PAYLOAD_BYTES: usize = 2_000_000;

/// How long a measurement may take, in seconds.
pub const TIMEOUT_SECS: u64 = 12;

/// How much is read at once.
pub const READ_SIZE: usize = 32768;

/// A measurement of less than this shows how a connection starts and not how
/// fast the line is.
pub const MIN_BYTES: usize = 700_000;

/// How many times a speed has to differ to speak of a drop. Places differ, and
/// twofold is normal; fourfold is not explained by geography.
pub const UNEVEN_FACTOR: u128 = 4;

/// A speed, in Mbit/s, below which a quick answer means a limit.
pub const SLOW_MBPS: u128 = 2;

/// How many times delays may differ for speeds to be comparable.
pub const LATENCY_TOLERANCE: u128 = 2;

/// The places to measure: their names and links. Conclusions rest on the
/// difference between them.
pub fn endpoints() -> (r: [(&'static str, &'static str); 2])
    ensures
        r@[0].0@ == "Cloudflare"@,
        r@[0].1@ == "https://speed.cloudflare.com/__down?bytes=2000000"@,
        r@[1].0@ == "OVH"@,
        r@[1].1@ == "https://proof.ovh.net/files/10Mb.dat"@,
{
    [
        ("Cloudflare", "https://speed.cloudflare.com/__down?bytes=2000000"),
        ("OVH", "https://proof.ovh.net/files/10Mb.dat"),
    ]
}

/// A speed: so many bits in so many nanoseconds.
#[derive(Debug, Clone, Copy, PartialEq, Eq, Structural)]
pub struct Rate {
    pub bits: u64,
    pub nanos: u64,
}

impl Rate {
    /// Whether some time has passed.
    pub open spec fn valid(self) -> bool {
        self.nanos > 0
    }

    /// A speed of so many tenths of a Mbit/s.
    pub fn from_tenths(n: u32) -> (r: Self)
        ensures
            r.valid(),
            r.bits == n,
            r.nanos == 10_000,
    {
        Rate { bits: n as u64, nanos: 10_000 }
    }

    pub open spec fn faster(self, other: Rate) -> bool {
        self.bits * other.nanos > other.bits * self.nanos
    }

    /// Whether the speed is at least so many times another.
    pub open spec fn times(self, other: Rate, factor: nat) -> bool {
        self.bits * other.nanos >= factor * (other.bits * self.nanos)
    }

    /// Whether the speed is below so many Mbit/s.
    pub open spec fn below(self, mbps: nat) -> bool {
        self.bits * 1000 < mbps * self.nanos
    }

    fn cross(self, other: Rate) -> (r: u128)
        ensures
            r == self.bits * other.nanos,
    {
        assert(self.bits * other.nanos <= u64::MAX * u64::MAX) by (nonlinear_arith)
            requires
                self.bits <= u64::MAX,
                other.nanos <= u64::MAX,
        ;
        self.bits as u128 * other.nanos as u128
    }

    pub fn is_faster(self, other: Rate) -> (r: bool)
        ensures
            r == self.faster(other),
    {
        self.cross(other) > other.cross(self)
    }

    /// The speed in tenths of a Mbit/s, rounded to the nearest; a half is
    /// rounded to the even one.
    pub open spec fn tenths(self) -> nat {
        let n = self.bits * 10_000;
        let d = self.nanos as int;
        let q = n / d;
        let rest = n % d;
        if 2 * rest > d || (2 * rest == d && q % 2 == 1) {
            (q + 1) as nat
        } else {
            q as nat
        }
    }

    /// The speed in Mbit/s with one decimal.
    pub open spec fn notation(self) -> Seq<char> {
        dec(self.tenths() / 10) + "."@ + dec(self.tenths() % 10)
    }

    pub fn text(self) -> (r: String)
        requires
            self.valid(),
        ensures
            r@ == self.notation(),
    {
        let n: u128 = self.bits as u128 * 10_000;
        let d: u128 = self.nanos as u128;
        let q: u128 = n / d;
        let rest: u128 = n % d;
        let up = 2 * rest > d || (2 * rest == d && q % 2 == 1);
        assert(q <= n) by (nonlinear_arith)
            requires
                q == n / d,
                d > 0,
                n >= 0,
        ;
        let t: u128 = if up {
            q + 1
        } else {
            q
        };
        decimal(t / 10).concat(".").concat(decimal(t % 10).as_str())
    }
}

/// A ratio of two numbers.
#[derive(Debug, Clone, Copy, PartialEq, Eq, Structural)]
pub struct Ratio {
    pub num: u128,
    pub den: u128,
}

/// The result of one measurement.
#[derive(Debug, Clone)]
pub struct Measurement {
    pub name: String,
    pub mbps: Option<Rate>,
    /// How long it took until the first data came.
    pub first_byte: Option<Duration>,
    pub note: Option<String>,
}

#[verifier::ext_equal]
pub struct MeasurementView {
    pub name: Seq<char>,
    pub mbps: Option<Rate>,
    pub first_byte: Option<Duration>,
    pub note: Option<Seq<char>>,
}

impl View for Measurement {
    type V = MeasurementView;

    open spec fn view(&self) -> MeasurementView {
        MeasurementView {
            name: self.name@,
            mbps: self.mbps,
            first_byte: self.first_byte,
            note: opt_text(self.note),
        }
    }
}

impl MeasurementView {
    pub open spec fn valid(self) -> bool {
        self.mbps matches Some(rate) ==> rate.valid()
    }

    pub open spec fn description(self) -> Seq<char> {
        match self.mbps {
            Some(rate) => self.name + ": "@ + rate.notation() + " Мбит/с"@ + (
            match self.first_byte {
                Some(d) => ", первые данные через "@ + dec(d.millis()) + " мс"@,
                None => Seq::empty(),
            }),
            None => self.name + ": замер не удался"@ + (match self.note {
                Some(n) => " ("@ + n + ")"@,
                None => Seq::empty(),
            }),
        }
    }

    pub open spec fn quick(self) -> bool {
        self.first_byte matches Some(d) && d.nanos < 150_000_000
    }

    /// A quick answer with a slow transfer.
    pub open spec fn throttled(self) -> bool {
        self.mbps matches Some(rate) && rate.below(SLOW_MBPS as nat) && self.quick()
    }
}

impl Measurement {
    pub fn describe(&self) -> (r: String)
        requires
            self@.valid(),
        ensures
            r@ == self@.description(),
    {
        match self.mbps {
            Some(rate) => {
                let ttfb = match self.first_byte {
                    Some(d) => String::from_str(", первые данные через ").concat(
                        decimal(d.as_millis()).as_str(),
                    ).concat(" мс"),
                    None => String::new(),
                };
                self.name.clone().concat(": ").concat(rate.text().as_str()).concat(
                    " Мбит/с",
                ).concat(ttfb.as_str())
            },
            None => {
                let note = match &self.note {
                    Some(n) => String::from_str(" (").concat(n.as_str()).concat(")"),
                    None => String::new(),
                };
                self.name.clone().concat(": замер не удался").concat(note.as_str())
            },
        }
    }

    fn is_throttled(&self) -> (r: bool)
        ensures
            r == self@.throttled(),
    {
        let quick = match self.first_byte {
            Some(d) => d.nanos < 150_000_000,
            None => false,
        };
        match self.mbps {
            Some(rate) => quick && (rate.bits as u128) * 1000 < SLOW_MBPS * (rate.nanos as u128),
            None => false,
        }
    }
}

/// The conclusion from all measurements.
#[derive(Debug, Clone)]
pub enum Verdict {
    /// Nothing could be measured.
    Unavailable,
    /// The speed is even.
    Even { best: Rate },
    /// Speeds differ much, but the distance explains it: the slow place is also
    /// farther away.
    Inconclusive { best: Rate, slow: String, slow_mbps: Rate, latency_ratio: Ratio },
    /// One of the places is much slower.
    Uneven { fast: String, slow: String, ratio: Ratio },
    /// A connection is made quickly, but data comes slowly.
    SlowBody { name: String, mbps: Rate },
}

#[verifier::ext_equal]
pub enum VerdictView {
    Unavailable,
    Even { best: Rate },
    Inconclusive { best: Rate, slow: Seq<char>, slow_mbps: Rate, latency_ratio: Ratio },
    Uneven { fast: Seq<char>, slow: Seq<char>, ratio: Ratio },
    SlowBody { name: Seq<char>, mbps: Rate },
}

impl View for Verdict {
    type V = VerdictView;

    open spec fn view(&self) -> VerdictView {
        match self {
            Verdict::Unavailable => VerdictView::Unavailable,
            Verdict::Even { best } => VerdictView::Even { best: *best },
            Verdict::Inconclusive { best, slow, slow_mbps, latency_ratio } =>
                VerdictView::Inconclusive {
                best: *best,
                slow: slow@,
                slow_mbps: *slow_mbps,
                latency_ratio: *latency_ratio,
            },
            Verdict::Uneven { fast, slow, ratio } => VerdictView::Uneven {
                fast: fast@,
                slow: slow@,
                ratio: *ratio,
            },
            Verdict::SlowBody { name, mbps } => VerdictView::SlowBody { name: name@, mbps: *mbps },
        }
    }
}

pub open spec fn measurement_views(list: Seq<Measurement>) -> Seq<MeasurementView> {
    list.map_values(|m: Measurement| m@)
}

/// The place of the fastest measurement among those with a sign, the first of
/// them where several are equally fast.
pub open spec fn fastest(
    list: Seq<MeasurementView>,
    sign: spec_fn(MeasurementView) -> bool,
) -> Option<int>
    decreases list.len(),
{
    if list.len() == 0 {
        None
    } else {
        let before = fastest(list.drop_last(), sign);
        let m = list.last();
        if m.mbps is None || !sign(m) {
            before
        } else {
            match before {
                Some(i) if !m.mbps->0.faster(list[i].mbps->0) => Some(i),
                _ => Some(list.len() - 1),
            }
        }
    }
}

/// The place of the slowest measurement, the last of them where several are
/// equally slow.
pub open spec fn slowest(list: Seq<MeasurementView>) -> Option<int>
    decreases list.len(),
{
    if list.len() == 0 {
        None
    } else {
        let before = slowest(list.drop_last());
        let m = list.last();
        if m.mbps is None {
            before
        } else {
            match before {
                Some(i) if m.mbps->0.faster(list[i].mbps->0) => Some(i),
                _ => Some(list.len() - 1),
            }
        }
    }
}

pub open spec fn any_sign() -> spec_fn(MeasurementView) -> bool {
    |m: MeasurementView| true
}

pub open spec fn throttled_sign() -> spec_fn(MeasurementView) -> bool {
    |m: MeasurementView| m.throttled()
}

/// Whether two delays are close enough for speeds to be compared.
///
/// What TCP can carry is inverse to the round trip: at twice the distance the
/// speed is honestly half, and nobody cuts it.
pub open spec fn comparable(near: Option<Duration>, far: Option<Duration>) -> bool {
    match (near, far) {
        (Some(n), Some(f)) => f.nanos < n.nanos * LATENCY_TOLERANCE,
        _ => false,
    }
}

pub open spec fn delay_ratio(near: Option<Duration>, far: Option<Duration>) -> Ratio {
    match (near, far) {
        (Some(n), Some(f)) if n.nanos > 0 => Ratio { num: f.nanos, den: n.nanos },
        _ => Ratio { num: 0, den: 1 },
    }
}

/// The conclusion from measurements.
pub open spec fn conclusion(list: Seq<MeasurementView>) -> VerdictView {
    match (fastest(list, any_sign()), slowest(list)) {
        (Some(i), Some(j)) => {
            let best = list[i].mbps->0;
            let worst = list[j].mbps->0;
            if worst.bits > 0 && best.times(worst, UNEVEN_FACTOR as nat) {
                if comparable(list[i].first_byte, list[j].first_byte) {
                    VerdictView::Uneven {
                        fast: list[i].name,
                        slow: list[j].name,
                        ratio: Ratio {
                            num: (best.bits * worst.nanos) as u128,
                            den: (worst.bits * best.nanos) as u128,
                        },
                    }
                } else {
                    VerdictView::Inconclusive {
                        best,
                        slow: list[j].name,
                        slow_mbps: worst,
                        latency_ratio: delay_ratio(list[i].first_byte, list[j].first_byte),
                    }
                }
            } else {
                match fastest(list, throttled_sign()) {
                    Some(k) => VerdictView::SlowBody {
                        name: list[k].name,
                        mbps: list[k].mbps->0,
                    },
                    None => VerdictView::Even { best },
                }
            }
        },
        _ => VerdictView::Unavailable,
    }
}

proof fn lemma_fastest(list: Seq<MeasurementView>, sign: spec_fn(MeasurementView) -> bool)
    ensures
        fastest(list, sign) matches Some(i) ==> 0 <= i < list.len() && list[i].mbps is Some
            && sign(list[i]),
    decreases list.len(),
{
    if list.len() > 0 {
        lemma_fastest(list.drop_last(), sign);
        if let Some(i) = fastest(list.drop_last(), sign) {
            assert(list.drop_last()[i] == list[i]);
        }
    }
}

proof fn lemma_slowest(list: Seq<MeasurementView>)
    ensures
        slowest(list) matches Some(i) ==> 0 <= i < list.len() && list[i].mbps is Some,
        (slowest(list) is Some) == (fastest(list, any_sign()) is Some),
    decreases list.len(),
{
    if list.len() > 0 {
        lemma_slowest(list.drop_last());
        if let Some(i) = slowest(list.drop_last()) {
            assert(list.drop_last()[i] == list[i]);
        }
    }
}

fn find_fastest(list: &[Measurement], only_throttled: bool) -> (r: Option<usize>)
    ensures
        ({
            let sign = if only_throttled {
                throttled_sign()
            } else {
                any_sign()
            };
            match r {
                Some(i) => fastest(measurement_views(list@), sign) == Some(i as int) && i
                    < list@.len() && list@[i as int].mbps is Some,
                None => fastest(measurement_views(list@), sign) is None,
            }
        }),
{
    let ghost views = measurement_views(list@);
    let ghost sign = if only_throttled {
        throttled_sign()
    } else {
        any_sign()
    };
    let mut found: Option<usize> = None;
    let mut i: usize = 0;
    assert(views.take(0) =~= Seq::<MeasurementView>::empty());
    while i < list.len()
        invariant
            i <= list@.len(),
            views == measurement_views(list@),
            sign == (if only_throttled {
                throttled_sign()
            } else {
                any_sign()
            }),
            match found {
                Some(k) => fastest(views.take(i as int), sign) == Some(k as int) && k < i
                    && list@[k as int].mbps is Some,
                None => fastest(views.take(i as int), sign) is None,
            },
        decreases list@.len() - i,
    {
        proof {
            assert(views.take(i + 1).drop_last() =~= views.take(i as int));
            assert(views.take(i + 1).last() == list@[i as int]@);
            if let Some(k) = found {
                assert(views.take(i + 1)[k as int] == list@[k as int]@);
            }
        }
        match list[i].mbps {
            Some(rate) => {
                if !only_throttled || list[i].is_throttled() {
                    let better = match found {
                        Some(k) => match list[k].mbps {
                            Some(best) => rate.is_faster(best),
                            None => true,
                        },
                        None => true,
                    };
                    if better {
                        found = Some(i);
                    }
                }
            },
            None => {},
        }
        i += 1;
    }
    assert(views.take(i as int) =~= views);
    found
}

fn find_slowest(list: &[Measurement]) -> (r: Option<usize>)
    ensures
        match r {
            Some(i) => slowest(measurement_views(list@)) == Some(i as int) && i < list@.len()
                && list@[i as int].mbps is Some,
            None => slowest(measurement_views(list@)) is None,
        },
{
    let ghost views = measurement_views(list@);
    let mut found: Option<usize> = None;
    let mut i: usize = 0;
    assert(views.take(0) =~= Seq::<MeasurementView>::empty());
    while i < list.len()
        invariant
            i <= list@.len(),
            views == measurement_views(list@),
            match found {
                Some(k) => slowest(views.take(i as int)) == Some(k as int) && k < i
                    && list@[k as int].mbps is Some,
                None => slowest(views.take(i as int)) is None,
            },
        decreases list@.len() - i,
    {
        proof {
            assert(views.take(i + 1).drop_last() =~= views.take(i as int));
            assert(views.take(i + 1).last() == list@[i as int]@);
            if let Some(k) = found {
                assert(views.take(i + 1)[k as int] == list@[k as int]@);
            }
        }
        match list[i].mbps {
            Some(rate) => {
                let slower = match found {
                    Some(k) => match list[k].mbps {
                        Some(worst) => !rate.is_faster(worst),
                        None => true,
                    },
                    None => true,
                };
                if slower {
                    found = Some(i);
                }
            },
            None => {},
        }
        i += 1;
    }
    assert(views.take(i as int) =~= views);
    found
}

fn is_comparable(near: Option<Duration>, far: Option<Duration>) -> (r: bool)
    ensures
        r == comparable(near, far),
{
    match (near, far) {
        (Some(n), Some(f)) => f.nanos < n.nanos || f.nanos - n.nanos < n.nanos,
        _ => false,
    }
}

/// Judges measurements.
pub fn judge(measurements: &[Measurement]) -> (r: Verdict)
    ensures
        r@ == conclusion(measurement_views(measurements@)),
{
    let ghost views = measurement_views(measurements@);
    proof {
        lemma_slowest(views);
        lemma_fastest(views, any_sign());
    }
    let (i, j) = match (find_fastest(measurements, false), find_slowest(measurements)) {
        (Some(i), Some(j)) => (i, j),
        _ => {
            return Verdict::Unavailable;
        },
    };
    assert(views[i as int] == measurements@[i as int]@);
    assert(views[j as int] == measurements@[j as int]@);
    let fast = &measurements[i];
    let slow = &measurements[j];
    let (best, worst) = match (fast.mbps, slow.mbps) {
        (Some(b), Some(w)) => (b, w),
        _ => {
            return Verdict::Unavailable;
        },
    };
    let up: u128 = best.cross(worst);
    let down: u128 = worst.cross(best);
    if worst.bits > 0 && up / UNEVEN_FACTOR >= down {
        if is_comparable(fast.first_byte, slow.first_byte) {
            return Verdict::Uneven {
                fast: fast.name.clone(),
                slow: slow.name.clone(),
                ratio: Ratio { num: up, den: down },
            };
        }
        let latency_ratio = match (fast.first_byte, slow.first_byte) {
            (Some(n), Some(f)) => if n.nanos > 0 {
                Ratio { num: f.nanos, den: n.nanos }
            } else {
                Ratio { num: 0, den: 1 }
            },
            _ => Ratio { num: 0, den: 1 },
        };
        return Verdict::Inconclusive {
            best,
            slow: slow.name.clone(),
            slow_mbps: worst,
            latency_ratio,
        };
    }
    match find_fastest(measurements, true) {
        Some(k) => {
            assert(views[k as int] == measurements@[k as int]@);
            match measurements[k].mbps {
                Some(rate) => Verdict::SlowBody { name: measurements[k].name.clone(), mbps: rate },
                None => Verdict::Even { best },
            }
        },
        None => Verdict::Even { best },
    }
}

/// A drop is put down to throttling only where the slow place is no more than
/// twice as far away: geography is not accused.
pub proof fn distance_is_not_throttling(list: Seq<MeasurementView>)
    ensures
        conclusion(list) is Uneven ==> {
            let i = fastest(list, any_sign())->0;
            let j = slowest(list)->0;
            &&& list[j].first_byte is Some
            &&& list[i].first_byte is Some
            &&& list[j].first_byte->0.nanos < 2 * list[i].first_byte->0.nanos
        },
{
}

/// Without a measurement that worked there is no conclusion, and with one there
/// is.
pub proof fn unavailable_means_nothing_measured(list: Seq<MeasurementView>)
    ensures
        conclusion(list) is Unavailable <==> forall|i: int|
            0 <= i < list.len() ==> (#[trigger] list[i]).mbps is None,
{
    lemma_slowest(list);
    lemma_fastest(list, any_sign());
    lemma_measured(list);
}

proof fn lemma_measured(list: Seq<MeasurementView>)
    ensures
        fastest(list, any_sign()) is None <==> forall|i: int|
            0 <= i < list.len() ==> (#[trigger] list[i]).mbps is None,
    decreases list.len(),
{
    if list.len() > 0 {
        let q = list.drop_last();
        lemma_measured(q);
        assert forall|i: int| 0 <= i < q.len() implies #[trigger] q[i] == list[i] by {}
        if forall|i: int| 0 <= i < list.len() ==> (#[trigger] list[i]).mbps is None {
            assert forall|i: int| 0 <= i < q.len() implies (#[trigger] q[i]).mbps is None by {
                assert(list[i].mbps is None);
            }
            assert(list[list.len() - 1].mbps is None);
        }
        if fastest(list, any_sign()) is None {
            assert forall|i: int| 0 <= i < list.len() implies (
            #[trigger] list[i]).mbps is None by {
                if i < q.len() {
                    assert(q[i].mbps is None);
                }
            }
        }
    }
}

/// A transfer in progress.
#[derive(Debug)]
pub struct Transfer {
    pub name: String,
    pub total: usize,
    pub first_byte: Option<Duration>,
}

impl Transfer {
    /// Whether more may come: a full payload is not exceeded by more than one
    /// read.
    pub open spec fn open(self) -> bool {
        self.total < PAYLOAD_BYTES
    }

    pub fn new(name: &str) -> (r: Self)
        ensures
            r.name@ == name@,
            r.total == 0,
            r.first_byte is None,
            r.open(),
    {
        Transfer { name: name.to_owned(), total: 0, first_byte: None }
    }

    /// Takes in `n` bytes that came `elapsed` after the start, and says whether
    /// to read on.
    pub fn receive(&mut self, n: usize, elapsed: Duration) -> (r: bool)
        requires
            old(self).open(),
            n <= READ_SIZE,
        ensures
            final(self).name@ == old(self).name@,
            final(self).total == old(self).total + n,
            final(self).first_byte == (match old(self).first_byte {
                Some(d) => Some(d),
                None => Some(elapsed),
            }),
            r == (final(self).open() && elapsed.nanos <= TIMEOUT_SECS * 1_000_000_000),
    {
        if self.first_byte.is_none() {
            self.first_byte = Some(elapsed);
        }
        self.total += n;
        !(self.total >= PAYLOAD_BYTES || elapsed.nanos > TIMEOUT_SECS as u128 * 1_000_000_000)
    }

    /// What an error means: a measurement that failed, where nothing came yet.
    pub fn fail(&self, error: &str) -> (r: Option<Measurement>)
        ensures
            self.total > 0 ==> r is None,
            self.total == 0 ==> (r matches Some(m) && m@ == (MeasurementView {
                name: self.name@,
                mbps: None,
                first_byte: self.first_byte,
                note: Some(error@),
            })),
    {
        if self.total > 0 {
            return None;
        }
        Some(
            Measurement {
                name: self.name.clone(),
                mbps: None,
                first_byte: self.first_byte,
                note: Some(error.to_owned()),
            },
        )
    }

    /// Whether enough came, over a time long enough.
    pub open spec fn sufficient(self, transfer: Duration) -> bool {
        self.total >= MIN_BYTES && transfer.nanos > 50_000_000
    }

    /// The measurement from all that came. The time counts from the first data
    /// on: else making the connection would go into the speed.
    pub fn finish(&self, transfer: Duration) -> (r: Measurement)
        requires
            self.total <= PAYLOAD_BYTES + READ_SIZE,
            transfer.nanos <= u64::MAX,
        ensures
            r@.valid(),
            r@ == (MeasurementView {
                name: self.name@,
                mbps: if self.sufficient(transfer) {
                    Some(Rate { bits: (self.total * 8) as u64, nanos: transfer.nanos as u64 })
                } else {
                    None
                },
                first_byte: self.first_byte,
                note: if self.sufficient(transfer) {
                    None
                } else {
                    Some(
                        "получено "@ + dec(self.total as nat / 1024)
                            + " КБ — слишком мало для замера"@,
                    )
                },
            }),
    {
        let enough = self.total >= MIN_BYTES && transfer.nanos > 50_000_000;
        if enough {
            Measurement {
                name: self.name.clone(),
                mbps: Some(
                    Rate { bits: self.total as u64 * 8, nanos: transfer.nanos as u64 },
                ),
                first_byte: self.first_byte,
                note: None,
            }
        } else {
            Measurement {
                name: self.name.clone(),
                mbps: None,
                first_byte: self.first_byte,
                note: Some(
                    String::from_str("получено ").concat(
                        decimal((self.total / 1024) as u128).as_str(),
                    ).concat(" КБ — слишком мало для замера"),
                ),
            }
        }
    }
}

proof fn lemma_fractions(p1: int, q1: int, p2: int, q2: int, p3: int, q3: int)
    by (nonlinear_arith)
    requires
        q1 > 0,
        q2 > 0,
        q3 > 0,
        p1 * q2 <= p2 * q1,
        p2 * q3 <= p3 * q2,
    ensures
        p1 * q3 <= p3 * q1,
{
    assert((p1 * q2) * q3 <= (p2 * q1) * q3);
    assert((p2 * q3) * q1 <= (p3 * q2) * q1);
    assert((p1 * q3) * q2 <= (p3 * q1) * q2);
}

proof fn lemma_no_faster(a: Rate, b: Rate, c: Rate)
    requires
        a.nanos > 0,
        b.nanos > 0,
        c.nanos > 0,
        !a.faster(b),
        !b.faster(c),
    ensures
        !a.faster(c),
{
    lemma_fractions(
        a.bits as int,
        a.nanos as int,
        b.bits as int,
        b.nanos as int,
        c.bits as int,
        c.nanos as int,
    );
}

proof fn lemma_fastest_is_a_maximum(
    list: Seq<MeasurementView>,
    sign: spec_fn(MeasurementView) -> bool,
)
    requires
        forall|k: int| 0 <= k < list.len() ==> (#[trigger] list[k]).valid(),
    ensures
        match fastest(list, sign) {
            Some(i) => {
                &&& 0 <= i < list.len() && list[i].mbps is Some && sign(list[i])
                &&& forall|k: int|
                    0 <= k < list.len() && (#[trigger] list[k]).mbps is Some && sign(list[k])
                        ==> !list[k].mbps->0.faster(list[i].mbps->0)
            },
            None => forall|k: int|
                0 <= k < list.len() ==> (#[trigger] list[k]).mbps is None || !sign(list[k]),
        },
    decreases list.len(),
{
    if list.len() > 0 {
        let n = list.len() - 1;
        let rest = list.drop_last();
        assert forall|k: int| 0 <= k < rest.len() implies (#[trigger] rest[k]).valid() by {
            assert(list[k].valid());
        }
        assert(list[n].valid());
        lemma_fastest_is_a_maximum(rest, sign);
        let m = list.last();
        match fastest(list, sign) {
            Some(i) => {
                assert forall|k: int|
                    0 <= k < list.len() && (#[trigger] list[k]).mbps is Some && sign(
                        list[k],
                    ) implies !list[k].mbps->0.faster(list[i].mbps->0) by {
                    if k < n {
                        assert(rest[k] == list[k]);
                        let j = fastest(rest, sign)->0;
                        assert(rest[j] == list[j]);
                        assert(list[j].valid());
                        if i == n {
                            let a = list[k].mbps->0;
                            let b = list[j].mbps->0;
                            let c = m.mbps->0;
                            assert(!b.faster(c)) by (nonlinear_arith)
                                requires
                                    c.bits * b.nanos > b.bits * c.nanos,
                                    b.faster(c) == (b.bits * c.nanos > c.bits * b.nanos),
                            ;
                            lemma_no_faster(a, b, c);
                        }
                    } else if i < n {
                        assert(rest[i] == list[i]);
                    }
                }
            },
            None => {
                assert forall|k: int| 0 <= k < list.len() implies (
                #[trigger] list[k]).mbps is None || !sign(list[k]) by {
                    if k < n {
                        assert(rest[k].mbps is None || !sign(rest[k]));
                    }
                }
            },
        }
    }
}

proof fn lemma_slowest_is_a_minimum(list: Seq<MeasurementView>)
    requires
        forall|k: int| 0 <= k < list.len() ==> (#[trigger] list[k]).valid(),
    ensures
        match slowest(list) {
            Some(i) => {
                &&& 0 <= i < list.len() && list[i].mbps is Some
                &&& forall|k: int|
                    0 <= k < list.len() && (#[trigger] list[k]).mbps is Some
                        ==> !list[i].mbps->0.faster(list[k].mbps->0)
            },
            None => forall|k: int| 0 <= k < list.len() ==> (#[trigger] list[k]).mbps is None,
        },
    decreases list.len(),
{
    if list.len() > 0 {
        let n = list.len() - 1;
        let rest = list.drop_last();
        assert forall|k: int| 0 <= k < rest.len() implies (#[trigger] rest[k]).valid() by {
            assert(list[k].valid());
        }
        assert(list[n].valid());
        lemma_slowest_is_a_minimum(rest);
        let m = list.last();
        match slowest(list) {
            Some(i) => {
                assert forall|k: int|
                    0 <= k < list.len() && (
                    #[trigger] list[k]).mbps is Some implies !list[i].mbps->0.faster(
                    list[k].mbps->0,
                ) by {
                    if k < n {
                        assert(rest[k] == list[k]);
                        let j = slowest(rest)->0;
                        assert(rest[j] == list[j]);
                        assert(list[j].valid());
                        if i == n {
                            lemma_no_faster(m.mbps->0, list[j].mbps->0, list[k].mbps->0);
                        }
                    } else if i < n {
                        assert(rest[i] == list[i]);
                        let a = m.mbps->0;
                        let b = list[i].mbps->0;
                        assert(!b.faster(a)) by (nonlinear_arith)
                            requires
                                a.bits * b.nanos > b.bits * a.nanos,
                                b.faster(a) == (b.bits * a.nanos > a.bits * b.nanos),
                        ;
                    }
                }
            },
            None => {
                assert forall|k: int| 0 <= k < list.len() implies (
                #[trigger] list[k]).mbps is None by {
                    if k < n {
                        assert(rest[k].mbps is None);
                    }
                }
            },
        }
    }
}

/// Whether a place is among the fastest ones: no other carried more bits in the
/// same time.
pub open spec fn tops(list: Seq<MeasurementView>, i: int) -> bool {
    &&& 0 <= i < list.len() && list[i].mbps is Some
    &&& forall|k: int|
        0 <= k < list.len() && (#[trigger] list[k]).mbps is Some ==> list[k].mbps->0.bits
            * list[i].mbps->0.nanos <= list[i].mbps->0.bits * list[k].mbps->0.nanos
}

/// Whether a place is among the slowest ones.
pub open spec fn trails(list: Seq<MeasurementView>, j: int) -> bool {
    &&& 0 <= j < list.len() && list[j].mbps is Some
    &&& forall|k: int|
        0 <= k < list.len() && (#[trigger] list[k]).mbps is Some ==> list[j].mbps->0.bits
            * list[k].mbps->0.nanos <= list[k].mbps->0.bits * list[j].mbps->0.nanos
}

/// Whatever the order of the list, it is a fastest place that is compared with a
/// slowest one. A drop is found only between places that differ four times or
/// more; it is put down to throttling only where the slow one answers less than
/// twice as late. A speed is called even only where no place is throttled: none
/// answers within a hundred and fifty milliseconds and then carries less than
/// two Mbit/s.
pub proof fn speeds_are_compared_at_their_extremes(list: Seq<MeasurementView>)
    requires
        forall|k: int| 0 <= k < list.len() ==> (#[trigger] list[k]).valid(),
    ensures
        match conclusion(list) {
            VerdictView::Unavailable => forall|k: int|
                0 <= k < list.len() ==> (#[trigger] list[k]).mbps is None,
            VerdictView::Even { best } => {
                &&& exists|i: int| #[trigger] tops(list, i) && list[i].mbps == Some(best)
                &&& forall|k: int|
                    0 <= k < list.len() && (#[trigger] list[k]).mbps is Some
                        && list[k].first_byte is Some && list[k].first_byte->0.nanos
                        < 150_000_000 ==> list[k].mbps->0.bits * 1000 >= 2
                        * list[k].mbps->0.nanos
            },
            VerdictView::SlowBody { name, mbps } => exists|k: int|
                0 <= k < list.len() && (#[trigger] list[k]).name == name && list[k].mbps == Some(
                    mbps,
                ) && mbps.bits * 1000 < 2 * mbps.nanos && list[k].first_byte is Some
                    && list[k].first_byte->0.nanos < 150_000_000,
            VerdictView::Uneven { fast, slow, ratio } => exists|i: int, j: int|
                #[trigger] tops(list, i) && #[trigger] trails(list, j) && list[i].name == fast
                    && list[j].name == slow && list[i].first_byte is Some
                    && list[j].first_byte is Some && list[j].first_byte->0.nanos < 2
                    * list[i].first_byte->0.nanos && ratio.num == list[i].mbps->0.bits
                    * list[j].mbps->0.nanos && ratio.den == list[j].mbps->0.bits
                    * list[i].mbps->0.nanos && ratio.den > 0 && ratio.num >= 4 * ratio.den,
            VerdictView::Inconclusive { best, slow, slow_mbps, latency_ratio } => exists|
                i: int,
                j: int,
            |
                #[trigger] tops(list, i) && #[trigger] trails(list, j) && list[i].mbps == Some(best)
                    && list[j].name == slow && list[j].mbps == Some(slow_mbps) && slow_mbps.bits
                    > 0 && best.bits * slow_mbps.nanos >= 4 * (slow_mbps.bits * best.nanos) && (
                list[i].first_byte is None || list[j].first_byte is None
                    || list[j].first_byte->0.nanos >= 2 * list[i].first_byte->0.nanos),
        },
{
    lemma_fastest_is_a_maximum(list, any_sign());
    lemma_fastest_is_a_maximum(list, throttled_sign());
    lemma_slowest_is_a_minimum(list);
    lemma_slowest(list);
    let sign = throttled_sign();
    if let Some(i) = fastest(list, any_sign()) {
        let j = slowest(list)->0;
        assert(tops(list, i)) by {
            assert forall|k: int|
                0 <= k < list.len() && (#[trigger] list[k]).mbps is Some implies list[k].mbps->0.bits
                * list[i].mbps->0.nanos <= list[i].mbps->0.bits * list[k].mbps->0.nanos by {
                assert(any_sign()(list[k]));
            }
        }
        assert(trails(list, j));
        let best = list[i].mbps->0;
        let worst = list[j].mbps->0;
        assert(list[i].valid() && list[j].valid());
        assert(0 <= best.bits * worst.nanos <= u128::MAX) by (nonlinear_arith)
            requires
                0 <= best.bits <= u64::MAX,
                0 <= worst.nanos <= u64::MAX,
        ;
        assert(0 <= worst.bits * best.nanos <= u128::MAX) by (nonlinear_arith)
            requires
                0 <= worst.bits <= u64::MAX,
                0 <= best.nanos <= u64::MAX,
        ;
        if worst.bits > 0 {
            assert(worst.bits * best.nanos > 0) by (nonlinear_arith)
                requires
                    worst.bits > 0,
                    best.nanos > 0,
            ;
        }
        if conclusion(list) is Even {
            assert forall|k: int|
                0 <= k < list.len() && (#[trigger] list[k]).mbps is Some
                    && list[k].first_byte is Some && list[k].first_byte->0.nanos
                    < 150_000_000 implies list[k].mbps->0.bits * 1000 >= 2
                * list[k].mbps->0.nanos by {
                assert(!sign(list[k]));
            }
        }
    } else {
        assert forall|k: int| 0 <= k < list.len() implies (#[trigger] list[k]).mbps is None by {
            assert(any_sign()(list[k]));
        }
    }
}

/// A drop is not overlooked: where some place is at least four times as fast as
/// another, and data came from every place that was measured, the conclusion is
/// a drop, whatever the order of the list.
pub proof fn a_drop_is_not_overlooked(list: Seq<MeasurementView>, k: int, l: int)
    requires
        forall|i: int| 0 <= i < list.len() ==> (#[trigger] list[i]).valid(),
        forall|i: int|
            0 <= i < list.len() && (#[trigger] list[i]).mbps is Some ==> list[i].mbps->0.bits > 0,
        0 <= k < list.len(),
        0 <= l < list.len(),
        list[k].mbps is Some,
        list[l].mbps is Some,
        list[k].mbps->0.bits * list[l].mbps->0.nanos >= 4 * (list[l].mbps->0.bits
            * list[k].mbps->0.nanos),
    ensures
        conclusion(list) is Uneven || conclusion(list) is Inconclusive,
{
    lemma_fastest_is_a_maximum(list, any_sign());
    lemma_slowest_is_a_minimum(list);
    lemma_slowest(list);
    assert(any_sign()(list[k]));
    let i = fastest(list, any_sign())->0;
    let j = slowest(list)->0;
    let best = list[i].mbps->0;
    let worst = list[j].mbps->0;
    let a = list[k].mbps->0;
    let b = list[l].mbps->0;
    assert(list[i].valid() && list[j].valid() && list[k].valid() && list[l].valid());
    assert((4 * worst.bits) * b.nanos <= (4 * b.bits) * worst.nanos) by (nonlinear_arith)
        requires
            worst.bits * b.nanos <= b.bits * worst.nanos,
    ;
    assert((4 * b.bits) * a.nanos <= a.bits * b.nanos) by (nonlinear_arith)
        requires
            a.bits * b.nanos >= 4 * (b.bits * a.nanos),
    ;
    lemma_fractions(
        4 * worst.bits,
        worst.nanos as int,
        4 * b.bits,
        b.nanos as int,
        a.bits as int,
        a.nanos as int,
    );
    lemma_fractions(
        4 * worst.bits,
        worst.nanos as int,
        a.bits as int,
        a.nanos as int,
        best.bits as int,
        best.nanos as int,
    );
    assert(best.bits * worst.nanos >= 4 * (worst.bits * best.nanos)) by (nonlinear_arith)
        requires
            (4 * worst.bits) * best.nanos <= best.bits * worst.nanos,
    ;
}

/// A measurement is told with its rate, and with the delay of the first data
/// where that is known; one that failed, with its reason.
pub proof fn a_measurement_is_told(m: MeasurementView)
    ensures
        m.mbps is Some && m.first_byte is Some ==> m.description() == m.name + ": "@ + (
        m.mbps->0).notation() + " Мбит/с"@ + (", первые данные через "@ + dec(
            (m.first_byte->0).nanos as nat / 1_000_000,
        ) + " мс"@),
        m.mbps is Some && m.first_byte is None ==> m.description() == m.name + ": "@ + (
        m.mbps->0).notation() + " Мбит/с"@ + Seq::empty(),
        m.mbps is None && m.note is Some ==> m.description() == m.name + ": замер не удался"@ + (
        " ("@ + m.note->0 + ")"@),
        m.mbps is None && m.note is None ==> m.description() == m.name + ": замер не удался"@
            + Seq::empty(),
{
}

/// A speed is rounded to the nearest tenth of a Mbit/s: it is no further from
/// the speed than half a tenth, and exactly between two tenths it is the even
/// one. It is written with one decimal.
pub proof fn speeds_are_rounded_to_the_nearest(rate: Rate)
    requires
        rate.valid(),
    ensures
        2 * (rate.bits * 10_000 - rate.tenths() * rate.nanos) <= rate.nanos,
        2 * (rate.tenths() * rate.nanos - rate.bits * 10_000) <= rate.nanos,
        2 * (rate.bits * 10_000 - rate.tenths() * rate.nanos) == rate.nanos || 2 * (rate.tenths()
            * rate.nanos - rate.bits * 10_000) == rate.nanos ==> rate.tenths() % 2 == 0,
        rate.notation() == dec(rate.tenths() / 10) + "."@ + dec(rate.tenths() % 10),
        rate.tenths() == 10 * (rate.tenths() / 10) + rate.tenths() % 10,
{
    let n = rate.bits * 10_000;
    let d = rate.nanos as int;
    let q = n / d;
    let rest = n % d;
    assert(n == q * d + rest && 0 <= rest < d && q >= 0) by (nonlinear_arith)
        requires
            d > 0,
            n >= 0,
            q == n / d,
            rest == n % d,
    ;
    assert((q + 1) * d == q * d + d) by (nonlinear_arith);
}

} // verus!
