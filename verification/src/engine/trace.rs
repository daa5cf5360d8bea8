//! The route to a target, and what it shows.
//!
//! A list of addresses explains nothing by itself. What matters is where the
//! way breaks off: inside the flat, at the provider, or farther on. So every
//! node is assigned to a part of the network at once.

use vstd::prelude::*;
use vstd::string::StringExecFns;
use crate::net::{IpAddr, Ipv4Addr};
use crate::scan::{pad_left, right_in};
use crate::text::{dec, decimal};
use crate::time::Duration;
use super::icmp::{Reply, ReplyKind};

verus! {

/// The longest route. Nothing real is farther than this, and further attempts
/// are only seconds of waiting.
pub const MAX_HOPS: u8 = 30;

/// How many probes go to a node. A single one is too often lost on nodes that
/// limit how often they answer.
pub const PROBES_PER_HOP: usize = 3;

/// How long a probe waits, in milliseconds.
pub const PROBE_TIMEOUT_MS: u64 = 1200;

/// How many silent nodes in a row mean that there is a wall.
pub const WALL: usize = 5;

/// To which part of the network a node belongs.
#[derive(Debug, Clone, Copy, PartialEq, Eq, Structural)]
pub enum Segment {
    /// The user's own network.
    Local,
    /// A private address of another network: a second router, the house's
    /// equipment or a service network. It must not be called the provider.
    PrivateTransit,
    /// An address of 100.64.0.0/10: the provider shares addresses.
    Cgnat,
    /// A public address: here the internet begins.
    Public,
}

impl Segment {
    pub open spec fn title_text(self) -> Seq<char> {
        match self {
            Segment::Local => "ваша сеть"@,
            Segment::PrivateTransit => "частная сеть по пути (ещё один роутер или сеть дома)"@,
            Segment::Cgnat => "сеть провайдера (общий адрес, CGNAT)"@,
            Segment::Public => "провайдер и дальше"@,
        }
    }

    pub fn title(self) -> (r: &'static str)
        ensures
            r@ == self.title_text(),
    {
        match self {
            Segment::Local => "ваша сеть",
            Segment::PrivateTransit => "частная сеть по пути (ещё один роутер или сеть дома)",
            Segment::Cgnat => "сеть провайдера (общий адрес, CGNAT)",
            Segment::Public => "провайдер и дальше",
        }
    }

    pub open spec fn external(self) -> bool {
        self == Segment::Cgnat || self == Segment::Public
    }

    /// Whether private networks are left behind. Only such a node may be shown
    /// as the provider.
    pub fn is_external(self) -> (r: bool)
        ensures
            r == self.external(),
    {
        match self {
            Segment::Cgnat => true,
            Segment::Public => true,
            _ => false,
        }
    }
}

pub open spec fn rtt_text(rtt: Duration) -> Seq<char> {
    if rtt.millis() == 0 {
        "меньше 1 мс"@
    } else {
        dec(rtt.millis()) + " мс"@
    }
}

/// A response time in plain words. A neighbouring router honestly takes zero
/// milliseconds, but "0 мс" would read as no measurement at all.
pub fn format_rtt(rtt: Duration) -> (r: String)
    ensures
        r@ == rtt_text(rtt),
{
    if rtt.as_millis() == 0 {
        String::from_str("меньше 1 мс")
    } else {
        decimal(rtt.as_millis()).concat(" мс")
    }
}

/// A node on the way.
#[derive(Debug)]
pub struct Hop {
    /// Its number, which is the time to live at which it answered.
    pub ttl: u8,
    /// Its address. None where it stayed silent.
    pub address: Option<IpAddr>,
    /// The best response time of the probes.
    pub rtt: Option<Duration>,
    /// How many of the probes were left without an answer.
    pub lost: usize,
    pub segment: Option<Segment>,
    /// The node refused explicitly to let traffic through.
    pub prohibited: bool,
}

impl Clone for Hop {
    fn clone(&self) -> (r: Self)
        ensures
            r == *self,
    {
        let address = match &self.address {
            Some(a) => Some(a.clone()),
            None => None,
        };
        Hop {
            ttl: self.ttl,
            address,
            rtt: self.rtt,
            lost: self.lost,
            segment: self.segment,
            prohibited: self.prohibited,
        }
    }
}

impl Hop {
    pub open spec fn description(self) -> Seq<char> {
        right_in(dec(self.ttl as nat), 2) + (match self.address {
            Some(addr) => ". "@ + addr.notation() + " — "@ + (match self.rtt {
                Some(rtt) => rtt_text(rtt),
                None => "—"@,
            }) + (match self.segment {
                Some(s) => ", "@ + s.title_text(),
                None => Seq::empty(),
            }) + (if self.lost > 0 {
                ", потеряно проб: "@ + dec(self.lost as nat) + "/"@ + dec(
                    PROBES_PER_HOP as nat,
                )
            } else {
                Seq::empty()
            }),
            None => ". нет ответа"@,
        })
    }

    /// A line for the report, in the usual shape of a trace.
    pub fn describe(&self) -> (r: String)
        ensures
            r@ == self.description(),
    {
        let number = pad_left(decimal(self.ttl as u128).as_str(), 2);
        let rest = match &self.address {
            Some(addr) => {
                let rtt = match self.rtt {
                    Some(rtt) => format_rtt(rtt),
                    None => String::from_str("—"),
                };
                let segment = match self.segment {
                    Some(s) => String::from_str(", ").concat(s.title()),
                    None => String::new(),
                };
                let lost = if self.lost > 0 {
                    String::from_str(", потеряно проб: ").concat(
                        decimal(self.lost as u128).as_str(),
                    ).concat("/").concat(decimal(PROBES_PER_HOP as u128).as_str())
                } else {
                    String::new()
                };
                String::from_str(". ").concat(addr.text().as_str()).concat(" — ").concat(
                    rtt.as_str(),
                ).concat(segment.as_str()).concat(lost.as_str())
            },
            None => String::from_str(". нет ответа"),
        };
        number.concat(rest.as_str())
    }

    pub open spec fn is_outside(self) -> bool {
        self.segment matches Some(s) && s.external()
    }
}

/// What a trace came to.
#[derive(Debug, Clone)]
pub struct Trace {
    pub hops: Vec<Hop>,
    /// Whether the target was reached.
    pub reached: bool,
    /// The first node outside private networks: what the user would call the
    /// provider.
    pub first_external: Option<Hop>,
}

#[verifier::ext_equal]
pub struct TraceView {
    pub hops: Seq<Hop>,
    pub reached: bool,
    pub first_external: Option<Hop>,
}

impl View for Trace {
    type V = TraceView;

    open spec fn view(&self) -> TraceView {
        TraceView {
            hops: self.hops@,
            reached: self.reached,
            first_external: self.first_external,
        }
    }
}

/// The last node that answered at all.
pub open spec fn last_heard(hops: Seq<Hop>) -> Option<Hop>
    decreases hops.len(),
{
    if hops.len() == 0 {
        None
    } else if hops.last().address is Some {
        Some(hops.last())
    } else {
        last_heard(hops.drop_last())
    }
}

/// How many nodes at the end stayed silent.
pub open spec fn silence_behind(hops: Seq<Hop>) -> nat
    decreases hops.len(),
{
    if hops.len() == 0 || hops.last().address is Some {
        0
    } else {
        silence_behind(hops.drop_last()) + 1
    }
}

/// The first node outside private networks.
pub open spec fn first_outside(hops: Seq<Hop>) -> Option<Hop>
    decreases hops.len(),
{
    if hops.len() == 0 {
        None
    } else {
        match first_outside(hops.drop_last()) {
            Some(h) => Some(h),
            None => if hops.last().is_outside() {
                Some(hops.last())
            } else {
                None
            },
        }
    }
}

pub open spec fn hop_ref(h: Option<&Hop>) -> Option<Hop> {
    match h {
        Some(h) => Some(*h),
        None => None,
    }
}

impl TraceView {
    /// Whether the nodes are numbered from one on, and the provider is the
    /// first of them outside private networks.
    pub open spec fn well_formed(self) -> bool {
        &&& self.hops.len() <= MAX_HOPS
        &&& forall|i: int|
            0 <= i < self.hops.len() ==> (#[trigger] self.hops[i]).ttl == i + 1
                && self.hops[i].lost <= PROBES_PER_HOP
        &&& self.first_external == first_outside(self.hops)
    }

    /// The trace with one more node.
    pub open spec fn extended(self, hop: Hop, reached: bool) -> TraceView {
        TraceView {
            hops: self.hops.push(hop),
            reached: self.reached || reached,
            first_external: match self.first_external {
                Some(h) => Some(h),
                None => if hop.is_outside() {
                    Some(hop)
                } else {
                    None
                },
            },
        }
    }
}

/// What is shown as the provider is outside private networks: a second router
/// in the chain never is.
pub proof fn provider_is_outside(trace: TraceView)
    requires
        trace.well_formed(),
    ensures
        match trace.first_external {
            Some(h) => h.is_outside() && trace.hops.contains(h),
            None => forall|i: int|
                0 <= i < trace.hops.len() ==> !(#[trigger] trace.hops[i]).is_outside(),
        },
{
    lemma_first_outside(trace.hops);
}

proof fn lemma_first_outside(hops: Seq<Hop>)
    ensures
        match first_outside(hops) {
            Some(h) => h.is_outside() && hops.contains(h),
            None => forall|i: int| 0 <= i < hops.len() ==> !(#[trigger] hops[i]).is_outside(),
        },
    decreases hops.len(),
{
    if hops.len() > 0 {
        let q = hops.drop_last();
        lemma_first_outside(q);
        match first_outside(q) {
            Some(h) => {
                let i = choose|i: int| 0 <= i < q.len() && q[i] == h;
                assert(hops[i] == h);
            },
            None => {
                assert forall|i: int|
                    0 <= i < hops.len() && first_outside(hops) is None implies !(
                #[trigger] hops[i]).is_outside() by {
                    if i < q.len() {
                        assert(hops[i] == q[i]);
                    }
                }
                if hops.last().is_outside() {
                    assert(hops[hops.len() - 1] == hops.last());
                }
            },
        }
    }
}

impl Trace {
    pub fn new() -> (r: Self)
        ensures
            r@ == (TraceView { hops: Seq::empty(), reached: false, first_external: None }),
            r@.well_formed(),
    {
        Trace { hops: Vec::new(), reached: false, first_external: None }
    }

    /// The last node that answered at all.
    pub fn last_responding(&self) -> (r: Option<&Hop>)
        ensures
            hop_ref(r) == last_heard(self@.hops),
    {
        let mut i: usize = self.hops.len();
        assert(self.hops@.take(i as int) =~= self.hops@);
        while i > 0
            invariant
                i <= self.hops@.len(),
                last_heard(self.hops@.take(i as int)) == last_heard(self.hops@),
            decreases i,
        {
            i -= 1;
            assert(self.hops@.take(i + 1).drop_last() =~= self.hops@.take(i as int));
            if self.hops[i].address.is_some() {
                return Some(&self.hops[i]);
            }
        }
        None
    }

    /// How many nodes in a row stayed silent at the end of the route.
    ///
    /// One or two are nothing unusual. A long silent tail means that packets
    /// simply go no farther.
    pub fn silent_tail(&self) -> (r: usize)
        ensures
            r == silence_behind(self@.hops),
    {
        let total: usize = self.hops.len();
        let mut i: usize = total;
        let mut count: usize = 0;
        assert(self.hops@.take(i as int) =~= self.hops@);
        while i > 0
            invariant
                total == self.hops@.len(),
                i <= total,
                count + i == total,
                count + silence_behind(self.hops@.take(i as int)) == silence_behind(self.hops@),
            decreases i,
        {
            assert(self.hops@.take(i as int).drop_last() =~= self.hops@.take(i - 1));
            if self.hops[i - 1].address.is_some() {
                return count;
            }
            i -= 1;
            count += 1;
        }
        count
    }

    /// The node after which the way broke off, if it did.
    pub fn break_after(&self) -> (r: Option<&Hop>)
        ensures
            hop_ref(r) == (if self@.reached {
                None
            } else {
                last_heard(self@.hops)
            }),
    {
        if self.reached {
            return None;
        }
        self.last_responding()
    }
}

impl Default for Trace {
    fn default() -> (r: Self)
        ensures
            r@ == (TraceView { hops: Seq::empty(), reached: false, first_external: None }),
    {
        Trace::new()
    }
}

/// A node before anything is known of it.
pub open spec fn unknown_hop(ttl: u8) -> Hop {
    Hop { ttl, address: None, rtt: None, lost: 0, segment: None, prohibited: false }
}

/// A node after an answer: the first one gives its address, further ones only
/// improve the time.
pub open spec fn improved(hop: Hop, from: Option<IpAddr>, rtt: Option<Duration>) -> Hop {
    Hop {
        address: if hop.address is None {
            from
        } else {
            hop.address
        },
        rtt: match (hop.rtt, rtt) {
            (Some(best), Some(t)) => Some(best.shorter_of(t)),
            (None, Some(t)) => Some(t),
            (best, None) => best,
        },
        ..hop
    }
}

/// A node after a reply.
pub open spec fn absorbed(hop: Hop, reply: Reply) -> Hop {
    if !reply.kind.responded() {
        Hop { lost: (hop.lost + 1) as usize, ..hop }
    } else {
        let better = improved(hop, reply.from, reply.rtt);
        Hop { prohibited: hop.prohibited || reply.kind == ReplyKind::Prohibited, ..better }
    }
}

fn absorb(hop: &mut Hop, from: Option<IpAddr>, rtt: Option<Duration>)
    ensures
        *final(hop) == improved(*old(hop), from, rtt),
{
    if hop.address.is_none() {
        hop.address = from;
    }
    match rtt {
        Some(t) => {
            hop.rtt =
            Some(
                match hop.rtt {
                    Some(best) => best.min(t),
                    None => t,
                },
            );
        },
        None => {},
    }
}

/// A node with its part of the network.
pub open spec fn placed(hop: Hop, local: Seq<Ipv4Addr>) -> Hop {
    match hop.address {
        Some(IpAddr::V4(a)) => Hop { segment: Some(segment_of(a, local)), ..hop },
        _ => hop,
    }
}

/// A trace in progress.
///
/// It says which probe to send next and takes in what came back. Tracing takes
/// seconds, so every finished node is there to be shown at once.
#[derive(Debug)]
pub struct Route {
    /// Addresses of the user's own networks.
    pub local: Vec<Ipv4Addr>,
    pub trace: Trace,
    /// The node being probed.
    pub hop: Hop,
    /// How many probes of it are done.
    pub probes: usize,
    /// Whether a probe of it reached the target.
    pub at_target: bool,
    pub finished: bool,
}

/// Whether there is a reason to stop after a node.
pub open spec fn stops(trace: TraceView) -> bool {
    trace.reached || silence_behind(trace.hops) >= WALL || trace.hops.len() >= MAX_HOPS
}

impl Route {
    /// Whether the parts of a trace in progress fit together.
    pub open spec fn well_formed(self) -> bool {
        &&& self.trace@.well_formed()
        &&& self.probes < PROBES_PER_HOP
        &&& self.hop.lost <= self.probes
        &&& self.hop.segment is None
        &&& self.finished == stops(self.trace@)
        &&& !self.finished ==> self.hop.ttl == self.trace@.hops.len() + 1
    }

    pub fn new(local: Vec<Ipv4Addr>) -> (r: Self)
        ensures
            r.well_formed(),
            r.local@ == local@,
            r.trace@ == (TraceView { hops: Seq::empty(), reached: false, first_external: None }),
            r.hop == unknown_hop(1),
            r.probes == 0,
            !r.at_target,
            !r.finished,
    {
        Route {
            local,
            trace: Trace::new(),
            hop: Hop {
                ttl: 1,
                address: None,
                rtt: None,
                lost: 0,
                segment: None,
                prohibited: false,
            },
            probes: 0,
            at_target: false,
            finished: false,
        }
    }

    /// The time to live of the next probe, as long as there is one to send.
    pub fn next_probe(&self) -> (r: Option<u8>)
        requires
            self.well_formed(),
        ensures
            r == (if self.finished {
                None
            } else {
                Some(self.hop.ttl)
            }),
            r matches Some(ttl) ==> 1 <= ttl <= MAX_HOPS,
    {
        if self.finished {
            None
        } else {
            Some(self.hop.ttl)
        }
    }

    /// The node that a reply completes.
    pub open spec fn completed(self, reply: Reply) -> Hop {
        placed(absorbed(self.hop, reply), self.local@)
    }

    /// Takes in the reply to a probe, and says whether it completed a node.
    pub fn feed(&mut self, reply: Reply) -> (r: bool)
        requires
            old(self).well_formed(),
            !old(self).finished,
        ensures
            final(self).well_formed(),
            final(self).local@ == old(self).local@,
            final(self).probes_left() < old(self).probes_left(),
            r == (old(self).probes + 1 == PROBES_PER_HOP),
            // In plain terms: a refusal is never forgotten, a silent probe is
            // counted, and a finished node goes behind the others.
            !r ==> final(self).hop.prohibited == (old(self).hop.prohibited || reply.kind
                == ReplyKind::Prohibited),
            !r ==> final(self).hop.lost == old(self).hop.lost + (if reply.kind
                == ReplyKind::Timeout || reply.kind == ReplyKind::Error {
                1int
            } else {
                0int
            }),
            r ==> final(self).trace@.hops.len() == old(self).trace@.hops.len() + 1,
            r ==> final(self).trace@.hops.drop_last() == old(self).trace@.hops,
            r ==> final(self).trace@.hops.last().prohibited == (old(self).hop.prohibited
                || reply.kind == ReplyKind::Prohibited),
            r ==> final(self).trace@.hops.last().lost == old(self).hop.lost + (if reply.kind
                == ReplyKind::Timeout || reply.kind == ReplyKind::Error {
                1int
            } else {
                0int
            }),
            r ==> final(self).trace@.reached == (old(self).trace@.reached || old(self).at_target
                || reply.kind == ReplyKind::Echo),
            !r ==> {
                &&& final(self).trace@ == old(self).trace@
                &&& final(self).hop == absorbed(old(self).hop, reply)
                &&& final(self).probes == old(self).probes + 1
                &&& final(self).at_target == (old(self).at_target || reply.kind
                    == ReplyKind::Echo)
                &&& !final(self).finished
            },
            r ==> {
                &&& final(self).trace@ == old(self).trace@.extended(
                    old(self).completed(reply),
                    old(self).at_target || reply.kind == ReplyKind::Echo,
                )
                &&& final(self).probes == 0
                &&& !final(self).at_target
                &&& final(self).finished == stops(final(self).trace@)
                &&& !final(self).finished ==> final(self).hop == unknown_hop(
                    (old(self).hop.ttl + 1) as u8,
                )
            },
    {
        let ghost before = *self;
        let kind = reply.kind;
        if kind.got_response() {
            if kind == ReplyKind::Echo {
                self.at_target = true;
            }
            if kind == ReplyKind::Prohibited {
                self.hop.prohibited = true;
            }
            absorb(&mut self.hop, reply.from, reply.rtt);
        } else {
            self.hop.lost += 1;
        }
        assert(self.hop == absorbed(before.hop, reply));
        self.probes += 1;
        if self.probes < PROBES_PER_HOP {
            return false;
        }
        let mut hop = Hop {
            ttl: self.hop.ttl,
            address: None,
            rtt: None,
            lost: 0,
            segment: None,
            prohibited: false,
        };
        std::mem::swap(&mut hop, &mut self.hop);
        match &hop.address {
            Some(IpAddr::V4(a)) => {
                hop.segment = Some(classify(*a, self.local.as_slice()));
            },
            _ => {},
        }
        assert(hop == before.completed(reply));
        let outside = match hop.segment {
            Some(s) => s.is_external(),
            None => false,
        };
        if outside && self.trace.first_external.is_none() {
            self.trace.first_external = Some(hop.clone());
        }
        let ttl = hop.ttl;
        let ghost hops = self.trace.hops@;
        self.trace.hops.push(hop);
        assert(self.trace.hops@.drop_last() =~= hops);
        if self.at_target {
            self.trace.reached = true;
        }
        self.probes = 0;
        self.at_target = false;
        if self.trace.reached || self.trace.silent_tail() >= WALL || ttl >= MAX_HOPS {
            self.finished = true;
        } else {
            self.hop.ttl = ttl + 1;
        }
        true
    }

    /// How many probes may still be needed.
    pub open spec fn probes_left(self) -> int {
        if self.finished {
            0
        } else {
            (MAX_HOPS - self.trace@.hops.len()) * PROBES_PER_HOP - self.probes
        }
    }
}

/// Every trace ends. Each reply that is taken in leaves fewer probes to send,
/// and there are never more than ninety of them.
pub proof fn trace_ends(route: Route)
    requires
        route.well_formed(),
    ensures
        0 <= route.probes_left() <= 90,
        !route.finished ==> route.probes_left() > 0,
{
}

/// To which part of the network an address belongs.
pub open spec fn segment_of(addr: Ipv4Addr, local: Seq<Ipv4Addr>) -> Segment {
    if shared(addr) {
        Segment::Cgnat
    } else if exists|i: int| 0 <= i < local.len() && neighbours(#[trigger] local[i], addr) {
        Segment::Local
    } else if inward(addr) {
        Segment::PrivateTransit
    } else {
        Segment::Public
    }
}

/// Assigns an address to a part of the network.
///
/// A private address on the second hop is almost always another router in the
/// chain. To call it the provider would tell the user that traffic has left for
/// the internet when it has not even left the house.
pub fn classify(addr: Ipv4Addr, local_prefixes: &[Ipv4Addr]) -> (r: Segment)
    ensures
        r == segment_of(addr, local_prefixes@),
{
    if is_cgnat(addr) {
        return Segment::Cgnat;
    }
    let mut i: usize = 0;
    while i < local_prefixes.len()
        invariant
            i <= local_prefixes@.len(),
            !shared(addr),
            forall|j: int| 0 <= j < i ==> !neighbours(#[trigger] local_prefixes@[j], addr),
        decreases local_prefixes@.len() - i,
    {
        if same_24(local_prefixes[i], addr) {
            return Segment::Local;
        }
        i += 1;
    }
    if is_private(addr) {
        return Segment::PrivateTransit;
    }
    Segment::Public
}

/// The range 100.64.0.0/10.
pub open spec fn shared(addr: Ipv4Addr) -> bool {
    addr.a == 100 && 64 <= addr.b < 128
}

/// Whether an address is of the range that providers use for shared addresses.
pub fn is_cgnat(addr: Ipv4Addr) -> (r: bool)
    ensures
        r == shared(addr),
{
    addr.a == 100 && 64 <= addr.b && addr.b < 128
}

/// The private ranges, self-assigned addresses and the loopback.
pub open spec fn inward(addr: Ipv4Addr) -> bool {
    addr.private() || addr.link_local() || addr.a == 127
}

pub fn is_private(addr: Ipv4Addr) -> (r: bool)
    ensures
        r == inward(addr),
{
    addr.is_private() || addr.is_link_local() || addr.a == 127
}

pub open spec fn neighbours(a: Ipv4Addr, b: Ipv4Addr) -> bool {
    a.a == b.a && a.b == b.b && a.c == b.c
}

/// A rough "same network": the first three octets agree.
///
/// The exact mask is known only of the computer's own interface, so the
/// commonest one at home is taken. A mistake here would move the name of a
/// part, not the place of a break.
pub fn same_24(a: Ipv4Addr, b: Ipv4Addr) -> (r: bool)
    ensures
        r == neighbours(a, b),
{
    a.a == b.a && a.b == b.b && a.c == b.c
}

/// A node is what the three replies to its probes make of it. It forbids traffic
/// exactly where one of them says so. Lost are those without an answer. The
/// address is that of the first answer that has one, the time is the least of
/// those that came, and a node with an address of IPv4 has its part of the
/// network.
pub proof fn three_replies_make_a_node(
    ttl: u8,
    a: Reply,
    b: Reply,
    c: Reply,
    local: Seq<Ipv4Addr>,
)
    ensures
        ({
            let hop = placed(absorbed(absorbed(absorbed(unknown_hop(ttl), a), b), c), local);
            let silent = |r: Reply| r.kind == ReplyKind::Timeout || r.kind == ReplyKind::Error;
            let count = |r: Reply| if silent(r) { 1int } else { 0int };
            let times = |r: Reply, t: Duration| !silent(r) && r.rtt == Some(t);
            &&& hop.ttl == ttl
            &&& hop.prohibited <==> a.kind == ReplyKind::Prohibited || b.kind
                == ReplyKind::Prohibited || c.kind == ReplyKind::Prohibited
            &&& hop.lost == count(a) + count(b) + count(c)
            &&& hop.address == (if !silent(a) && a.from is Some {
                a.from
            } else if !silent(b) && b.from is Some {
                b.from
            } else if !silent(c) {
                c.from
            } else {
                None
            })
            &&& hop.rtt is None <==> (silent(a) || a.rtt is None) && (silent(b) || b.rtt is None)
                && (silent(c) || c.rtt is None)
            &&& hop.rtt matches Some(t) ==> {
                &&& times(a, t) || times(b, t) || times(c, t)
                &&& !silent(a) && a.rtt is Some ==> t.nanos <= a.rtt->0.nanos
                &&& !silent(b) && b.rtt is Some ==> t.nanos <= b.rtt->0.nanos
                &&& !silent(c) && c.rtt is Some ==> t.nanos <= c.rtt->0.nanos
            }
            &&& hop.segment == (match hop.address {
                Some(IpAddr::V4(addr)) => Some(segment_of(addr, local)),
                _ => None,
            })
        }),
{
}

/// The parts of the network by the address alone: 100.64.0.0/10 belongs to the
/// provider, an address that shares three octets with one of the user's own is
/// the user's network, further private, self-assigned and loopback addresses
/// are private transit, and the rest is public.
pub proof fn addresses_tell_their_network(addr: Ipv4Addr, local: Seq<Ipv4Addr>)
    ensures
        ({
            let cgnat = addr.a == 100 && 64 <= addr.b <= 127;
            let own = exists|i: int|
                0 <= i < local.len() && (#[trigger] local[i]).a == addr.a && local[i].b == addr.b
                    && local[i].c == addr.c;
            let private = addr.a == 10 || (addr.a == 172 && 16 <= addr.b <= 31) || (addr.a == 192
                && addr.b == 168) || (addr.a == 169 && addr.b == 254) || addr.a == 127;
            &&& segment_of(addr, local) == Segment::Cgnat <==> cgnat
            &&& segment_of(addr, local) == Segment::Local <==> !cgnat && own
            &&& segment_of(addr, local) == Segment::PrivateTransit <==> !cgnat && !own && private
            &&& segment_of(addr, local) == Segment::Public <==> !cgnat && !own && !private
        }),
        segment_of(addr, local).external() <==> segment_of(addr, local) == Segment::Cgnat
            || segment_of(addr, local) == Segment::Public,
{
    if exists|i: int| 0 <= i < local.len() && neighbours(#[trigger] local[i], addr) {
        let i = choose|i: int| 0 <= i < local.len() && neighbours(#[trigger] local[i], addr);
        assert(local[i].a == addr.a && local[i].b == addr.b && local[i].c == addr.c);
    }
    if exists|i: int|
        0 <= i < local.len() && (#[trigger] local[i]).a == addr.a && local[i].b == addr.b
            && local[i].c == addr.c {
        let i = choose|i: int|
            0 <= i < local.len() && (#[trigger] local[i]).a == addr.a && local[i].b == addr.b
                && local[i].c == addr.c;
        assert(neighbours(local[i], addr));
    }
}

/// The node behind which a way breaks off is the last that answered: it has an
/// address, and every node behind it is silent.
pub proof fn the_last_answer_is_the_last(hops: Seq<Hop>)
    ensures
        match last_heard(hops) {
            Some(h) => exists|i: int|
                0 <= i < hops.len() && #[trigger] hops[i] == h && h.address is Some && (forall|j:
                    int| i < j < hops.len() ==> (#[trigger] hops[j]).address is None),
            None => forall|i: int| 0 <= i < hops.len() ==> (#[trigger] hops[i]).address is None,
        },
    decreases hops.len(),
{
    if hops.len() > 0 {
        let n = hops.len() - 1;
        if hops.last().address is Some {
            assert(hops[n] == last_heard(hops)->0);
        } else {
            let rest = hops.drop_last();
            the_last_answer_is_the_last(rest);
            match last_heard(rest) {
                Some(h) => {
                    let i = choose|i: int|
                        0 <= i < rest.len() && #[trigger] rest[i] == h && h.address is Some && (
                        forall|j: int|
                            i < j < rest.len() ==> (#[trigger] rest[j]).address is None);
                    assert(hops[i] == h);
                    assert forall|j: int| i < j < hops.len() implies (
                    #[trigger] hops[j]).address is None by {
                        if j < n {
                            assert(rest[j].address is None);
                        }
                    }
                },
                None => {
                    assert forall|i: int| 0 <= i < hops.len() implies (
                    #[trigger] hops[i]).address is None by {
                        if i < n {
                            assert(rest[i].address is None);
                        }
                    }
                },
            }
        }
    }
}

/// The silent tail is as long as it can be: all nodes in it are silent, and the
/// node before it, if there is one, answered.
pub proof fn the_tail_is_all_the_silence(hops: Seq<Hop>)
    ensures
        silence_behind(hops) <= hops.len(),
        forall|i: int|
            hops.len() - silence_behind(hops) <= i < hops.len() ==> (
            #[trigger] hops[i]).address is None,
        silence_behind(hops) < hops.len() ==> hops[hops.len() - silence_behind(hops)
            - 1].address is Some,
    decreases hops.len(),
{
    if hops.len() > 0 && hops.last().address is None {
        let rest = hops.drop_last();
        the_tail_is_all_the_silence(rest);
        assert forall|i: int| hops.len() - silence_behind(hops) <= i < hops.len() implies (
        #[trigger] hops[i]).address is None by {
            if i < rest.len() {
                assert(rest[i].address is None);
            }
        }
    }
}

/// The provider is the nearest node with a shared or a public address.
pub proof fn the_provider_is_the_nearest(trace: TraceView)
    requires
        trace.well_formed(),
    ensures
        match trace.first_external {
            Some(h) => exists|i: int|
                0 <= i < trace.hops.len() && #[trigger] trace.hops[i] == h && (h.segment == Some(
                    Segment::Cgnat,
                ) || h.segment == Some(Segment::Public)) && (forall|j: int|
                    0 <= j < i ==> (#[trigger] trace.hops[j]).segment != Some(Segment::Cgnat)
                        && trace.hops[j].segment != Some(Segment::Public)),
            None => forall|j: int|
                0 <= j < trace.hops.len() ==> (#[trigger] trace.hops[j]).segment != Some(
                    Segment::Cgnat,
                ) && trace.hops[j].segment != Some(Segment::Public),
        },
{
    lemma_nearest_outside(trace.hops);
}

proof fn lemma_nearest_outside(hops: Seq<Hop>)
    ensures
        match first_outside(hops) {
            Some(h) => exists|i: int|
                0 <= i < hops.len() && #[trigger] hops[i] == h && h.is_outside() && (forall|j:
                    int| 0 <= j < i ==> !(#[trigger] hops[j]).is_outside()),
            None => forall|j: int| 0 <= j < hops.len() ==> !(#[trigger] hops[j]).is_outside(),
        },
    decreases hops.len(),
{
    if hops.len() > 0 {
        let n = hops.len() - 1;
        let rest = hops.drop_last();
        lemma_nearest_outside(rest);
        assert forall|j: int| 0 <= j < n implies #[trigger] hops[j] == rest[j] by {}
        match first_outside(rest) {
            Some(h) => {
                let i = choose|i: int|
                    0 <= i < rest.len() && #[trigger] rest[i] == h && h.is_outside() && (forall|j:
                        int| 0 <= j < i ==> !(#[trigger] rest[j]).is_outside());
                assert(hops[i] == h);
                assert forall|j: int| 0 <= j < i implies !(#[trigger] hops[j]).is_outside() by {
                    assert(!rest[j].is_outside());
                }
            },
            None => {
                assert forall|j: int| 0 <= j < n implies !(#[trigger] hops[j]).is_outside() by {
                    assert(!rest[j].is_outside());
                }
                if hops.last().is_outside() {
                    assert(hops[n] == first_outside(hops)->0);
                }
            },
        }
    }
}

/// A trace goes on until its target is reached, five nodes in a row stay
/// silent, or thirty nodes are known; nothing else ends it. It reaches its
/// target exactly where a probe is answered with an echo.
pub proof fn a_trace_stops_for_a_reason(trace: TraceView, hop: Hop, echoed: bool)
    ensures
        stops(trace) <==> trace.reached || trace.hops.len() >= 30 || (trace.hops.len() >= 5
            && forall|i: int|
            trace.hops.len() - 5 <= i < trace.hops.len() ==> (
            #[trigger] trace.hops[i]).address is None),
        trace.extended(hop, echoed).reached == (trace.reached || echoed),
        trace.extended(hop, echoed).hops == trace.hops.push(hop),
{
    the_tail_is_all_the_silence(trace.hops);
    let hops = trace.hops;
    let k = silence_behind(hops);
    if hops.len() >= 5 && (forall|i: int|
        hops.len() - 5 <= i < hops.len() ==> (#[trigger] hops[i]).address is None) && k < 5 {
        assert(hops[hops.len() - k - 1].address is None);
    }
}

/// A delay is never written as nothing: what is shorter than a millisecond is
/// said to be, and anything longer is given in whole milliseconds.
pub proof fn a_delay_is_never_nothing(rtt: Duration)
    ensures
        rtt.nanos < 1_000_000 ==> rtt_text(rtt) == "меньше 1 мс"@,
        rtt.nanos >= 1_000_000 ==> rtt_text(rtt) == dec(rtt.nanos as nat / 1_000_000) + " мс"@,
{
}

/// The line of a node: its number, and where it answered its address, its delay
/// and its network. Lost probes are told, out of three, where there are any.
pub proof fn a_node_is_told_as_it_answered(hop: Hop)
    ensures
        hop.address is None ==> hop.description() == right_in(dec(hop.ttl as nat), 2)
            + ". нет ответа"@,
        hop.address is Some && hop.rtt is Some && hop.segment is Some && hop.lost == 0
            ==> hop.description() == right_in(dec(hop.ttl as nat), 2) + (". "@ + (
        hop.address->0).notation() + " — "@ + rtt_text(hop.rtt->0) + (", "@ + (
        hop.segment->0).title_text()) + Seq::empty()),
        hop.address is Some && hop.rtt is Some && hop.segment is Some && hop.lost > 0
            ==> hop.description() == right_in(dec(hop.ttl as nat), 2) + (". "@ + (
        hop.address->0).notation() + " — "@ + rtt_text(hop.rtt->0) + (", "@ + (
        hop.segment->0).title_text()) + (", потеряно проб: "@ + dec(hop.lost as nat) + "/"@ + dec(
            3,
        ))),
{
}

/// A trace grows by one node at its end. The first node outside private networks
/// is remembered and stays; a target once reached stays reached.
pub proof fn a_trace_grows_at_its_end(trace: TraceView, hop: Hop, reached: bool)
    ensures
        ({
            let next = trace.extended(hop, reached);
            &&& next.hops.len() == trace.hops.len() + 1
            &&& next.hops.drop_last() == trace.hops
            &&& next.hops.last() == hop
            &&& next.reached <==> trace.reached || reached
            &&& trace.first_external is Some ==> next.first_external == trace.first_external
            &&& trace.first_external is None && (hop.segment == Some(Segment::Public) || hop.segment
                == Some(Segment::Cgnat)) ==> next.first_external == Some(hop)
            &&& trace.first_external is None && hop.segment != Some(Segment::Public) && hop.segment
                != Some(Segment::Cgnat) ==> next.first_external is None
        }),
{
    assert(trace.extended(hop, reached).hops.drop_last() =~= trace.hops);
}

} // verus!
