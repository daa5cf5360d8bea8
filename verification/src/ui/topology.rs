//! The chart of the network: the chain of nodes from the computer to a site.
//!
//! This is the main screen. Instead of a list of errors a person sees how far
//! the traffic gets and where it is lost, and the address of each node under
//! it. What is drawn is decided here; where on the screen it goes is not.

use vstd::prelude::*;
use vstd::string::StringExecFns;
use crate::model::{
    node_views, NodeId, NodeState, NodeView, Report, ReportView, Status,
};
use crate::text::{chars_of, cut};
use super::theme;

verus! {

/// How many halves of a unit of width a character of a caption takes.
pub const CHAR_HALVES: u32 = 13;

/// A caption cut to a number of characters. One that has to be cut ends in an
/// ellipsis; where there is hardly any room it is left as it is.
pub open spec fn shortened(text: Seq<char>, room: int) -> Seq<char> {
    if text.len() <= room || room < 4 {
        text
    } else {
        text.take(room - 1) + "…"@
    }
}

/// Cuts a caption to a width, given in halves of a unit. Addresses of IPv6
/// would run into the neighbouring nodes otherwise.
pub fn ellipsize(text: &str, width_halves: u32) -> (r: String)
    ensures
        r@ == shortened(text@, (width_halves / CHAR_HALVES) as int),
{
    let room: usize = (width_halves / CHAR_HALVES) as usize;
    let chars = chars_of(text);
    if chars.len() <= room || room < 4 {
        return text.to_owned();
    }
    assert(chars@.subrange(0, room - 1) =~= text@.take(room - 1));
    cut(&chars, 0, room - 1).concat("…")
}

/// A caption never gets longer, and what is cut fits its room.
pub proof fn captions_fit(text: Seq<char>, room: int)
    ensures
        shortened(text, room).len() <= text.len(),
        room >= 4 ==> shortened(text, room).len() <= room,
        room >= 4 && text.len() > room ==> shortened(text, room).last() == '…',
{
    reveal_strlit("…");
}

/// How the joint between two nodes is drawn.
#[derive(Debug, Clone, Copy, PartialEq, Eq, Structural)]
pub enum Edge {
    /// Here the traffic is lost: a broken line with a cross and a word.
    Break,
    Line { colour: u32 },
}

/// A joint is in order where both its ends are.
pub open spec fn joint_colour(from: Status, to: Status) -> u32 {
    if from == Status::Good && to == Status::Good {
        theme::OK
    } else {
        theme::IDLE
    }
}

fn edge_color(from: Status, to: Status) -> (r: u32)
    ensures
        r == joint_colour(from, to),
{
    if from == Status::Good && to == Status::Good {
        theme::OK
    } else {
        theme::IDLE
    }
}

pub open spec fn joint(broken: Option<(NodeId, NodeId)>, a: NodeView, b: NodeView) -> Edge {
    if broken == Some((a.id, b.id)) {
        Edge::Break
    } else {
        Edge::Line { colour: joint_colour(a.status, b.status) }
    }
}

/// The joints of the chart: one between every two neighbours.
pub open spec fn joints(r: ReportView) -> Seq<Edge> {
    Seq::new(
        if r.nodes.len() == 0 {
            0
        } else {
            (r.nodes.len() - 1) as nat
        },
        |i: int| joint(r.diagnosis.break_edge, r.nodes[i], r.nodes[i + 1]),
    )
}

pub fn edges(report: &Report) -> (r: Vec<Edge>)
    ensures
        r@ == joints(report@),
{
    let mut out: Vec<Edge> = Vec::new();
    let mut i: usize = 1;
    let total: usize = report.nodes.len();
    let ghost nodes = report@.nodes;
    while i < total
        invariant
            total == report.nodes@.len(),
            1 <= i,
            i <= total || (total == 0 && i == 1),
            nodes == node_views(report.nodes@),
            out@.len() == i - 1,
            forall|k: int|
                0 <= k < i - 1 ==> #[trigger] out@[k] == joint(
                    report.diagnosis.break_edge,
                    nodes[k],
                    nodes[k + 1],
                ),
        decreases total - i,
    {
        let a = &report.nodes[i - 1];
        let b = &report.nodes[i];
        assert(nodes[i - 1] == a@ && nodes[i as int] == b@);
        let broken = match report.diagnosis.break_edge {
            Some((from, to)) => from == a.id && to == b.id,
            None => false,
        };
        if broken {
            out.push(Edge::Break);
        } else {
            out.push(Edge::Line { colour: edge_color(a.status, b.status) });
        }
        i += 1;
    }
    assert(out@ =~= joints(report@));
    out
}

/// A break is drawn between two neighbours exactly where the diagnosis says
/// that the traffic is lost.
pub proof fn the_break_is_shown_where_it_is(r: ReportView, i: int)
    requires
        0 <= i < joints(r).len(),
    ensures
        (joints(r)[i] is Break) == (r.diagnosis.break_edge == Some(
            (r.nodes[i].id, r.nodes[i + 1].id),
        )),
{
}

/// What is drawn for a node.
#[derive(Debug, Clone)]
pub struct Sign {
    pub id: NodeId,
    pub title: String,
    pub colour: u32,
    /// The address, or what else is known; empty where nothing is.
    pub caption: String,
    /// The hint over the node.
    pub tip: String,
}

#[verifier::ext_equal]
pub struct SignView {
    pub id: NodeId,
    pub title: Seq<char>,
    pub colour: u32,
    pub caption: Seq<char>,
    pub tip: Seq<char>,
}

impl View for Sign {
    type V = SignView;

    open spec fn view(&self) -> SignView {
        SignView {
            id: self.id,
            title: self.title@,
            colour: self.colour,
            caption: self.caption@,
            tip: self.tip@,
        }
    }
}

pub open spec fn sign_of(node: NodeView, room: int) -> SignView {
    SignView {
        id: node.id,
        title: node.id.title_text(),
        colour: theme::colour_of(node.status),
        caption: shortened(
            match node.address {
                Some(a) => a,
                None => node.subtitle,
            },
            room,
        ),
        tip: node.id.title_text() + " — "@ + node.status.label_text(),
    }
}

fn sign(node: &NodeState, width_halves: u32) -> (r: Sign)
    ensures
        r@ == sign_of(node@, (width_halves / CHAR_HALVES) as int),
{
    let caption = match &node.address {
        Some(a) => ellipsize(a.as_str(), width_halves),
        None => ellipsize(node.subtitle.as_str(), width_halves),
    };
    Sign {
        id: node.id,
        title: node.id.title().to_owned(),
        colour: theme::status_color(node.status),
        caption,
        tip: node.id.title().to_owned().concat(" — ").concat(node.status.label()),
    }
}

pub open spec fn sign_views(signs: Seq<Sign>) -> Seq<SignView> {
    signs.map_values(|s: Sign| s@)
}

/// What is drawn for the nodes of the chart, for a width of a node in halves of
/// a unit.
pub fn signs(report: &Report, width_halves: u32) -> (r: Vec<Sign>)
    ensures
        sign_views(r@) == report@.nodes.map_values(
            |n: NodeView| sign_of(n, (width_halves / CHAR_HALVES) as int),
        ),
{
    let mut out: Vec<Sign> = Vec::new();
    let mut i: usize = 0;
    while i < report.nodes.len()
        invariant
            i <= report.nodes@.len(),
            out@.len() == i,
            forall|k: int|
                0 <= k < i ==> (#[trigger] out@[k])@ == sign_of(
                    report.nodes@[k]@,
                    (width_halves / CHAR_HALVES) as int,
                ),
        decreases report.nodes@.len() - i,
    {
        out.push(sign(&report.nodes[i], width_halves));
        i += 1;
    }
    assert(sign_views(out@) =~= report@.nodes.map_values(
        |n: NodeView| sign_of(n, (width_halves / CHAR_HALVES) as int),
    ));
    out
}

// ---------------------------------------------------------------------------
// Glyphs
// ---------------------------------------------------------------------------

/// A part of a glyph. A glyph lies in a square of 32 around the middle of its
/// node.
#[derive(Debug, Clone, Copy, PartialEq, Eq, Structural)]
pub enum Stroke {
    Segment { x1: u8, y1: u8, x2: u8, y2: u8 },
    /// A rectangle around a point.
    Frame { x: u8, y: u8, width: u8, height: u8, rounding: u8 },
    /// A circle around the middle.
    Ring { radius: u8 },
    /// An ellipse around the middle.
    Oval { rx: u8, ry: u8 },
    Triangle { x1: u8, y1: u8, x2: u8, y2: u8, x3: u8, y3: u8 },
}

/// The glyph of a node.
pub open spec fn outline(id: NodeId) -> Seq<Stroke> {
    match id {
        // A screen on its stand.
        NodeId::Pc => seq![
            Stroke::Frame { x: 16, y: 13, width: 26, height: 18, rounding: 2 },
            Stroke::Segment { x1: 8, y1: 28, x2: 24, y2: 28 },
        ],
        // A box with two antennas.
        NodeId::Router => seq![
            Stroke::Frame { x: 16, y: 21, width: 28, height: 12, rounding: 3 },
            Stroke::Segment { x1: 8, y1: 15, x2: 4, y2: 3 },
            Stroke::Segment { x1: 24, y1: 15, x2: 28, y2: 3 },
        ],
        // A rack of servers.
        NodeId::Provider => seq![
            Stroke::Frame { x: 16, y: 7, width: 26, height: 7, rounding: 1 },
            Stroke::Frame { x: 16, y: 16, width: 26, height: 7, rounding: 1 },
            Stroke::Frame { x: 16, y: 25, width: 26, height: 7, rounding: 1 },
        ],
        // A funnel.
        NodeId::Dpi => seq![
            Stroke::Segment { x1: 2, y1: 5, x2: 30, y2: 5 },
            Stroke::Segment { x1: 2, y1: 5, x2: 14, y2: 20 },
            Stroke::Segment { x1: 30, y1: 5, x2: 18, y2: 20 },
            Stroke::Segment { x1: 14, y1: 20, x2: 14, y2: 28 },
            Stroke::Segment { x1: 18, y1: 20, x2: 18, y2: 28 },
        ],
        // A globe: a circle with a parallel and a meridian.
        NodeId::Internet => seq![
            Stroke::Ring { radius: 13 },
            Stroke::Segment { x1: 3, y1: 16, x2: 29, y2: 16 },
            Stroke::Oval { rx: 6, ry: 13 },
        ],
        // A flag.
        NodeId::Target => seq![
            Stroke::Segment { x1: 7, y1: 3, x2: 7, y2: 29 },
            Stroke::Triangle { x1: 7, y1: 3, x2: 27, y2: 9, x3: 7, y3: 15 },
        ],
    }
}

/// The parts of the glyph of a node. They need no picture files.
pub fn glyph(id: NodeId) -> (r: Vec<Stroke>)
    ensures
        r@ == outline(id),
{
    let r = match id {
        NodeId::Pc => vec![
            Stroke::Frame { x: 16, y: 13, width: 26, height: 18, rounding: 2 },
            Stroke::Segment { x1: 8, y1: 28, x2: 24, y2: 28 },
        ],
        NodeId::Router => vec![
            Stroke::Frame { x: 16, y: 21, width: 28, height: 12, rounding: 3 },
            Stroke::Segment { x1: 8, y1: 15, x2: 4, y2: 3 },
            Stroke::Segment { x1: 24, y1: 15, x2: 28, y2: 3 },
        ],
        NodeId::Provider => vec![
            Stroke::Frame { x: 16, y: 7, width: 26, height: 7, rounding: 1 },
            Stroke::Frame { x: 16, y: 16, width: 26, height: 7, rounding: 1 },
            Stroke::Frame { x: 16, y: 25, width: 26, height: 7, rounding: 1 },
        ],
        NodeId::Dpi => vec![
            Stroke::Segment { x1: 2, y1: 5, x2: 30, y2: 5 },
            Stroke::Segment { x1: 2, y1: 5, x2: 14, y2: 20 },
            Stroke::Segment { x1: 30, y1: 5, x2: 18, y2: 20 },
            Stroke::Segment { x1: 14, y1: 20, x2: 14, y2: 28 },
            Stroke::Segment { x1: 18, y1: 20, x2: 18, y2: 28 },
        ],
        NodeId::Internet => vec![
            Stroke::Ring { radius: 13 },
            Stroke::Segment { x1: 3, y1: 16, x2: 29, y2: 16 },
            Stroke::Oval { rx: 6, ry: 13 },
        ],
        NodeId::Target => vec![
            Stroke::Segment { x1: 7, y1: 3, x2: 7, y2: 29 },
            Stroke::Triangle { x1: 7, y1: 3, x2: 27, y2: 9, x3: 7, y3: 15 },
        ],
    };
    assert(r@ =~= outline(id));
    r
}

/// Nodes can be told apart without colours: different nodes have different
/// glyphs.
pub proof fn glyphs_tell_nodes_apart(a: NodeId, b: NodeId)
    ensures
        a != b ==> outline(a) != outline(b),
{
    assert(outline(a)[0] == outline(b)[0] ==> a == b);
}

/// A line of the chart is green only between two nodes that both work, and grey
/// otherwise.
pub proof fn lines_are_green_between_good_nodes(from: Status, to: Status)
    ensures
        joint_colour(from, to) == 0x3DDC97 <==> from is Good && to is Good,
        !(from is Good && to is Good) ==> joint_colour(from, to) == 0x5A667E,
{
}

/// A sign shows its node: its title, the colour of its status, and under it the
/// address where there is one, cut to the room there is.
pub proof fn a_sign_shows_its_node(node: NodeView, room: int)
    ensures
        ({
            let sign = sign_of(node, room);
            let under = if node.address is Some {
                node.address->0
            } else {
                node.subtitle
            };
            &&& sign.id == node.id
            &&& sign.title == node.id.title_text()
            &&& node.status is Fail ==> sign.colour == 0xF2625F
            &&& node.status is Good ==> sign.colour == 0x3DDC97
            &&& under.len() <= room ==> sign.caption == under
            &&& room >= 4 && under.len() > room ==> sign.caption.len() == room
                && sign.caption.drop_last() == under.take(room - 1)
        }),
{
    reveal_strlit("…");
    let under = if node.address is Some {
        node.address->0
    } else {
        node.subtitle
    };
    if room >= 4 && under.len() > room {
        assert(shortened(under, room).drop_last() =~= under.take(room - 1));
    }
}

} // verus!
