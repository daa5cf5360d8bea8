//! The logo of the program, drawn by code.
//!
//! The icon is needed for the window and for the tray, where its colour tells
//! the state of the watching. Three nodes of a network are joined by lines, and
//! a pulse runs through them. The sketch lies on a canvas of 256 by 256.
//!
//! The geometry is exact: a point of the canvas is held in units of one `d`-th,
//! where `d` is six times the side of the picture. Every centre of a subpixel
//! has whole coordinates then, and distances are compared by their squares.

use vstd::prelude::*;

verus! {

/// A picture of four bytes for each pixel: red, green, blue, opacity.
#[derive(Debug, Clone)]
pub struct Rgba {
    pub width: u32,
    pub height: u32,
    pub pixels: Vec<u8>,
}

/// The side of the canvas of the sketch.
pub const CANVAS: i128 = 256;

/// The radius of a node.
pub const NODE_R: i128 = 15;

/// The width of the lines between the nodes.
pub const LINK_W: i128 = 8;

/// The width of the pulse.
pub const PULSE_W: i128 = 15;

/// What the parts of the logo are painted with.
#[derive(Debug, Clone, Copy)]
pub struct Colours {
    pub ground: Option<[u8; 3]>,
    pub link: [u8; 3],
    pub node: [u8; 3],
    pub pulse: [u8; 3],
}

/// The colours of the whole logo.
pub open spec fn full_colours() -> Colours {
    Colours {
        ground: Some([0x10u8, 0x1B, 0x33]),
        link: [0x2Fu8, 0x5F, 0xB5],
        node: [0x58u8, 0xA6, 0xFF],
        pulse: [0x3Du8, 0xDC, 0x97],
    }
}

/// The colours of a silhouette: no ground, and one colour for all the rest.
pub open spec fn one_colour(tint: [u8; 3]) -> Colours {
    Colours { ground: None, link: tint, node: tint, pulse: tint }
}

// ---------------------------------------------------------------------------
// Geometry
// ---------------------------------------------------------------------------

/// Whether a point lies within a radius of a point of the canvas.
pub open spec fn near_point(px: int, py: int, d: int, cx: int, cy: int, r: int) -> bool {
    let x = px - cx * d;
    let y = py - cy * d;
    x * x + y * y <= (r * d) * (r * d)
}

/// Whether a point lies within half a width of a segment of the canvas. The
/// nearest point of the segment is one of its ends, or the foot of the
/// perpendicular where that falls on the segment.
pub open spec fn near_segment(
    px: int,
    py: int,
    d: int,
    ax: int,
    ay: int,
    bx: int,
    by: int,
    width: int,
) -> bool {
    let x = px - ax * d;
    let y = py - ay * d;
    let u = bx - ax;
    let v = by - ay;
    let dot = x * u + y * v;
    let len2 = u * u + v * v;
    let reach = (width * d) * (width * d);
    if dot <= 0 {
        4 * (x * x + y * y) <= reach
    } else if dot >= len2 * d {
        4 * ((px - bx * d) * (px - bx * d) + (py - by * d) * (py - by * d)) <= reach
    } else {
        4 * ((x * v - y * u) * (x * v - y * u)) <= reach * len2
    }
}

/// Whether a point lies on the ground: a square of 240 around the middle of the
/// canvas whose corners are rounded with a radius of 56.
pub open spec fn on_ground(px: int, py: int, d: int) -> bool {
    let qx = magnitude(px - 128 * d) - 64 * d;
    let qy = magnitude(py - 128 * d) - 64 * d;
    let ox = if qx > 0 {
        qx
    } else {
        0
    };
    let oy = if qy > 0 {
        qy
    } else {
        0
    };
    ox * ox + oy * oy <= (56 * d) * (56 * d)
}

pub open spec fn magnitude(n: int) -> int {
    if n < 0 {
        -n
    } else {
        n
    }
}

pub open spec fn on_node(px: int, py: int, d: int) -> bool {
    ||| near_point(px, py, d, 40, 150, NODE_R as int)
    ||| near_point(px, py, d, 216, 150, NODE_R as int)
    ||| near_point(px, py, d, 128, 66, NODE_R as int)
}

/// The line along the bottom is left out: the pulse runs there.
pub open spec fn on_link(px: int, py: int, d: int) -> bool {
    ||| near_segment(px, py, d, 216, 150, 128, 66, LINK_W as int)
    ||| near_segment(px, py, d, 128, 66, 40, 150, LINK_W as int)
}

pub open spec fn on_pulse(px: int, py: int, d: int) -> bool {
    ||| near_segment(px, py, d, 40, 150, 80, 150, PULSE_W as int)
    ||| near_segment(px, py, d, 80, 150, 100, 112, PULSE_W as int)
    ||| near_segment(px, py, d, 100, 112, 126, 192, PULSE_W as int)
    ||| near_segment(px, py, d, 126, 192, 150, 132, PULSE_W as int)
    ||| near_segment(px, py, d, 150, 132, 170, 150, PULSE_W as int)
    ||| near_segment(px, py, d, 170, 150, 216, 150, PULSE_W as int)
}

/// The bounds within which the arithmetic below stays.
spec fn fits(px: int, py: int, d: int) -> bool {
    0 <= px <= 0x400_0000 && 0 <= py <= 0x400_0000 && 0 <= d <= 0x4_0000
}

/// A product of two numbers within a bound is within the square of it.
proof fn lemma_product(a: int, b: int, m: int, n: int)
    requires
        -m <= a <= m,
        -n <= b <= n,
        0 <= m,
        0 <= n,
    ensures
        -(m * n) <= a * b <= m * n,
{
    assert(-(m * n) <= a * b <= m * n) by (nonlinear_arith)
        requires
            -m <= a <= m,
            -n <= b <= n,
            0 <= m,
            0 <= n,
    ;
}

fn is_near_point(px: i128, py: i128, d: i128, cx: i128, cy: i128, r: i128) -> (b: bool)
    requires
        fits(px as int, py as int, d as int),
        0 <= cx <= 256,
        0 <= cy <= 256,
        0 <= r <= 256,
    ensures
        b == near_point(px as int, py as int, d as int, cx as int, cy as int, r as int),
{
    proof {
        lemma_product(cx as int, d as int, 256, 0x4_0000);
        lemma_product(cy as int, d as int, 256, 0x4_0000);
        lemma_product(r as int, d as int, 256, 0x4_0000);
    }
    let x: i128 = px - cx * d;
    let y: i128 = py - cy * d;
    let s: i128 = r * d;
    proof {
        lemma_product(x as int, x as int, 0x800_0000, 0x800_0000);
        lemma_product(y as int, y as int, 0x800_0000, 0x800_0000);
        lemma_product(s as int, s as int, 0x800_0000, 0x800_0000);
    }
    x * x + y * y <= s * s
}

fn is_near_segment(
    px: i128,
    py: i128,
    d: i128,
    ax: i128,
    ay: i128,
    bx: i128,
    by: i128,
    width: i128,
) -> (b: bool)
    requires
        fits(px as int, py as int, d as int),
        0 <= ax <= 256,
        0 <= ay <= 256,
        0 <= bx <= 256,
        0 <= by <= 256,
        0 <= width <= 256,
    ensures
        b == near_segment(
            px as int,
            py as int,
            d as int,
            ax as int,
            ay as int,
            bx as int,
            by as int,
            width as int,
        ),
{
    proof {
        lemma_product(ax as int, d as int, 256, 0x4_0000);
        lemma_product(ay as int, d as int, 256, 0x4_0000);
        lemma_product(bx as int, d as int, 256, 0x4_0000);
        lemma_product(by as int, d as int, 256, 0x4_0000);
        lemma_product(width as int, d as int, 256, 0x4_0000);
    }
    let x: i128 = px - ax * d;
    let y: i128 = py - ay * d;
    let u: i128 = bx - ax;
    let v: i128 = by - ay;
    let w: i128 = width * d;
    proof {
        lemma_product(x as int, u as int, 0x800_0000, 256);
        lemma_product(y as int, v as int, 0x800_0000, 256);
        lemma_product(x as int, v as int, 0x800_0000, 256);
        lemma_product(y as int, u as int, 0x800_0000, 256);
        lemma_product(u as int, u as int, 256, 256);
        lemma_product(v as int, v as int, 256, 256);
        lemma_product(w as int, w as int, 0x800_0000, 0x800_0000);
        lemma_product(x as int, x as int, 0x800_0000, 0x800_0000);
        lemma_product(y as int, y as int, 0x800_0000, 0x800_0000);
    }
    let dot: i128 = x * u + y * v;
    let len2: i128 = u * u + v * v;
    let reach: i128 = w * w;
    proof {
        lemma_product(len2 as int, d as int, 0x2_0000, 0x4_0000);
    }
    if dot <= 0 {
        4 * (x * x + y * y) <= reach
    } else if dot >= len2 * d {
        let s: i128 = px - bx * d;
        let t: i128 = py - by * d;
        proof {
            lemma_product(s as int, s as int, 0x800_0000, 0x800_0000);
            lemma_product(t as int, t as int, 0x800_0000, 0x800_0000);
        }
        4 * (s * s + t * t) <= reach
    } else {
        let across: i128 = x * v - y * u;
        proof {
            lemma_product(across as int, across as int, 0x10_0000_0000, 0x10_0000_0000);
            lemma_product(reach as int, len2 as int, 0x40_0000_0000_0000, 0x2_0000);
        }
        4 * (across * across) <= reach * len2
    }
}

fn is_on_ground(px: i128, py: i128, d: i128) -> (b: bool)
    requires
        fits(px as int, py as int, d as int),
    ensures
        b == on_ground(px as int, py as int, d as int),
{
    let dx: i128 = px - 128 * d;
    let dy: i128 = py - 128 * d;
    let qx: i128 = (if dx < 0 { -dx } else { dx }) - 64 * d;
    let qy: i128 = (if dy < 0 { -dy } else { dy }) - 64 * d;
    let ox: i128 = if qx > 0 {
        qx
    } else {
        0
    };
    let oy: i128 = if qy > 0 {
        qy
    } else {
        0
    };
    let s: i128 = 56 * d;
    proof {
        lemma_product(ox as int, ox as int, 0x800_0000, 0x800_0000);
        lemma_product(oy as int, oy as int, 0x800_0000, 0x800_0000);
        lemma_product(s as int, s as int, 0x800_0000, 0x800_0000);
    }
    ox * ox + oy * oy <= s * s
}

// ---------------------------------------------------------------------------
// Painting
// ---------------------------------------------------------------------------

/// The colour of a point: the layers lie over one another, and the uppermost
/// one that holds the point is seen.
pub open spec fn painted(px: int, py: int, d: int, colours: Colours) -> Option<[u8; 3]> {
    if on_node(px, py, d) {
        Some(colours.node)
    } else if on_pulse(px, py, d) {
        Some(colours.pulse)
    } else if on_link(px, py, d) {
        Some(colours.link)
    } else if on_ground(px, py, d) {
        colours.ground
    } else {
        None
    }
}

fn paint(px: i128, py: i128, d: i128, colours: Colours) -> (r: Option<[u8; 3]>)
    requires
        fits(px as int, py as int, d as int),
    ensures
        r == painted(px as int, py as int, d as int, colours),
{
    if is_near_point(px, py, d, 40, 150, NODE_R) || is_near_point(px, py, d, 216, 150, NODE_R)
        || is_near_point(px, py, d, 128, 66, NODE_R) {
        return Some(colours.node);
    }
    if is_near_segment(px, py, d, 40, 150, 80, 150, PULSE_W) || is_near_segment(
        px,
        py,
        d,
        80,
        150,
        100,
        112,
        PULSE_W,
    ) || is_near_segment(px, py, d, 100, 112, 126, 192, PULSE_W) || is_near_segment(
        px,
        py,
        d,
        126,
        192,
        150,
        132,
        PULSE_W,
    ) || is_near_segment(px, py, d, 150, 132, 170, 150, PULSE_W) || is_near_segment(
        px,
        py,
        d,
        170,
        150,
        216,
        150,
        PULSE_W,
    ) {
        return Some(colours.pulse);
    }
    if is_near_segment(px, py, d, 216, 150, 128, 66, LINK_W) || is_near_segment(
        px,
        py,
        d,
        128,
        66,
        40,
        150,
        LINK_W,
    ) {
        return Some(colours.link);
    }
    if is_on_ground(px, py, d) {
        return colours.ground;
    }
    None
}

/// A channel of a colour: red, green, blue, opacity. Where nothing is painted
/// all four are zero.
pub open spec fn channel(colour: Option<[u8; 3]>, c: int) -> nat {
    match colour {
        Some(rgb) => if c < 3 {
            rgb@[c] as nat
        } else {
            255
        },
        None => 0,
    }
}

/// The centre of a subpixel along one side: three subpixels to a pixel.
pub open spec fn centre(pixel: int, sub: int) -> int {
    (6 * pixel + 2 * sub + 1) * 256
}

/// The sum of a channel over the first subpixels of a pixel, row by row.
pub open spec fn gathered(x: int, y: int, d: int, colours: Colours, c: int, subs: int) -> nat
    decreases subs,
{
    if subs <= 0 {
        0
    } else {
        let i = subs - 1;
        gathered(x, y, d, colours, c, i) + channel(
            painted(centre(x, i % 3), centre(y, i / 3), d, colours),
            c,
        )
    }
}

/// A channel of a pixel: the average over its nine subpixels, rounded to the
/// nearest whole number.
pub open spec fn averaged(x: int, y: int, size: int, colours: Colours, c: int) -> nat {
    (2 * gathered(x, y, 6 * size, colours, c, 9) + 9) / 18
}

/// The bytes of the picture, row by row.
pub open spec fn is_picture(pixels: Seq<u8>, size: int, colours: Colours) -> bool {
    &&& pixels.len() == size * size * 4
    &&& forall|k: int|
        0 <= k < pixels.len() ==> #[trigger] pixels[k] == averaged(
            (k / 4) % size,
            (k / 4) / size,
            size,
            colours,
            k % 4,
        )
}

fn channel_of(colour: &Option<[u8; 3]>, c: usize) -> (r: u32)
    requires
        c < 4,
    ensures
        r == channel(*colour, c as int),
        r <= 255,
{
    match colour {
        Some(rgb) => if c < 3 {
            rgb[c] as u32
        } else {
            255
        },
        None => 0,
    }
}

/// The four channels of one pixel.
fn pixel(x: u32, y: u32, size: u32, colours: Colours) -> (r: [u8; 4])
    requires
        x < size,
        y < size,
        size < 32768,
    ensures
        forall|c: int|
            0 <= c < 4 ==> #[trigger] r@[c] == averaged(
                x as int,
                y as int,
                size as int,
                colours,
                c,
            ),
{
    let d: i128 = 6 * (size as i128);
    let mut sums: [u32; 4] = [0, 0, 0, 0];
    let mut i: usize = 0;
    while i < 9
        invariant
            i <= 9,
            x < size,
            y < size,
            size < 32768,
            d == 6 * size,
            forall|c: int|
                0 <= c < 4 ==> #[trigger] sums@[c] == gathered(
                    x as int,
                    y as int,
                    d as int,
                    colours,
                    c,
                    i as int,
                ) && sums@[c] <= 255 * i,
        decreases 9 - i,
    {
        let px: i128 = (6 * (x as i128) + 2 * ((i % 3) as i128) + 1) * 256;
        let py: i128 = (6 * (y as i128) + 2 * ((i / 3) as i128) + 1) * 256;
        let colour = paint(px, py, d, colours);
        let c0 = channel_of(&colour, 0);
        let c1 = channel_of(&colour, 1);
        let c2 = channel_of(&colour, 2);
        let c3 = channel_of(&colour, 3);
        let ghost before = sums@;
        assert(before[0] <= 255 * i && before[1] <= 255 * i && before[2] <= 255 * i && before[3]
            <= 255 * i);
        sums = [sums[0] + c0, sums[1] + c1, sums[2] + c2, sums[3] + c3];
        i += 1;
    }
    assert(sums@[0] <= 2295 && sums@[1] <= 2295 && sums@[2] <= 2295 && sums@[3] <= 2295);
    [
        ((2 * sums[0] + 9) / 18) as u8,
        ((2 * sums[1] + 9) / 18) as u8,
        ((2 * sums[2] + 9) / 18) as u8,
        ((2 * sums[3] + 9) / 18) as u8,
    ]
}

fn draw(size: u32, colours: Colours) -> (r: Rgba)
    requires
        size < 32768,
    ensures
        r.width == size,
        r.height == size,
        is_picture(r.pixels@, size as int, colours),
{
    proof {
        lemma_product(size as int, size as int, 32767, 32767);
    }
    let total: u32 = size * size;
    let mut pixels: Vec<u8> = Vec::new();
    let mut n: u32 = 0;
    while n < total
        invariant
            size < 32768,
            total == size * size,
            n <= total,
            pixels@.len() == 4 * n,
            forall|k: int|
                0 <= k < pixels@.len() ==> #[trigger] pixels@[k] == averaged(
                    (k / 4) % (size as int),
                    (k / 4) / (size as int),
                    size as int,
                    colours,
                    k % 4,
                ),
        decreases total - n,
    {
        assert(size > 0 && n / size < size) by (nonlinear_arith)
            requires
                n < total,
                total == size * size,
                size >= 0,
        ;
        let p = pixel(n % size, n / size, size, colours);
        pixels.push(p[0]);
        pixels.push(p[1]);
        pixels.push(p[2]);
        pixels.push(p[3]);
        n += 1;
    }
    assert(size * size * 4 == 4 * (size * size)) by (nonlinear_arith);
    Rgba { width: size, height: size, pixels }
}

/// The whole logo on its ground, for the window. The picture must have a number
/// of bytes that fits in 32 bits.
pub fn render(size: u32) -> (r: Rgba)
    requires
        size < 32768,
    ensures
        r.width == size,
        r.height == size,
        is_picture(r.pixels@, size as int, full_colours()),
{
    draw(
        size,
        Colours {
            ground: Some([0x10, 0x1B, 0x33]),
            link: [0x2F, 0x5F, 0xB5],
            node: [0x58, 0xA6, 0xFF],
            pulse: [0x3D, 0xDC, 0x97],
        },
    )
}

/// The silhouette in one colour without a ground, for the tray.
pub fn render_tinted(size: u32, tint: [u8; 3]) -> (r: Rgba)
    requires
        size < 32768,
    ensures
        r.width == size,
        r.height == size,
        is_picture(r.pixels@, size as int, one_colour(tint)),
{
    draw(size, Colours { ground: None, link: tint, node: tint, pulse: tint })
}

/// The silhouette has one shape: the opacity of a pixel is the same whatever
/// the colour.
pub proof fn shape_does_not_depend_on_the_tint(a: [u8; 3], b: [u8; 3], x: int, y: int, size: int)
    ensures
        averaged(x, y, size, one_colour(a), 3) == averaged(x, y, size, one_colour(b), 3),
{
    lemma_same_opacity(a, b, x, y, 6 * size, 9);
}

proof fn lemma_same_opacity(a: [u8; 3], b: [u8; 3], x: int, y: int, d: int, subs: int)
    ensures
        gathered(x, y, d, one_colour(a), 3, subs) == gathered(x, y, d, one_colour(b), 3, subs),
    decreases subs,
{
    if subs > 0 {
        lemma_same_opacity(a, b, x, y, d, subs - 1);
    }
}

/// The ground only shows through where the silhouette leaves a pixel clear: where
/// the silhouette is opaque, so is the whole logo.
pub proof fn the_ground_covers_nothing(tint: [u8; 3], x: int, y: int, size: int)
    ensures
        averaged(x, y, size, one_colour(tint), 3) <= averaged(x, y, size, full_colours(), 3) <= 255,
{
    lemma_more_opacity(tint, x, y, 6 * size, 9);
}

proof fn lemma_more_opacity(tint: [u8; 3], x: int, y: int, d: int, subs: int)
    requires
        0 <= subs <= 9,
    ensures
        gathered(x, y, d, one_colour(tint), 3, subs) <= gathered(
            x,
            y,
            d,
            full_colours(),
            3,
            subs,
        ) <= 255 * subs,
    decreases subs,
{
    if subs > 0 {
        lemma_more_opacity(tint, x, y, d, subs - 1);
    }
}

} // verus!
