//! Where a window stands in the world, and dragging its edges.

use vstd::prelude::*;
use crate::pointer::{Edge, Frame, between};
use crate::system::lemma_floor_of_negative;

verus! {

/// Where a window stands: round and up from straight ahead, how far away, and how wide its
/// content is. Angles are in billionths of a radian, yaw positive to the left and pitch upwards;
/// lengths in billionths of a metre.
#[derive(Debug, Clone, Copy, PartialEq, Eq, Structural)]
pub struct Placement {
    pub yaw: i128,
    pub pitch: i128,
    pub radius: i128,
    pub width: i128,
}

/// The largest number the arithmetic of a placement can take.
pub const FAR: i128 = 1_000_000_000_000;

impl Placement {
    /// Somewhere in front of the wearer, within what the arithmetic can take.
    pub open spec fn wf(self) -> bool {
        &&& -FAR <= self.yaw <= FAR
        &&& -FAR <= self.pitch <= FAR
        &&& 0 < self.radius <= FAR
        &&& self.sized()
    }

    /// Of a width that the arithmetic can take, wherever it is.
    pub open spec fn sized(self) -> bool {
        0 <= self.width <= FAR
    }
}

/// Further than any window reaches from one edge to the other.
const BEYOND: i128 = 10_000_000_000_000_000_000_000;

/// A quotient rounded down.
pub(crate) fn floor_over(n: i128, d: i128) -> (out: i128)
    requires
        0 < d <= 0x1000_0000_0000_0000_0000_0000_0000_0000,
        -0x1000_0000_0000_0000_0000_0000_0000_0000 <= n
            <= 0x1000_0000_0000_0000_0000_0000_0000_0000,
    ensures
        out == n as int / (d as int),
{
    if n >= 0 {
        n / d
    } else {
        proof {
            lemma_floor_of_negative(n as int, d as int);
        }
        -((-n + d - 1) / d)
    }
}

/// The smallest a window may be dragged, which is eight degrees across: twice the tangent of four,
/// in billionths of the distance.
///
/// Not zero, and not a pixel count. A window below about 8° is a few hundred pixels of
/// squinting, and one dragged to nothing cannot be grabbed again to undo it — the frame it
/// would be grabbed by has gone with it.
pub const NARROWEST: i128 = 139_853_624;

/// And the largest, which is ninety degrees: already wider than either eye can see at once.
pub const WIDEST: i128 = 2_000_000_000;

/// A limit at some distance. From an angle, so a window pushed far away is still allowed to be as
/// big on screen as a near one.
pub open spec fn limit(radius: int, tangent: int) -> int {
    radius * tangent / 1_000_000_000
}

/// A window's height over its width, as a fraction; no window is taken to be more than a hundred
/// times as tall as it is wide.
pub open spec fn shape(pixels: (u32, u32)) -> (int, int) {
    let frame = Frame::around(pixels);
    if 100 * frame.wide < frame.tall {
        (100, 1)
    } else {
        (frame.tall as int, frame.wide as int)
    }
}

/// How tall a content so wide is.
pub open spec fn height_of(width: int, pixels: (u32, u32)) -> int {
    width * shape(pixels).0 / shape(pixels).1
}

/// A number kept between two others.
pub open spec fn kept(n: int, low: int, high: int) -> int {
    if n < low {
        low
    } else if n > high {
        high
    } else {
        n
    }
}

/// What a resize drag has arrived at.
#[derive(Debug, Clone, Copy, PartialEq, Eq)]
pub struct Resized {
    pub placement: Placement,
    pub pixels: (u32, u32),
}

impl Edge {
    /// Whether dragging it left makes the window wider.
    pub open spec fn is_left(self) -> bool {
        self is Left || self is BottomLeft
    }

    /// Whether dragging it right makes the window wider.
    pub open spec fn is_right(self) -> bool {
        self is Right || self is BottomRight
    }

    /// Whether dragging it down makes the window taller.
    pub open spec fn is_bottom(self) -> bool {
        self is Bottom || self is BottomLeft || self is BottomRight
    }
}

/// How wide a window becomes.
pub open spec fn new_width(edge: Edge, start: Placement, dx: int) -> int {
    kept(
        if edge.is_right() {
            start.width + dx
        } else if edge.is_left() {
            start.width - dx
        } else {
            start.width as int
        },
        limit(start.radius as int, NARROWEST as int),
        limit(start.radius as int, WIDEST as int),
    )
}

/// How tall a window's content becomes.
pub open spec fn new_height(edge: Edge, start: Placement, pixels: (u32, u32), dy: int) -> int {
    let was = height_of(start.width as int, pixels);
    kept(
        if edge.is_bottom() {
            was + dy
        } else {
            was
        },
        height_of(limit(start.radius as int, NARROWEST as int), pixels),
        limit(start.radius as int, WIDEST as int),
    )
}

/// Half of a growth, as an angle at a distance.
pub open spec fn half_turn(growth: int, radius: int) -> int {
    growth * 500_000_000 / radius
}

/// So many pixels to so many billionths of a metre, as one row of pixels has to the other, to the
/// nearest whole pixel.
pub open spec fn at_density(length: int, pixels: u32, width: int) -> int {
    let over = if width < 1_000 {
        1_000
    } else {
        width
    };
    (2 * length * pixels + over) / (2 * over)
}

/// A window part-way through a resize drag.
///
/// The opposite edge stays put, which is what makes this feel like resizing rather than
/// scaling: drag the right edge and the left one does not move. That is entirely a matter of
/// shifting the centre by half of whatever the size changed by, in the right direction.
///
/// Pixels follow the world size at a constant density, so the client is asked for more
/// buffer rather than a bigger picture of the same buffer.
pub open spec fn dragged(
    edge: Edge,
    start: Placement,
    pixels: (u32, u32),
    dx: int,
    dy: int,
) -> Resized {
    let width = new_width(edge, start, dx);
    let height = new_height(edge, start, pixels, dy);
    let right = half_turn(width - start.width, start.radius as int);
    let down = half_turn(height - height_of(start.width as int, pixels), start.radius as int);
    Resized {
        placement: Placement {
            yaw: (if edge.is_right() {
                start.yaw - right
            } else if edge.is_left() {
                start.yaw + right
            } else {
                start.yaw as int
            }) as i128,
            pitch: (if edge.is_bottom() {
                start.pitch - down
            } else {
                start.pitch as int
            }) as i128,
            radius: start.radius,
            width: width as i128,
        },
        pixels: (
            kept(at_density(width, pixels.0, start.width as int), 160, 4_096) as u32,
            kept(at_density(height, pixels.0, start.width as int), 120, 4_096) as u32,
        ),
    }
}

/// Whether a window's shape leaves a height between its limits: one narrower than that has none.
pub open spec fn resizable(start: Placement, pixels: (u32, u32)) -> bool {
    height_of(limit(start.radius as int, NARROWEST as int), pixels) <= limit(
        start.radius as int,
        WIDEST as int,
    )
}

proof fn lemma_limits(radius: int)
    requires
        0 < radius <= FAR,
    ensures
        0 <= limit(radius, NARROWEST as int) <= limit(radius, WIDEST as int) == 2 * radius,
        limit(radius, NARROWEST as int) <= FAR,
        0 <= radius * NARROWEST <= 1_000_000_000 * FAR,
{
    assert(limit(radius, WIDEST as int) == 2 * radius);
}

proof fn lemma_shape(pixels: (u32, u32))
    ensures
        1 <= shape(pixels).0 <= 0xffff_ffff,
        1 <= shape(pixels).1 <= 0xffff_ffff,
{
}

pub proof fn lemma_height(width: int, pixels: (u32, u32))
    requires
        0 <= width <= FAR,
    ensures
        0 <= width * shape(pixels).0 <= FAR * 0xffff_ffff,
        0 <= height_of(width, pixels) <= FAR * 0xffff_ffff,
{
    lemma_shape(pixels);
    let n = shape(pixels).0;
    let d = shape(pixels).1;
    assert(0 <= width * n <= 1_000_000_000_000 * 0xffff_ffff)
        by (nonlinear_arith)
        requires
            0 <= width <= 1_000_000_000_000,
            1 <= n <= 0xffff_ffff,
    ;
    assert(0 <= width * n / d <= width * n) by (nonlinear_arith)
        requires
            0 <= width * n,
            1 <= d,
    ;
}

pub(crate) fn tall_for(width: i128, pixels: (u32, u32)) -> (out: i128)
    requires
        0 <= width <= FAR,
    ensures
        out == height_of(width as int, pixels),
        0 <= out <= FAR * 0xffff_ffff,
{
    proof {
        lemma_height(width as int, pixels);
    }
    let frame = Frame::of(pixels);
    if 100 * (frame.wide as u64) < frame.tall as u64 {
        width * 100
    } else {
        width * frame.tall as i128 / frame.wide as i128
    }
}

fn keep(n: i128, low: i128, high: i128) -> (out: i128)
    ensures
        out == kept(n as int, low as int, high as int),
{
    if n < low {
        low
    } else if n > high {
        high
    } else {
        n
    }
}

fn pixels_for(length: i128, pixels: u32, width: i128, least: u32) -> (out: u32)
    requires
        0 <= length <= 2 * FAR,
        0 <= width <= FAR,
        least <= 4_096,
    ensures
        out == kept(at_density(length as int, pixels, width as int), least as int, 4_096),
{
    let over: i128 = if width < 1_000 {
        1_000
    } else {
        width
    };
    assert(0 <= 2 * length * pixels <= 4_000_000_000_000 * 0xffff_ffff)
        by (nonlinear_arith)
        requires
            0 <= length <= 2_000_000_000_000,
            0 <= pixels <= 0xffff_ffff,
    ;
    let n: i128 = (2 * length * pixels as i128 + over) / (2 * over);
    keep(n, least as i128, 4_096) as u32
}

proof fn lemma_turn(growth: int, radius: int)
    requires
        -FAR * 0xffff_ffff <= growth <= FAR * 0xffff_ffff,
        0 < radius <= FAR,
    ensures
        -FAR * 0xffff_ffff * 500_000_000 <= growth * 500_000_000 <= FAR * 0xffff_ffff * 500_000_000,
        -FAR * 0xffff_ffff * 500_000_000 <= half_turn(growth, radius) <= FAR * 0xffff_ffff
            * 500_000_000,
{
    let n = growth * 500_000_000;
    let most = FAR * 0xffff_ffff * 500_000_000;
    assert(-most <= n / radius <= most) by (nonlinear_arith)
        requires
            -most <= n <= most,
            most > 0,
            0 < radius,
    ;
}

fn turn(growth: i128, radius: i128) -> (out: i128)
    requires
        -FAR * 0xffff_ffff <= growth <= FAR * 0xffff_ffff,
        0 < radius <= FAR,
    ensures
        out == half_turn(growth as int, radius as int),
        -FAR * 0xffff_ffff * 500_000_000 <= out <= FAR * 0xffff_ffff * 500_000_000,
{
    proof {
        lemma_turn(growth as int, radius as int);
    }
    // Half a length over a distance is an angle, and a billionth of one is a billionth of the
    // other.
    floor_over(growth * 500_000_000, radius)
}

/// Work out a window's new size and position, part-way through a resize drag.
///
/// `dx` and `dy` are how far the ray has travelled since the grab, across and down the window's
/// own plane: any way at all, since a ray almost along that plane crosses it anywhere.
pub fn resize(
    edge: Edge,
    start: &Placement,
    start_pixels: (u32, u32),
    dx: i128,
    dy: i128,
) -> (out: Resized)
    requires
        start.wf(),
        resizable(*start, start_pixels),
    ensures
        out == dragged(edge, *start, start_pixels, dx as int, dy as int),
{
    proof {
        lemma_limits(start.radius as int);
        lemma_height(start.width as int, start_pixels);
    }
    let narrowest: i128 = start.radius * NARROWEST / 1_000_000_000;
    let widest: i128 = 2 * start.radius;
    // Further than any window reaches makes no difference: what comes of it is kept to the limits.
    let dx: i128 = keep(dx, -BEYOND, BEYOND);
    let dy: i128 = keep(dy, -BEYOND, BEYOND);
    let wide: i128 = match edge {
        Edge::Left | Edge::BottomLeft => start.width - dx,
        Edge::Right | Edge::BottomRight => start.width + dx,
        Edge::Bottom => start.width,
    };
    let width: i128 = keep(wide, narrowest, widest);
    let was: i128 = tall_for(start.width, start_pixels);
    let is_bottom: bool = match edge {
        Edge::Bottom | Edge::BottomLeft | Edge::BottomRight => true,
        _ => false,
    };
    let tall: i128 = if is_bottom {
        was + dy
    } else {
        was
    };
    let height: i128 = keep(tall, tall_for(narrowest, start_pixels), widest);
    // Clamping changes how much the window actually grew, and the centre has to follow *that*
    // rather than the drag — otherwise a window held at its minimum keeps sliding sideways.
    let right: i128 = turn(width - start.width, start.radius);
    let down: i128 = turn(height - was, start.radius);
    let yaw: i128 = match edge {
        Edge::Left | Edge::BottomLeft => start.yaw + right,
        Edge::Right | Edge::BottomRight => start.yaw - right,
        Edge::Bottom => start.yaw,
    };
    let pitch: i128 = if is_bottom {
        start.pitch - down
    } else {
        start.pitch
    };
    Resized {
        placement: Placement { yaw, pitch, radius: start.radius, width },
        pixels: (
            pixels_for(width, start_pixels.0, start.width, 160),
            pixels_for(height, start_pixels.0, start.width, 120),
        ),
    }
}

/// The opposite edge stays put, to within a billionth of a radian: what separates resizing from
/// scaling. Dragging the right edge leaves the left one where it was, and the left the right.
pub proof fn the_opposite_edge_stays_put(
    edge: Edge,
    start: Placement,
    pixels: (u32, u32),
    dx: int,
    dy: int,
)
    requires
        start.wf(),
        resizable(start, pixels),
        !(edge is Bottom),
    ensures
        ({
            let out = dragged(edge, start, pixels, dx, dy);
            let grown = out.placement.width - start.width;
            let turned = out.placement.yaw - start.yaw;
            // Twice the radius times the turn is the growth, on the side away from the drag.
            between(
                start.radius * turned,
                if edge.is_right() {
                    -grown * 500_000_000
                } else {
                    grown * 500_000_000
                },
            ) < start.radius
        }),
{
    lemma_limits(start.radius as int);
    let out = dragged(edge, start, pixels, dx, dy);
    let grown = new_width(edge, start, dx) - start.width;
    let radius = start.radius as int;
    lemma_turn(grown, radius);
    let right = half_turn(grown, radius);
    let n = grown * 500_000_000;
    assert(radius * right <= n && n < radius * right + radius) by (nonlinear_arith)
        requires
            right == n / radius,
            radius > 0,
    ;
    assert(radius * (-right) == -(radius * right)) by (nonlinear_arith);
    assert(-FAR * 0xffff_ffff * 500_000_000 <= right <= FAR * 0xffff_ffff * 500_000_000);
}

/// A window held at its limit stops moving too: however much further it is pulled, it is where it
/// was.
pub proof fn a_window_at_its_limit_stops_moving(
    edge: Edge,
    start: Placement,
    pixels: (u32, u32),
    dx: int,
    further: int,
    dy: int,
)
    requires
        start.wf(),
        resizable(start, pixels),
        (edge.is_right() && further <= dx && start.width + dx <= limit(
            start.radius as int,
            NARROWEST as int,
        )) || (edge.is_left() && dx <= further && start.width - dx <= limit(
            start.radius as int,
            NARROWEST as int,
        )),
    ensures
        dragged(edge, start, pixels, dx, dy) == dragged(edge, start, pixels, further, dy),
        new_width(edge, start, dx) == limit(start.radius as int, NARROWEST as int),
{
    lemma_limits(start.radius as int);
}

/// A resize keeps the window between its limits, where it may be grabbed again and where it does
/// not hide the whole sky, and at the distance it was. Dragging a side is not dragging the bottom.
pub proof fn a_resize_keeps_to_its_limits(
    edge: Edge,
    start: Placement,
    pixels: (u32, u32),
    dx: int,
    dy: int,
)
    requires
        start.wf(),
        resizable(start, pixels),
    ensures
        ({
            let out = dragged(edge, start, pixels, dx, dy);
            &&& limit(start.radius as int, NARROWEST as int) <= out.placement.width <= limit(
                start.radius as int,
                WIDEST as int,
            )
            &&& 160 <= out.pixels.0 <= 4_096
            &&& 120 <= out.pixels.1 <= 4_096
            &&& out.placement.radius == start.radius
            &&& edge == Edge::Bottom ==> out.placement.yaw == start.yaw
            &&& !edge.is_bottom() ==> out.placement.pitch == start.pitch
        }),
{
    lemma_limits(start.radius as int);
}

/// The height of a content is its width as its pixels are to each other, rounded down; and it is
/// never more than a hundred times its width.
pub proof fn a_content_keeps_its_shape(width: int, pixels: (u32, u32))
    requires
        0 <= width,
        0 < pixels.1,
    ensures
        pixels.1 <= 100 * pixels.0 ==> height_of(width, pixels) * pixels.0 <= width * pixels.1 < (
        height_of(width, pixels) + 1) * pixels.0,
        pixels.1 > 100 * pixels.0 ==> height_of(width, pixels) == 100 * width,
{
    if pixels.1 <= 100 * pixels.0 {
        let h = height_of(width, pixels);
        let n = width * pixels.1;
        let d = pixels.0 as int;
        assert(h * d <= n < (h + 1) * d) by (nonlinear_arith)
            requires
                h == n / d,
                d > 0,
        ;
    }
}

/// The limits are angles: a window at its narrowest, `NARROWEST` billionths of its distance wide,
/// and at its widest twice its distance.
pub proof fn the_limits_go_with_the_distance(radius: int)
    requires
        0 < radius,
    ensures
        limit(radius, NARROWEST as int) * 1_000_000_000 <= radius * 139_853_624 < (limit(
            radius,
            NARROWEST as int,
        ) + 1) * 1_000_000_000,
        limit(radius, WIDEST as int) == 2 * radius,
{
}

/// A window dragged by its bottom edge or a bottom corner has its bottom edge under the drag, while
/// neither limit holds it. Its content ends up `dy` taller than it was, so shorter by as much when
/// the drag is upwards: the centre goes down by half of `dy`, which leaves the top edge where it
/// was to within a billionth of a radian, and there are as many rows of pixels as the new height
/// takes at the density that the window had, to the nearest.
pub proof fn the_bottom_edge_follows_the_drag(
    edge: Edge,
    start: Placement,
    pixels: (u32, u32),
    tall: int,
    dx: int,
    dy: int,
)
    requires
        start.wf(),
        resizable(start, pixels),
        edge is Bottom || edge is BottomLeft || edge is BottomRight,
        tall == height_of(start.width as int, pixels),
        height_of(limit(start.radius as int, NARROWEST as int), pixels) <= tall + dy
            <= 2 * start.radius,
    ensures
        ({
            let out = dragged(edge, start, pixels, dx, dy);
            let turned = out.placement.pitch - start.pitch;
            let rows = out.pixels.1;
            let width = if start.width < 1_000 {
                1_000
            } else {
                start.width as int
            };
            // The top edge, half the height above the centre.
            &&& between(
                start.radius * out.placement.pitch + (tall + dy) * 500_000_000,
                start.radius * start.pitch + tall * 500_000_000,
            ) < start.radius
            &&& between(start.radius * turned, -dy * 500_000_000) < start.radius
            &&& 120 < rows < 4_096 ==> (2 * rows - 1) * width <= 2 * (tall + dy) * pixels.0 < (2
                * rows + 1) * width
            &&& rows == 120 ==> 2 * (tall + dy) * pixels.0 < 241 * width
            &&& rows == 4_096 ==> 8_191 * width <= 2 * (tall + dy) * pixels.0
        }),
{
    let radius = start.radius as int;
    lemma_limits(radius);
    lemma_height(start.width as int, pixels);
    lemma_turn(dy, radius);
    assert(new_height(edge, start, pixels, dy) == tall + dy);
    let down = half_turn(dy, radius);
    let n = dy * 500_000_000;
    assert(radius * down <= n && n < radius * down + radius) by (nonlinear_arith)
        requires
            down == n / radius,
            radius > 0,
    ;
    let out = dragged(edge, start, pixels, dx, dy);
    let pitch = start.pitch as int;
    assert(out.placement.pitch == pitch - down);
    assert(radius * (-down) == -(radius * down)) by (nonlinear_arith);
    assert(radius * (pitch - down) == radius * pitch - radius * down) by (nonlinear_arith);
    lemma_nearest(tall + dy, pixels.0, start.width as int, 120);
}

proof fn lemma_nearest(length: int, pixels: u32, width: int, least: int)
    requires
        0 <= width,
    ensures
        ({
            let over = if width < 1_000 {
                1_000
            } else {
                width
            };
            let n = at_density(length, pixels, width);
            &&& (2 * n - 1) * over <= 2 * length * pixels < (2 * n + 1) * over
            &&& n <= least ==> 2 * length * pixels < (2 * least + 1) * over
            &&& 4_096 <= n ==> 8_191 * over <= 2 * length * pixels
        }),
{
    let over = if width < 1_000 {
        1_000
    } else {
        width
    };
    let n = at_density(length, pixels, width);
    let m = 2 * length * pixels;
    assert((2 * n - 1) * over <= m < (2 * n + 1) * over) by (nonlinear_arith)
        requires
            n == (m + over) / (2 * over),
            over > 0,
    ;
    assert(n <= least ==> (2 * n + 1) * over <= (2 * least + 1) * over) by (nonlinear_arith)
        requires
            over > 0,
    ;
    assert(4_096 <= n ==> 8_191 * over <= (2 * n - 1) * over) by (nonlinear_arith)
        requires
            over > 0,
    ;
}

/// Two drags of a bottom edge: the further down one never leaves the window shorter, and pulls its
/// centre no higher. Neither says anything of the width, nor of where the window is across.
pub proof fn a_drag_further_down_is_taller(
    edge: Edge,
    start: Placement,
    pixels: (u32, u32),
    dx: int,
    dy: int,
    further: int,
)
    requires
        start.wf(),
        resizable(start, pixels),
        dy <= further,
    ensures
        ({
            let out = dragged(edge, start, pixels, dx, dy);
            let more = dragged(edge, start, pixels, dx, further);
            &&& out.pixels.1 <= more.pixels.1
            &&& more.placement.pitch <= out.placement.pitch
            &&& out.placement.width == more.placement.width
            &&& out.placement.yaw == more.placement.yaw
            &&& out.pixels.0 == more.pixels.0
        }),
{
    let radius = start.radius as int;
    lemma_limits(radius);
    lemma_height(start.width as int, pixels);
    lemma_height(limit(radius, NARROWEST as int), pixels);
    let was = height_of(start.width as int, pixels);
    let a = new_height(edge, start, pixels, dy);
    let b = new_height(edge, start, pixels, further);
    lemma_turn(a - was, radius);
    lemma_turn(b - was, radius);
    let low = (a - was) * 500_000_000;
    let high = (b - was) * 500_000_000;
    assert(low / radius <= high / radius) by (nonlinear_arith)
        requires
            low <= high,
            radius > 0,
    ;
    let over = if start.width < 1_000 {
        1_000
    } else {
        start.width as int
    };
    let count = pixels.0 as int;
    assert((2 * a * count + over) / (2 * over) <= (2 * b * count + over) / (2 * over))
        by (nonlinear_arith)
        requires
            a <= b,
            count >= 0,
            over > 0,
    ;
    assert(2 * a * pixels.0 == 2 * a * count);
    assert(2 * b * pixels.0 == 2 * b * count);
}

/// A window dragged by a side or a corner has that side under the drag, while neither limit holds
/// it: dragging right widens it by its right side and narrows it by its left, by as much as the
/// drag, and there are as many columns of pixels as the new width takes at the density that the
/// window had, to the nearest. A drag of one side leaves the height alone, and one of the bottom
/// the width.
pub proof fn a_side_follows_the_drag(
    edge: Edge,
    start: Placement,
    pixels: (u32, u32),
    dx: int,
    dy: int,
)
    requires
        start.wf(),
        resizable(start, pixels),
    ensures
        ({
            let out = dragged(edge, start, pixels, dx, dy);
            let wide = out.placement.width;
            let narrowest = limit(start.radius as int, NARROWEST as int);
            let columns = out.pixels.0;
            let width = if start.width < 1_000 {
                1_000
            } else {
                start.width as int
            };
            &&& (edge is Right || edge is BottomRight) && narrowest <= start.width + dx <= 2
                * start.radius ==> wide == start.width + dx
            &&& (edge is Left || edge is BottomLeft) && narrowest <= start.width - dx <= 2
                * start.radius ==> wide == start.width - dx
            &&& edge is Bottom && narrowest <= start.width <= 2 * start.radius ==> wide
                == start.width
            &&& 160 < columns < 4_096 ==> (2 * columns - 1) * width <= 2 * wide * pixels.0 < (2
                * columns + 1) * width
            &&& columns == 160 ==> 2 * wide * pixels.0 < 321 * width
            &&& columns == 4_096 ==> 8_191 * width <= 2 * wide * pixels.0
            &&& edge is Left || edge is Right ==> out == (Resized {
                placement: Placement { pitch: start.pitch, ..out.placement },
                pixels: (columns, dragged(edge, start, pixels, 0, 0).pixels.1),
            })
            &&& edge is Bottom ==> out.placement.yaw == start.yaw && out == dragged(
                edge,
                start,
                pixels,
                0,
                dy,
            )
        }),
{
    lemma_limits(start.radius as int);
    lemma_nearest(new_width(edge, start, dx), pixels.0, start.width as int, 160);
}

/// A piece of a window's own plane: how far its centre is to the right of and above the centre of
/// the content, and how large it is.
#[derive(Debug, Clone, Copy, PartialEq, Eq, Structural)]
pub struct PlaneQuad {
    pub right: i128,
    pub up: i128,
    pub width: i128,
    pub height: i128,
}

/// The quad a window occupies, including its title bar.
///
/// The bar sits above the content and the frame surrounds it, so the quad the ray hits is bigger
/// than the surface on every side, and its centre is not the content's: the bar hangs above the
/// content, so the chrome is taller upwards than downwards.
pub open spec fn chrome(pixels: (u32, u32), width: int) -> PlaneQuad {
    let tall = height_of(width, pixels);
    let frame = Frame::around(pixels);
    PlaneQuad {
        right: 0,
        up: (tall * 11 / 178) as i128,
        width: (tall * (5 * frame.wide + frame.tall) / (5 * frame.tall)) as i128,
        height: (tall * 589 / 445) as i128,
    }
}

/// The quad a window occupies, including its title bar, on the window's own plane.
pub fn quad_of(pixels: (u32, u32), placement: &Placement) -> (out: PlaneQuad)
    requires
        placement.sized(),
    ensures
        out == chrome(pixels, placement.width as int),
{
    let frame = Frame::of(pixels);
    let tall: i128 = tall_for(placement.width, pixels);
    let whole: i128 = 5 * frame.wide as i128 + frame.tall as i128;
    proof {
        lemma_tall(placement.width as int, pixels);
        let t = height_of(placement.width as int, pixels);
        assert(0 <= t * whole <= 0x10_0000_0000_0000_0000_0000 * 0x7_0000_0000)
            by (nonlinear_arith)
            requires
                0 <= t <= 0x10_0000_0000_0000_0000_0000,
                0 <= whole <= 0x7_0000_0000,
        ;
    }
    PlaneQuad {
        right: 0,
        up: tall * 11 / 178,
        width: tall * whole / (5 * frame.tall as i128),
        height: tall * 589 / 445,
    }
}

proof fn lemma_tall(width: int, pixels: (u32, u32))
    requires
        0 <= width <= 1_000_000_000_000,
    ensures
        0 <= height_of(width, pixels) <= 0x10_0000_0000_0000_0000_0000,
{
    lemma_shape(pixels);
    let n = shape(pixels).0;
    let d = shape(pixels).1;
    assert(0 <= width * n <= 1_000_000_000_000 * 0xffff_ffff) by (nonlinear_arith)
        requires
            0 <= width <= 1_000_000_000_000,
            1 <= n <= 0xffff_ffff,
    ;
    assert(0 <= width * n / d <= width * n) by (nonlinear_arith)
        requires
            0 <= width * n,
            1 <= d,
    ;
}

/// A window's content as a quad on its own plane: as wide as it is placed, and as tall as its shape
/// makes it. A surface that has committed no buffer yet has no shape, and is taken for a hundred
/// times as tall as it is wide rather than for one that swallows every ray cast at it.
pub fn window_quad(placement: &Placement, shape: (u32, u32)) -> (out: PlaneQuad)
    requires
        placement.sized(),
    ensures
        out == (PlaneQuad {
            right: 0,
            up: 0,
            width: placement.width,
            height: height_of(placement.width as int, shape) as i128,
        }),
{
    PlaneQuad { right: 0, up: 0, width: placement.width, height: tall_for(placement.width, shape) }
}

/// The quad an open popup occupies, on its window's plane: so many pixels from the surface's top
/// left, which is where the client put it.
pub open spec fn popup_on(
    pixels: (u32, u32),
    width: int,
    offset: (i32, i32),
    popup: (u32, u32),
) -> PlaneQuad {
    let tall = height_of(width, pixels);
    let w = if pixels.0 == 0 {
        1
    } else {
        pixels.0 as int
    };
    let h = if pixels.1 == 0 {
        1
    } else {
        pixels.1 as int
    };
    PlaneQuad {
        right: ((2 * offset.0 + popup.0 - w) * width / (2 * w)) as i128,
        up: ((h - 2 * offset.1 - popup.1) * tall / (2 * h)) as i128,
        width: (popup.0 * width / w) as i128,
        height: (popup.1 * tall / h) as i128,
    }
}

proof fn lemma_pixels(count: int, length: int)
    requires
        -0x8_0000_0000 <= count <= 0x8_0000_0000,
        0 <= length <= 0x10_0000_0000_0000_0000_0000,
    ensures
        -0x8_0000_0000 * 0x10_0000_0000_0000_0000_0000 <= count * length <= 0x8_0000_0000
            * 0x10_0000_0000_0000_0000_0000,
{
    assert(-0x8_0000_0000 * 0x10_0000_0000_0000_0000_0000 <= count * length <= 0x8_0000_0000
        * 0x10_0000_0000_0000_0000_0000) by (nonlinear_arith)
        requires
            -0x8_0000_0000 <= count <= 0x8_0000_0000,
            0 <= length <= 0x10_0000_0000_0000_0000_0000,
    ;
}

/// The quad an open popup occupies, on its window's plane.
///
/// The forward lift the drawing applies is deliberately *not* here: it is a millimetre, and it
/// exists only to keep two coplanar quads from fighting over pixels.
pub fn popup_quad(
    pixels: (u32, u32),
    placement: &Placement,
    offset: (i32, i32),
    popup_pixels: (u32, u32),
) -> (out: PlaneQuad)
    requires
        placement.sized(),
    ensures
        out == popup_on(pixels, placement.width as int, offset, popup_pixels),
{
    let tall: i128 = tall_for(placement.width, pixels);
    let w: i128 = if pixels.0 == 0 {
        1
    } else {
        pixels.0 as i128
    };
    let h: i128 = if pixels.1 == 0 {
        1
    } else {
        pixels.1 as i128
    };
    let across: i128 = 2 * offset.0 as i128 + popup_pixels.0 as i128 - w;
    let above: i128 = h - 2 * offset.1 as i128 - popup_pixels.1 as i128;
    proof {
        lemma_tall(placement.width as int, pixels);
        lemma_pixels(across as int, placement.width as int);
        lemma_pixels(above as int, tall as int);
        lemma_pixels(popup_pixels.0 as int, placement.width as int);
        lemma_pixels(popup_pixels.1 as int, tall as int);
    }
    PlaneQuad {
        right: floor_over(across * placement.width, 2 * w),
        up: floor_over(above * tall, 2 * h),
        width: floor_over(popup_pixels.0 as i128 * placement.width, w),
        height: floor_over(popup_pixels.1 as i128 * tall, h),
    }
}

/// A popup the size of its window, at its origin, lands exactly on the content: the same centre
/// and the same size.
pub proof fn a_popup_covering_the_surface_lands_on_it(pixels: (u32, u32), width: int)
    requires
        pixels.0 > 0,
        pixels.1 > 0,
        0 <= width <= FAR,
    ensures
        popup_on(pixels, width, (0, 0), pixels) == (PlaneQuad {
            right: 0,
            up: 0,
            width: width as i128,
            height: height_of(width, pixels) as i128,
        }),
{
    let tall = height_of(width, pixels);
    let w = pixels.0 as int;
    let h = pixels.1 as int;
    assert(0 * width == 0);
    assert(0 * tall == 0);
    assert(0int / (2 * w) == 0) by (nonlinear_arith)
        requires
            w > 0,
    ;
    assert(0int / (2 * h) == 0) by (nonlinear_arith)
        requires
            h > 0,
    ;
    assert(w * width / w == width) by (nonlinear_arith)
        requires
            w > 0,
    ;
    assert(h * tall / h == tall) by (nonlinear_arith)
        requires
            h > 0,
    ;
}

/// A popup is drawn at its window's own density, where its client put it: so many pixels of it are
/// as much of the plane as so many of the window's, its left edge is its offset from the surface's
/// left edge, and its top edge its offset below the surface's top.
pub proof fn a_popup_stands_where_its_client_put_it(
    pixels: (u32, u32),
    width: int,
    offset: (i32, i32),
    popup: (u32, u32),
)
    requires
        pixels.0 > 0,
        pixels.1 > 0,
        0 <= width <= FAR,
    ensures
        ({
            let out = popup_on(pixels, width, offset, popup);
            let tall = height_of(width, pixels);
            let (w, h) = (pixels.0 as int, pixels.1 as int);
            &&& out.width * w <= popup.0 * width < (out.width + 1) * w
            &&& out.height * h <= popup.1 * tall < (out.height + 1) * h
            // Twice its centre, from the surface's centre, in pixels.
            &&& out.right * (2 * w) <= (2 * offset.0 + popup.0 - w) * width < (out.right + 1) * (2
                * w)
            &&& out.up * (2 * h) <= (h - 2 * offset.1 - popup.1) * tall < (out.up + 1) * (2 * h)
        }),
{
    let tall = height_of(width, pixels);
    lemma_tall(width, pixels);
    let (w, h) = (pixels.0 as int, pixels.1 as int);
    let across = 2 * offset.0 + popup.0 - w;
    let above = h - 2 * offset.1 - popup.1;
    lemma_pixels(across, width);
    lemma_pixels(above, tall);
    lemma_pixels(popup.0 as int, width);
    lemma_pixels(popup.1 as int, tall);
    lemma_fits(across * width, 2 * w);
    lemma_fits(above * tall, 2 * h);
    lemma_fits(popup.0 * width, w);
    lemma_fits(popup.1 * tall, h);
}

proof fn lemma_fits(n: int, d: int)
    requires
        d > 0,
        -0x8_0000_0000 * 0x10_0000_0000_0000_0000_0000 <= n <= 0x8_0000_0000
            * 0x10_0000_0000_0000_0000_0000,
    ensures
        (n / d) * d <= n < (n / d + 1) * d,
        -0x8_0000_0000 * 0x10_0000_0000_0000_0000_0000 <= n / d <= 0x8_0000_0000
            * 0x10_0000_0000_0000_0000_0000,
{
    assert((n / d) * d <= n < (n / d + 1) * d) by (nonlinear_arith)
        requires
            d > 0,
    ;
    let most = 0x8_0000_0000 * 0x10_0000_0000_0000_0000_0000;
    assert(-most <= n / d <= most) by (nonlinear_arith)
        requires
            d > 0,
            -most <= n <= most,
            most > 0,
    ;
}

/// The chrome goes round the content: a tenth of the content's height beyond it on the left, on the
/// right and below, and above it another tenth and the bar, which is eleven hundredths of the bar
/// and the content together. Each to within what rounding down leaves.
pub proof fn the_chrome_goes_round_the_content(pixels: (u32, u32), width: int)
    requires
        pixels.1 > 0,
        0 <= width <= FAR,
    ensures
        ({
            let out = chrome(pixels, width);
            let tall = height_of(width, pixels);
            // In four-hundred-and-forty-fifths of the content's height, of which two tenths are 89
            // and the bar is 55.
            &&& out.height * 445 <= tall * (445 + 89 + 55) < (out.height + 1) * 445
            // The middle of the whole is half the bar above the middle of the content.
            &&& out.up * 890 <= tall * 55 < (out.up + 1) * 890
            &&& out.right == 0
            // Its width over its content's height: the content's own, and two tenths.
            &&& out.width * (10 * pixels.1) <= tall * (10 * pixels.0 + 2 * pixels.1) < (out.width
                + 1) * (10 * pixels.1)
        }),
{
    let tall = height_of(width, pixels);
    lemma_tall(width, pixels);
    let w = 5 * pixels.0 + pixels.1;
    let h = 5 * pixels.1 as int;
    lemma_pixels(w, tall);
    assert(tall * w == w * tall) by (nonlinear_arith);
    lemma_fits(tall * w, h);
    let q = tall * w / h;
    assert(tall * (10 * pixels.0 + 2 * pixels.1) == 2 * (tall * w)) by (nonlinear_arith)
        requires
            w == 5 * pixels.0 + pixels.1,
    ;
    assert(q * (10 * pixels.1) == 2 * (q * h)) by (nonlinear_arith)
        requires
            h == 5 * pixels.1,
    ;
    assert((q + 1) * (10 * pixels.1) == 2 * ((q + 1) * h)) by (nonlinear_arith)
        requires
            h == 5 * pixels.1,
    ;
}

} // verus!
