//! Turning touchpad contacts into pointer events, window drags, and clicks.
//!
//! This is where the 3D world meets ordinary 2D applications. A ray is cast from the eye through
//! wherever the thumb is on the pad, intersected with the window quads, and the hit's surface
//! coordinates are what a client is told — after which it is having an entirely normal day and has
//! no idea it is floating in space.
//!
//! Where a ray crosses a quad is given in billionths of the quad, lengths in the world are in
//! billionths of a metre, angles in billionths of a radian, and places on a client's surface in
//! two-hundred-and-fifty-sixths of a pixel. A window's frame is a matter of whole fractions of its
//! height, so every question about it is answered exactly, by cross-multiplying.

pub mod resize;
pub mod state;

use vstd::prelude::*;

verus! {

/// Linux button codes, as `wl_pointer` expects them.
pub const BTN_LEFT: u32 = 0x110;

pub const BTN_RIGHT: u32 = 0x111;

pub const BTN_MIDDLE: u32 = 0x112;

/// The whole of a quad, across or down.
pub const UNIT: i64 = 1_000_000_000;

/// How tall the title bar is, in hundredths of the height of the bar and the content together.
///
/// Generous, and it has to be. This is a target hit with a head-anchored ray at 2.2 m, where
/// the whole window is only about 17° tall — so a desktop-proportioned bar works out at a
/// degree or so, which is roughly the tremor in holding your head still.
pub const TITLE_BAR_FRACTION: i64 = 11;

/// How thick the window's frame is, in hundredths of the content's height.
///
/// Sized by the same argument as the title bar, and for the same reason it had to be
/// generous.
pub const BORDER_FRACTION: i64 = 10;

/// How much of the bar's height the icon and the close button occupy, in hundredths.
///
/// Comfortably under the whole bar, so both sit *in* it with glass showing around them rather
/// than filling it edge to edge.
pub const FURNITURE_FRACTION: i64 = 66;

/// How far along the bottom edge counts as a corner rather than a side, in border widths.
///
/// Two, so a corner is roughly a 3.6° square. Smaller and it is a target you hit by luck;
/// much larger and the bottom edge stops existing on a narrow window.
pub const CORNER_REACH: i64 = 2;

/// Which edge of a window is being dragged.
#[derive(Debug, Clone, Copy, PartialEq, Eq, Structural)]
pub enum Edge {
    Left,
    Right,
    Bottom,
    BottomLeft,
    BottomRight,
}

/// What a point on a window's quad means.
#[derive(Debug, Clone, Copy, PartialEq, Eq, Structural)]
pub enum Zone {
    /// The bar along the top. Grab to move.
    Title,
    /// The button at the right of the bar. Press to ask the window to close.
    Close,
    /// The client's own surface. Everything here is forwarded.
    Content,
    /// The frame. Grab to resize.
    Resize(Edge),
}

/// A box on a window's quad, in the quad's own coordinates: `u` and `half_u` are so many parts of
/// `over_u`, and `v` and `half_v` of `over_v`.
///
/// Expressed in quad fractions rather than in metres so that one definition serves both the
/// hit test, which knows where the ray crossed, and the drawing, which knows the quad's size. A
/// close button drawn from one set of numbers and aimed at from another is the specific bug
/// this shape exists to make impossible.
#[derive(Debug, Clone, Copy, PartialEq, Eq, Structural)]
pub struct Box2 {
    pub u: i128,
    pub half_u: i128,
    pub over_u: i128,
    pub v: i128,
    pub half_v: i128,
    pub over_v: i128,
}

/// The distance between two numbers.
pub open spec fn between(a: int, b: int) -> int {
    if a < b {
        b - a
    } else {
        a - b
    }
}

impl Box2 {
    /// Whether a point of the quad is in the box.
    pub open spec fn has(self, u: int, v: int) -> bool {
        &&& between(u * self.over_u, self.u * UNIT) <= self.half_u * UNIT
        &&& between(v * self.over_v, self.v * UNIT) <= self.half_v * UNIT
    }

    /// Whether its parts are those of a box on a quad.
    pub open spec fn wf(self) -> bool {
        &&& 0 < self.over_u <= 0x4000_0000_0000
        &&& 0 < self.over_v <= 0x4000_0000_0000
        &&& 0 <= self.u <= self.over_u
        &&& 0 <= self.v <= self.over_v
        &&& 0 <= self.half_u <= self.over_u
        &&& 0 <= self.half_v <= self.over_v
    }

    pub fn contains(&self, u: i64, v: i64) -> (out: bool)
        requires
            self.wf(),
        ensures
            out == self.has(u as int, v as int),
    {
        within(u, self.u, self.half_u, self.over_u) && within(v, self.v, self.half_v, self.over_v)
    }
}

fn within(at: i64, centre: i128, half: i128, over: i128) -> (out: bool)
    requires
        0 < over <= 0x4000_0000_0000,
        0 <= centre <= over,
        0 <= half <= over,
    ensures
        out == (between(at * over, centre * UNIT) <= half * UNIT),
{
    assert(-0x8000_0000_0000_0000 * 0x4000_0000_0000 <= at * over <= 0x8000_0000_0000_0000
        * 0x4000_0000_0000) by (nonlinear_arith)
        requires
            0 < over <= 0x4000_0000_0000,
            -0x8000_0000_0000_0000 <= at <= 0x8000_0000_0000_0000,
    ;
    let there: i128 = at as i128 * over;
    let middle: i128 = centre * UNIT as i128;
    let apart: i128 = if there < middle {
        middle - there
    } else {
        there - middle
    };
    apart <= half * UNIT as i128
}

/// A window's quad broken into its parts.
///
/// Proportional rather than metric, so the same numbers describe a window at any size or
/// distance and the whole thing is settled without a placement.
///
/// ```text
///   ┌─────────────────────────┐  ─┐ border
///   │        title bar        │   ├ bar
///   ├──┬───────────────────┬──┤  ─┘
///   │  │                   │  │
///   │  │      content      │  │   1
///   │  │                   │  │
///   ├──┴───────────────────┴──┤  ─┐ border
///   └─────────────────────────┘  ─┘
/// ```
///
/// In units of the content's height the border is 1/10 and the bar 11/89, so the whole is 589/445
/// tall; the content is `wide`/`tall` wide and the whole (5 `wide` + `tall`)/(5 `tall`).
#[derive(Debug, Clone, Copy, PartialEq, Eq, Structural)]
pub struct Frame {
    pub wide: u32,
    pub tall: u32,
}

impl Frame {
    /// The frame of a window of so many pixels.
    pub open spec fn around(pixels: (u32, u32)) -> Frame {
        Frame {
            wide: pixels.0,
            tall: if pixels.1 == 0 {
                1
            } else {
                pixels.1
            },
        }
    }

    /// A content has some height.
    pub open spec fn wf(self) -> bool {
        self.tall > 0
    }

    pub fn of(pixels: (u32, u32)) -> (out: Frame)
        ensures
            out == Self::around(pixels),
            out.wf(),
    {
        Frame {
            wide: pixels.0,
            tall: if pixels.1 == 0 {
                1
            } else {
                pixels.1
            },
        }
    }

    /// The whole's width over the content's height, as a fraction.
    pub fn width(&self) -> (out: (u64, u64))
        ensures
            out.0 == 5 * self.wide + self.tall,
            out.1 == 5 * self.tall,
    {
        (5 * self.wide as u64 + self.tall as u64, 5 * self.tall as u64)
    }

    /// The whole's height over the content's height, as a fraction.
    pub fn height(&self) -> (out: (u64, u64))
        ensures
            out == (589u64, 445u64),
    {
        (589, 445)
    }

    /// The title bar's height over the content's height, as a fraction.
    pub fn bar(&self) -> (out: (u64, u64))
        ensures
            out == (11u64, 89u64),
    {
        (11, 89)
    }

    /// Whether the content is so narrow that it is taken for a millionth of its height.
    pub open spec fn sliver(self) -> bool {
        self.wide * 1_000_000 < self.tall
    }

    /// How far across the content a point is, from its left edge, as so many parts of
    /// [`Frame::content_parts`].
    pub open spec fn across(self, u: int) -> int {
        self.scaled(2 * u * (5 * self.wide + self.tall) - self.tall * UNIT)
    }

    /// A sliver's parts are so much finer.
    pub open spec fn scaled(self, parts: int) -> int {
        if self.sliver() {
            parts * 1_000_000
        } else {
            parts
        }
    }

    /// The content's own width, in the parts that [`Frame::across`] counts.
    pub open spec fn content_parts(self) -> int {
        if self.sliver() {
            10_000_000_000 * self.tall
        } else {
            10_000_000_000 * self.wide
        }
    }

    /// How far down the content a point is, from its top edge, as so many parts of 890 `UNIT`s.
    pub open spec fn down(self, v: int) -> int {
        1_178 * v - 199 * UNIT
    }

    /// Where the title bar's furniture sits, in quad fractions.
    ///
    /// Both are square, sized against the bar's height, and inset from the chrome's outer edge
    /// by the border — so they sit over the glass rather than over the surface, whatever the
    /// window's aspect ratio.
    pub open spec fn furniture(self, from_right: bool) -> Box2 {
        let over = 1_780 * (5 * self.wide + self.tall);
        let inset = 1_253 * self.tall;
        Box2 {
            u: (if from_right {
                over - inset
            } else {
                inset
            }) as i128,
            half_u: (363 * self.tall) as i128,
            over_u: over as i128,
            v: 1_440,
            half_v: 363,
            over_v: 11_780,
        }
    }

    fn box_at(&self, from_right: bool) -> (out: Box2)
        requires
            self.wf(),
        ensures
            out == self.furniture(from_right),
            out.wf(),
    {
        let over: i128 = 1_780 * (5 * self.wide as i128 + self.tall as i128);
        let inset: i128 = 1_253 * self.tall as i128;
        Box2 {
            u: if from_right {
                over - inset
            } else {
                inset
            },
            half_u: 363 * self.tall as i128,
            over_u: over,
            v: 1_440,
            half_v: 363,
            over_v: 11_780,
        }
    }

    /// The application's icon, at the left of the bar. Decoration only — nothing to press.
    pub fn icon(&self) -> (out: Box2)
        requires
            self.wf(),
        ensures
            out == self.furniture(false),
            out.wf(),
    {
        self.box_at(false)
    }

    /// The close button, at the right of the bar.
    ///
    /// There is no minimise and no maximise, and that is a statement rather than an omission:
    /// neither means anything in a room. A window that is in the way is moved or pushed
    /// further off, and one you are finished with is closed.
    pub fn close(&self) -> (out: Box2)
        requires
            self.wf(),
        ensures
            out == self.furniture(true),
            out.wf(),
    {
        self.box_at(true)
    }

    /// What a point of the quad is.
    ///
    /// Everything above the content is the bar, including the frame above it, except the close
    /// button, which is inside it. The corners are L-shaped regions wrapping the bottom of each
    /// side, as every 2D desktop does it — a corner has to be reachable along both the side and
    /// the bottom, or it is only ever found by accident.
    pub open spec fn part(self, u: int, v: int) -> Zone {
        let x = self.across(u);
        let y = self.down(v);
        let left = x < 0;
        let right = x > self.content_parts();
        let bottom = y > 890 * UNIT;
        let reach = self.scaled(2 * self.tall * UNIT);
        let near_bottom = y > 712 * UNIT;
        if y < 0 {
            if self.furniture(true).has(u, v) {
                Zone::Close
            } else {
                Zone::Title
            }
        } else if !left && !right && !bottom {
            Zone::Content
        } else if left {
            Zone::Resize(
                if near_bottom {
                    Edge::BottomLeft
                } else {
                    Edge::Left
                },
            )
        } else if right {
            Zone::Resize(
                if near_bottom {
                    Edge::BottomRight
                } else {
                    Edge::Right
                },
            )
        } else if x < reach {
            Zone::Resize(Edge::BottomLeft)
        } else if x > self.content_parts() - reach {
            Zone::Resize(Edge::BottomRight)
        } else {
            Zone::Resize(Edge::Bottom)
        }
    }

    proof fn lemma_across(self, u: i64)
        ensures
            -0x1000_0000_0000_0000_0000_0000_0000_0000 < 2 * u * (5 * self.wide + self.tall)
                < 0x1000_0000_0000_0000_0000_0000_0000_0000,
            -0x1000_0000_0000_0000_0000_0000_0000_0000 < (2 * u * (5 * self.wide + self.tall)
                - self.tall * UNIT) * 1_000_000 < 0x1000_0000_0000_0000_0000_0000_0000_0000,
            -0x1000_0000_0000_0000_0000_0000_0000_0000 < self.across(u as int)
                < 0x1000_0000_0000_0000_0000_0000_0000_0000,
            0 <= self.content_parts() <= 0x4000_0000_0000_0000_0000,
    {
        let whole = 5 * self.wide + self.tall;
        assert(-0x8000_0000_0000_0000 * 0x7_0000_0000 * 2 <= 2 * u * whole <= 0x8000_0000_0000_0000
            * 0x7_0000_0000 * 2) by (nonlinear_arith)
            requires
                0 <= whole <= 0x7_0000_0000,
                -0x8000_0000_0000_0000 <= u <= 0x8000_0000_0000_0000,
        ;
    }

    fn place(&self, u: i64) -> (out: i128)
        ensures
            out == self.across(u as int),
    {
        proof {
            self.lemma_across(u);
        }
        let parts: i128 = 2 * u as i128 * (5 * self.wide as i128 + self.tall as i128)
            - self.tall as i128 * UNIT as i128;
        if (self.wide as u64) * 1_000_000 < self.tall as u64 {
            parts * 1_000_000
        } else {
            parts
        }
    }

    fn parts(&self) -> (out: i128)
        ensures
            out == self.content_parts(),
            0 <= out <= 0x4000_0000_0000_0000_0000,
    {
        if (self.wide as u64) * 1_000_000 < self.tall as u64 {
            self.tall as i128 * 10_000_000_000
        } else {
            self.wide as i128 * 10_000_000_000
        }
    }

    /// What the wearer is pointing at.
    pub fn zone(&self, u: i64, v: i64) -> (out: Zone)
        requires
            self.wf(),
        ensures
            out == self.part(u as int, v as int),
    {
        proof {
            self.lemma_across(u);
        }
        let x: i128 = self.place(u);
        let y: i128 = 1_178 * v as i128 - 199 * UNIT as i128;
        if y < 0 {
            return if self.close().contains(u, v) {
                Zone::Close
            } else {
                Zone::Title
            };
        }
        let parts: i128 = self.parts();
        let left: bool = x < 0;
        let right: bool = x > parts;
        let bottom: bool = y > 890 * UNIT as i128;
        if !left && !right && !bottom {
            return Zone::Content;
        }
        let near_bottom: bool = y > 712 * UNIT as i128;
        if left {
            return Zone::Resize(
                if near_bottom {
                    Edge::BottomLeft
                } else {
                    Edge::Left
                },
            );
        }
        if right {
            return Zone::Resize(
                if near_bottom {
                    Edge::BottomRight
                } else {
                    Edge::Right
                },
            );
        }
        let near: i128 = 2 * self.tall as i128 * UNIT as i128;
        let reach: i128 = if (self.wide as u64) * 1_000_000 < self.tall as u64 {
            near * 1_000_000
        } else {
            near
        };
        Zone::Resize(
            if x < reach {
                Edge::BottomLeft
            } else if x > parts - reach {
                Edge::BottomRight
            } else {
                Edge::Bottom
            },
        )
    }
}

/// Every part of a frame follows from the fractions it is laid out by.
///
/// The bar is its share of the bar and the content, the whole is the content with the bar above it
/// and a border round both, what is in the bar is a square of its share of the bar's height, set in
/// from the edge by the border and level with the bar, and a corner reaches so many borders up.
pub proof fn a_frame_follows_its_fractions(frame: Frame, v: int)
    requires
        frame.wf(),
    ensures
        11 * (100 - TITLE_BAR_FRACTION) == 89 * TITLE_BAR_FRACTION,
        589 * 100 * (100 - TITLE_BAR_FRACTION) == 445 * (100 * (100 - TITLE_BAR_FRACTION) + 100
            * TITLE_BAR_FRACTION + 2 * BORDER_FRACTION * (100 - TITLE_BAR_FRACTION)),
        (5 * frame.wide + frame.tall) * 100 == 5 * (100 * frame.wide + 2 * BORDER_FRACTION
            * frame.tall),
        frame.down(v) * 445 * 100 * (100 - TITLE_BAR_FRACTION) == 890 * (589 * v * 100 * (100
            - TITLE_BAR_FRACTION) - 445 * UNIT * (BORDER_FRACTION * (100 - TITLE_BAR_FRACTION)
            + 100 * TITLE_BAR_FRACTION)),
        712 * 100 == 890 * (100 - BORDER_FRACTION * CORNER_REACH),
        ({
            let icon = frame.furniture(false);
            let close = frame.furniture(true);
            let whole = 5 * frame.wide + frame.tall;
            let side = TITLE_BAR_FRACTION * FURNITURE_FRACTION;
            let rest = 100 - TITLE_BAR_FRACTION;
            &&& icon.half_v * 2 * 589 * 100 * rest == icon.over_v * 445 * side
            &&& icon.v * 2 * 589 == icon.over_v * (589 - 445)
            &&& icon.half_u * 2 * whole * 100 * rest == icon.over_u * 5 * frame.tall * side
            &&& icon.u * whole * 200 * rest == icon.over_u * 5 * frame.tall * (2 * BORDER_FRACTION
                * rest + side)
            &&& close == Box2 { u: (icon.over_u - icon.u) as i128, ..icon }
        }),
{
    let tall = frame.tall as int;
    let whole = 5 * frame.wide + frame.tall;
    let icon = frame.furniture(false);
    assert(icon.half_u == 363 * tall && icon.u == 1_253 * tall && icon.over_u == 1_780 * whole);
    assert((1_178 * v - 199 * 1_000_000_000) * 445 * 100 * 89 == 890 * (589 * v * 100 * 89 - 445
        * 1_000_000_000 * 1_990)) by (nonlinear_arith);
    let side = TITLE_BAR_FRACTION * FURNITURE_FRACTION;
    let rest = 100 - TITLE_BAR_FRACTION;
    assert(side == 726) by (nonlinear_arith)
        requires
            side == TITLE_BAR_FRACTION * FURNITURE_FRACTION,
            TITLE_BAR_FRACTION == 11,
            FURNITURE_FRACTION == 66,
    ;
    let set_in = 2 * BORDER_FRACTION * rest + side;
    assert(set_in == 2_506);
    assert(icon.half_v * 2 * 589 * 100 * rest == icon.over_v * 445 * side) by (nonlinear_arith)
        requires
            icon.half_v == 363,
            icon.over_v == 11_780,
            side == 726,
            rest == 89,
    ;
    assert(icon.half_u * 2 * whole * 100 * rest == icon.over_u * 5 * tall * side) by (nonlinear_arith)
        requires
            icon.half_u == 363 * tall,
            icon.over_u == 1_780 * whole,
            side == 726,
            rest == 89,
    ;
    assert(icon.u * whole * 200 * rest == icon.over_u * 5 * tall * set_in) by (nonlinear_arith)
        requires
            icon.u == 1_253 * tall,
            icon.over_u == 1_780 * whole,
            set_in == 2_506,
            rest == 89,
    ;
}

/// Where on a client's surface a point of its window's quad is, in its own pixels' 256ths.
///
/// Nothing for a point on the title bar: that is chrome, and forwarding it as a pointer position
/// would put the cursor above the top edge of the surface.
pub open spec fn on_surface(pixels: (u32, u32), u: int, v: int) -> Option<(int, int)> {
    let frame = Frame::around(pixels);
    if frame.part(u, v) == Zone::Content {
        Some(
            (
                frame.across(u) * pixels.0 * 256 / frame.content_parts(),
                frame.down(v) * pixels.1 * 256 / (890 * UNIT),
            ),
        )
    } else {
        None
    }
}

/// Surface coordinates for a point of a window's quad, in the client's own pixels' 256ths.
pub fn surface_position(u: i64, v: i64, pixels: (u32, u32)) -> (out: Option<(i64, i64)>)
    ensures
        match out {
            Some((x, y)) => on_surface(pixels, u as int, v as int) == Some((x as int, y as int)),
            None => on_surface(pixels, u as int, v as int) is None,
        },
{
    let frame = Frame::of(pixels);
    if frame.zone(u, v) != Zone::Content {
        return None;
    }
    let parts: i128 = frame.parts();
    let x: i128 = frame.place(u);
    let y: i128 = 1_178 * v as i128 - 199 * UNIT as i128;
    proof {
        lemma_surface(x as int, parts as int, pixels.0);
        lemma_surface(y as int, 890 * UNIT, pixels.1);
    }
    let across: i64 = (x * pixels.0 as i128 * 256 / parts) as i64;
    let down: i64 = (y * pixels.1 as i128 * 256 / (890 * UNIT as i128)) as i64;
    Some((across, down))
}

proof fn lemma_surface(part: int, whole: int, length: u32)
    requires
        0 <= part <= whole,
        whole <= 0x4000_0000_0000_0000_0000,
    ensures
        0 <= part * length <= 0x4000_0000_0000_0000_0000_0000_0000,
        0 <= part * length * 256 <= 0x40_0000_0000_0000_0000_0000_0000_0000,
        whole > 0 ==> 0 <= part * length * 256 / whole <= length * 256,
{
    assert(0 <= part * length <= whole * length) by (nonlinear_arith)
        requires
            0 <= part <= whole,
            0 <= length,
    ;
    assert(whole * length <= 0x4000_0000_0000_0000_0000 * 0x1_0000_0000) by (nonlinear_arith)
        requires
            0 <= whole <= 0x4000_0000_0000_0000_0000,
            0 <= length <= 0x1_0000_0000,
    ;
    if whole > 0 {
        assert(part * length * 256 / whole <= length * 256) by (nonlinear_arith)
            requires
                part * length <= whole * length,
                whole > 0,
        ;
        assert(0 <= part * length * 256 / whole) by (nonlinear_arith)
            requires
                0 <= part * length,
                whole > 0,
        ;
    }
}

/// Where the content begins and ends on a quad, a client is told of every place on its surface and
/// of none beyond it.
pub proof fn what_is_forwarded_is_on_the_surface(pixels: (u32, u32), u: i64, v: i64)
    ensures
        on_surface(pixels, u as int, v as int) is Some <==> Frame::around(pixels).part(
            u as int,
            v as int,
        ) == Zone::Content,
        on_surface(pixels, u as int, v as int) matches Some(at) ==> 0 <= at.0 <= pixels.0 * 256
            && 0 <= at.1 <= pixels.1 * 256,
{
    let frame = Frame::around(pixels);
    frame.lemma_across(u);
    if frame.part(u as int, v as int) == Zone::Content {
        lemma_surface(frame.across(u as int), frame.content_parts(), pixels.0);
        lemma_surface(frame.down(v as int), 890 * UNIT, pixels.1);
    }
}

/// What a client is told of a place across its surface depends on how far across the quad it is
/// and on nothing else, and down on how far down: two points of the content with the same `u` have
/// the same x, and two with the same `v` the same y; and it rises with them.
pub proof fn across_and_down_are_told_apart(
    pixels: (u32, u32),
    u: i64,
    other_u: i64,
    v: i64,
    other_v: i64,
)
    requires
        on_surface(pixels, u as int, v as int) is Some,
        on_surface(pixels, other_u as int, other_v as int) is Some,
    ensures
        ({
            let one = on_surface(pixels, u as int, v as int)->0;
            let other = on_surface(pixels, other_u as int, other_v as int)->0;
            &&& u == other_u ==> one.0 == other.0
            &&& v == other_v ==> one.1 == other.1
            &&& u <= other_u && pixels.0 > 0 ==> one.0 <= other.0
            &&& v <= other_v ==> one.1 <= other.1
        }),
{
    let frame = Frame::around(pixels);
    if u <= other_u && pixels.0 > 0 {
        let whole = 5 * frame.wide + frame.tall;
        assert(2 * u * whole <= 2 * other_u * whole) by (nonlinear_arith)
            requires
                u <= other_u,
                whole >= 0,
        ;
        lemma_further(
            frame.across(u as int),
            frame.across(other_u as int),
            pixels.0 as int,
            frame.content_parts(),
        );
    }
    if v <= other_v {
        lemma_further(
            frame.down(v as int),
            frame.down(other_v as int),
            pixels.1 as int,
            890 * UNIT,
        );
    }
}

proof fn lemma_further(part: int, other: int, length: int, whole: int)
    requires
        part <= other,
        0 <= length,
        0 < whole,
    ensures
        part * length * 256 / whole <= other * length * 256 / whole,
{
    assert(part * length * 256 / whole <= other * length * 256 / whole) by (nonlinear_arith)
        requires
            part <= other,
            0 <= length,
            0 < whole,
    ;
}

/// Where the content lies on the quad, and where on it a point is. In tenths of the content's
/// height the quad is `10 wide / tall + 2` across, of which the content begins after one and ends
/// one before the end; in eight-hundred-and-ninetieths it is 1178 down, of which the content begins
/// after 199 (a border of 89 and a bar of 110) and ends 89 before the end. From one end of it to
/// the other the client is told 0 to its own pixels' 256ths, in proportion, rounded down.
pub proof fn a_point_is_told_in_proportion(pixels: (u32, u32), u: i64, v: i64)
    requires
        pixels.1 > 0,
        pixels.0 * 1_000_000 >= pixels.1,
    ensures
        ({
            let (w, h) = (pixels.0 as int, pixels.1 as int);
            // How far past the content's left edge and top edge, and how far across and down it
            // goes.
            let past = u * (10 * w + 2 * h) - h * 1_000_000_000;
            let below = v * 1_178 - 199 * 1_000_000_000;
            let (wide, tall) = (10 * w * 1_000_000_000, 890 * 1_000_000_000int);
            let told = on_surface(pixels, u as int, v as int);
            &&& told is Some <==> 0 <= past <= wide && 0 <= below <= tall
            &&& told matches Some((x, y)) ==> {
                &&& x * wide <= past * (w * 256) < (x + 1) * wide
                &&& y * tall <= below * (h * 256) < (y + 1) * tall
                &&& past == 0 ==> x == 0
                &&& past == wide ==> x == w * 256
                &&& below == 0 ==> y == 0
                &&& below == tall ==> y == h * 256
            }
        }),
{
    let frame = Frame::around(pixels);
    frame.lemma_across(u);
    let (w, h) = (pixels.0 as int, pixels.1 as int);
    let past = u * (10 * w + 2 * h) - h * 1_000_000_000;
    let below = v * 1_178 - 199 * 1_000_000_000;
    let (wide, tall) = (10 * w * 1_000_000_000, 890 * 1_000_000_000int);
    assert(2 * u * (5 * w + h) == u * (10 * w + 2 * h)) by (nonlinear_arith);
    assert(frame.across(u as int) == past);
    assert(frame.content_parts() == wide);
    assert(frame.down(v as int) == below);
    if let Some((x, y)) = on_surface(pixels, u as int, v as int) {
        assert(past * pixels.0 * 256 == past * (w * 256)) by (nonlinear_arith)
            requires
                w == pixels.0,
        ;
        assert(below * pixels.1 * 256 == below * (h * 256)) by (nonlinear_arith)
            requires
                h == pixels.1,
        ;
        lemma_share_of(past, w * 256, wide);
        lemma_share_of(below, h * 256, tall);
    }
}

/// The frame round the content, edge by edge. Above the content there is nothing to resize by; to
/// the left of it is the left edge and to the right the right edge, down to two borders from the
/// content's bottom, where each becomes its corner; below it is the bottom edge, with a corner for
/// two borders at each end of it.
pub proof fn every_edge_is_where_it_is_drawn(pixels: (u32, u32), u: i64, v: i64)
    requires
        pixels.1 > 0,
        pixels.0 * 1_000_000 >= pixels.1,
    ensures
        ({
            let (w, h) = (pixels.0 as int, pixels.1 as int);
            let past = u * (10 * w + 2 * h) - h * 1_000_000_000;
            let below = v * 1_178 - 199 * 1_000_000_000;
            let (wide, tall) = (10 * w * 1_000_000_000, 890 * 1_000_000_000int);
            // A border is a tenth of the content's height.
            let (two_across, two_down) = (2 * h * 1_000_000_000, 178 * 1_000_000_000int);
            let zone = Frame::around(pixels).part(u as int, v as int);
            &&& below < 0 <==> zone is Title || zone is Close
            &&& below >= 0 && past < 0 ==> zone == Zone::Resize(
                if below > tall - two_down {
                    Edge::BottomLeft
                } else {
                    Edge::Left
                },
            )
            &&& below >= 0 && past > wide ==> zone == Zone::Resize(
                if below > tall - two_down {
                    Edge::BottomRight
                } else {
                    Edge::Right
                },
            )
            &&& 0 <= past <= wide && below > tall ==> {
                &&& zone == Zone::Resize(Edge::BottomLeft) <==> past < two_across
                &&& zone == Zone::Resize(Edge::Bottom) <==> two_across <= past <= wide - two_across
                &&& zone == Zone::Resize(Edge::BottomRight) <==> past >= two_across && past > wide
                    - two_across
            }
            &&& 0 <= past <= wide && 0 <= below <= tall ==> zone == Zone::Content
        }),
{
    let (w, h) = (pixels.0 as int, pixels.1 as int);
    assert(2 * u * (5 * w + h) == u * (10 * w + 2 * h)) by (nonlinear_arith);
}

proof fn lemma_share_of(part: int, length: int, whole: int)
    requires
        0 < whole,
    ensures
        ({
            let q = part * length / whole;
            &&& q * whole <= part * length < (q + 1) * whole
            &&& part == 0 ==> q == 0
            &&& part == whole ==> q == length
        }),
{
    let n = part * length;
    let q = n / whole;
    assert(q * whole <= n < (q + 1) * whole) by (nonlinear_arith)
        requires
            q == n / whole,
            0 < whole,
    ;
    if part == 0 {
        assert(0int * length == 0);
        assert(0int / whole == 0) by (nonlinear_arith)
            requires
                0 < whole,
        ;
    }
    if part == whole {
        assert(whole * length / whole == length) by (nonlinear_arith)
            requires
                0 < whole,
        ;
    }
}

/// The middle of a window is its content, whatever its shape.
pub proof fn the_middle_is_content(frame: Frame)
    requires
        frame.wf(),
        !frame.sliver(),
    ensures
        frame.part(UNIT as int / 2, UNIT as int / 2) == Zone::Content,
{
    let u = UNIT as int / 2;
    let whole = 5 * frame.wide + frame.tall;
    assert(2 * u * whole == 1_000_000_000 * whole) by (nonlinear_arith)
        requires
            u == 500_000_000,
    ;
    assert(frame.across(u) == 5_000_000_000 * frame.wide);
}

/// Pressing the close button is not pressing the bar: its own middle closes, the icon's middle
/// moves the window, and both stand clear of the surface below them and inside the quad.
pub proof fn the_close_button_is_not_the_bar(frame: Frame, u: int, v: int)
    requires
        frame.wf(),
        frame.down(v) < 0,
    ensures
        frame.part(u, v) == Zone::Close <==> frame.furniture(true).has(u, v),
        frame.part(u, v) == Zone::Title <==> !frame.furniture(true).has(u, v),
        forall|u: int, v: int| #[trigger]
            frame.furniture(true).has(u, v) ==> frame.down(v) < 0 && u <= UNIT,
        frame.furniture(true).u + frame.furniture(true).half_u < frame.furniture(true).over_u,
        frame.furniture(false).u - frame.furniture(false).half_u > 0,
{
    assert forall|u: int, v: int| #[trigger] frame.furniture(true).has(u, v) implies frame.down(v)
        < 0 && u <= UNIT by {
        let over = 1_780 * (5 * frame.wide + frame.tall);
        assert(u * over <= UNIT * over) by (nonlinear_arith)
            requires
                between(u * over, (over - 1_253 * frame.tall) * UNIT) <= 363 * frame.tall * UNIT,
                frame.tall > 0,
                UNIT == 1_000_000_000,
        ;
        assert(u <= UNIT) by (nonlinear_arith)
            requires
                u * over <= UNIT * over,
                over > 0,
        ;
    }
}

/// The icon is not a button: on a window wide enough that the two do not meet, nothing of the icon
/// closes it.
pub proof fn the_icon_is_not_a_button(frame: Frame, u: int, v: int)
    requires
        frame.wf(),
        8_900 * frame.wide > 1_452 * frame.tall,
        frame.furniture(false).has(u, v),
    ensures
        !frame.furniture(true).has(u, v),
        frame.part(u, v) == Zone::Title,
{
    let over = 1_780 * (5 * frame.wide + frame.tall);
    let tall = frame.tall as int;
    assert(u * over <= 1_616 * tall * UNIT) by (nonlinear_arith)
        requires
            between(u * over, 1_253 * tall * UNIT) <= 363 * tall * UNIT,
            UNIT == 1_000_000_000,
    ;
    if frame.furniture(true).has(u, v) {
        assert((over - 1_616 * tall) * UNIT <= u * over) by (nonlinear_arith)
            requires
                between(u * over, (over - 1_253 * tall) * UNIT) <= 363 * tall * UNIT,
                UNIT == 1_000_000_000,
        ;
    }
}

/// The furniture is square in the world whatever the window's shape: half of it across, taken of
/// the whole's width, is half of it down, taken of the whole's height.
pub proof fn the_furniture_is_square(frame: Frame, from_right: bool)
    requires
        frame.wf(),
    ensures
        ({
            let b = frame.furniture(from_right);
            b.half_u * (5 * frame.wide + frame.tall) * (b.over_v * 445) == b.half_v * 589 * (
            b.over_u * (5 * frame.tall))
        }),
{
    let w = 5 * frame.wide + frame.tall;
    let t = frame.tall as int;
    assert((363 * t) * w * (11_780 * 445) == 363 * 589 * ((1_780 * w) * (5 * t)))
        by (nonlinear_arith);
}

/// A corner never swallows the whole bottom edge of a window whose width is at least two fifths of
/// its height: below the middle of the content there is still a bottom to drag.
pub proof fn a_corner_leaves_some_bottom(frame: Frame, v: int)
    requires
        frame.wf(),
        !frame.sliver(),
        5 * frame.wide >= 2 * frame.tall,
        frame.down(v) > 890 * UNIT,
    ensures
        frame.part(UNIT as int / 2, v) == Zone::Resize(Edge::Bottom),
{
    let u = UNIT as int / 2;
    let whole = 5 * frame.wide + frame.tall;
    assert(2 * u * whole == 1_000_000_000 * whole) by (nonlinear_arith)
        requires
            u == 500_000_000,
    ;
    assert(frame.across(u) == 5_000_000_000 * frame.wide);
}

} // verus!
