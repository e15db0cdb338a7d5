//! Drawing the spatial world.
//!
//! What is decided about an eye's picture before anything is drawn: the marks that are built
//! rather than shipped, which windows are drawn and in what order, what a menu shows and how it
//! arrives, and which pictures have to be made again.

pub mod glyphs;
pub mod keyboard;
pub mod launcher;
pub mod menu;
pub mod pictures;
pub mod windows;

use vstd::prelude::*;
use crate::pointer::Edge;

verus! {

/// Which of the three pointers this is.
///
/// Two thumbs and a mouse. They have to be told apart at a glance — a two-handed gesture is
/// impossible to aim otherwise — and colour reads more easily out of the corner of an eye than
/// shape does. Warm for the right hand, cool for the left, and a pale green for the mouse,
/// which is nobody's hand and should not look like one.
#[derive(Debug, Clone, Copy, PartialEq, Eq, Structural)]
pub enum Pointing {
    RightThumb,
    LeftThumb,
    Mouse,
}

impl Pointing {
    /// Red, green and blue, in hundredths.
    pub open spec fn colour(self) -> Seq<u8> {
        match self {
            Pointing::RightThumb => seq![100, 78, 42],
            Pointing::LeftThumb => seq![52, 82, 100],
            Pointing::Mouse => seq![62, 100, 72],
        }
    }

    /// Red, green and blue, in hundredths.
    pub fn hue(self) -> (out: [u8; 3])
        ensures
            out@ == self.colour(),
    {
        let out: [u8; 3] = match self {
            Pointing::RightThumb => [100, 78, 42],
            Pointing::LeftThumb => [52, 82, 100],
            Pointing::Mouse => [62, 100, 72],
        };
        assert(out@ =~= self.colour());
        out
    }

    /// Whether a beam is drawn to it. A beam comes from a hand; a mouse is on a table and has none,
    /// and drawing one from the middle of the wearer's chest to their cursor looks like a fault
    /// rather than a pointer.
    pub fn has_beam(self) -> (out: bool)
        ensures
            out == !(self is Mouse),
    {
        self != Pointing::Mouse
    }

    /// How far to the left of the middle the hand behind it is held, in hundredths of a metre.
    pub fn lateral(self) -> (out: Option<i64>)
        ensures
            out == (match self {
                Pointing::RightThumb => Some(-13i64),
                Pointing::LeftThumb => Some(13i64),
                Pointing::Mouse => None,
            }),
    {
        match self {
            Pointing::RightThumb => Some(-13),
            Pointing::LeftThumb => Some(13),
            Pointing::Mouse => None,
        }
    }
}

/// Which cursor to draw, and which way round.
///
/// Deliberately not a zone of a window: what draws things should not have to know what a window
/// frame is.
#[derive(Debug, Clone, Copy, PartialEq, Eq, Structural)]
pub enum Cursor {
    /// The ordinary aiming reticle.
    Point,
    /// A double arrow, lying at this angle in the plane facing the eye. 0° is horizontal and
    /// positive turns anticlockwise, so a bottom-left corner is +45°.
    Resize { angle_deg: i32 },
}

/// The mark a cursor is drawn with.
#[derive(Debug, Clone, Copy, PartialEq, Eq, Structural)]
pub enum Mark {
    Reticle,
    ReticleLeft,
    ResizeCursor,
}

impl Cursor {
    /// The angle an edge's arrow lies at.
    pub fn for_edge(edge: Edge) -> (out: Cursor)
        ensures
            out == (Cursor::Resize {
                angle_deg: match edge {
                    Edge::Left | Edge::Right => 0i32,
                    Edge::Bottom => 90,
                    Edge::BottomLeft => 45,
                    Edge::BottomRight => -45i32,
                },
            }),
    {
        Cursor::Resize {
            angle_deg: match edge {
                Edge::Left | Edge::Right => 0,
                Edge::Bottom => 90,
                // Along the diagonal the corner sits on: a bottom-left corner is dragged
                // down-and-left, so its arrow runs from lower-left to upper-right.
                Edge::BottomLeft => 45,
                Edge::BottomRight => -45,
            },
        }
    }

    /// What it is drawn with: a left thumb's reticle has a shape of its own, because two cursors
    /// that differ only in hue are hard to tell apart at the edge of vision.
    pub fn mark(self, aimed_by: Pointing) -> (out: Mark)
        ensures
            out == (match self {
                Cursor::Resize { .. } => Mark::ResizeCursor,
                Cursor::Point => if aimed_by == Pointing::LeftThumb {
                    Mark::ReticleLeft
                } else {
                    Mark::Reticle
                },
            }),
    {
        match self {
            Cursor::Resize { .. } => Mark::ResizeCursor,
            Cursor::Point => if aimed_by == Pointing::LeftThumb {
                Mark::ReticleLeft
            } else {
                Mark::Reticle
            },
        }
    }

    /// How much larger than the reticle it is drawn, in tenths: an arrow has to say which way as
    /// well as where, and a shape the size of the aiming reticle cannot show an angle.
    pub fn scale(self) -> (out: u32)
        ensures
            out == (if self is Point {
                10u32
            } else {
                15u32
            }),
    {
        match self {
            Cursor::Point => 10,
            Cursor::Resize { .. } => 15,
        }
    }
}

/// How a pointer is drawn.
#[derive(Debug, Clone, Copy, PartialEq, Eq)]
pub struct Look {
    /// How far away its reticle is, in billionths of a metre. With nothing under the pointer, it is
    /// parked at a fixed distance so it is still visible: a cursor that vanishes whenever it leaves
    /// a window is impossible to aim.
    pub distance: u64,
    pub mark: Mark,
    /// In tenths of the reticle's own size.
    pub scale: u32,
    /// The reticle's opacity, in thousandths.
    pub opacity: u32,
    /// The opacity of its beam, in thousandths, where it has one.
    pub beam: Option<u32>,
}

/// An opacity of so many thousandths, faded by so many millionths.
pub open spec fn dimmed(opacity: int, fade: int) -> int {
    opacity * fade / 1_000_000
}

/// How a pointer is drawn: fainter where it is over nothing, and its beam fainter than it.
pub fn draw_pointer(hit: Option<u64>, aimed_by: Pointing, cursor: Cursor, fade: u32) -> (out: Look)
    ensures
        out.distance == (match hit {
            Some(distance) => distance,
            None => 2_500_000_000,
        }),
        out.mark == (match cursor {
            Cursor::Resize { .. } => Mark::ResizeCursor,
            Cursor::Point => if aimed_by == Pointing::LeftThumb {
                Mark::ReticleLeft
            } else {
                Mark::Reticle
            },
        }),
        out.scale == (if cursor is Point {
            10u32
        } else {
            15u32
        }),
        out.opacity == dimmed(
            if hit is Some {
                950
            } else {
                500
            },
            fade as int,
        ),
        out.beam == (if aimed_by == Pointing::Mouse {
            None
        } else {
            Some(
                dimmed(
                    if hit is Some {
                        550
                    } else {
                        280
                    },
                    fade as int,
                ) as u32,
            )
        }),
{
    let over: bool = hit.is_some();
    let opacity: u32 = dim(
        if over {
            950
        } else {
            500
        },
        fade,
    );
    let beam: u32 = dim(
        if over {
            550
        } else {
            280
        },
        fade,
    );
    Look {
        distance: match hit {
            Some(distance) => distance,
            None => 2_500_000_000,
        },
        mark: cursor.mark(aimed_by),
        scale: cursor.scale(),
        opacity,
        beam: if aimed_by.has_beam() {
            Some(beam)
        } else {
            None
        },
    }
}

fn dim(opacity: u32, fade: u32) -> (out: u32)
    requires
        opacity <= 1_000,
    ensures
        out == dimmed(opacity as int, fade as int),
{
    assert(0 <= opacity * fade <= 1_000 * 0xffff_ffff) by (nonlinear_arith)
        requires
            0 <= opacity <= 1_000,
            0 <= fade <= 0xffff_ffff,
    ;
    (opacity as u64 * fade as u64 / 1_000_000) as u32
}

/// Something faded is as much fainter as it has faded: not at all where it has not begun to, gone
/// where it is gone, and in proportion between.
pub proof fn fading_is_in_proportion(opacity: int, fade: int)
    requires
        0 <= opacity,
        0 <= fade <= 1_000_000,
    ensures
        dimmed(opacity, 0) == 0,
        dimmed(opacity, 1_000_000) == opacity,
        dimmed(opacity, fade) * 1_000_000 <= opacity * fade < (dimmed(opacity, fade) + 1)
            * 1_000_000,
        0 <= dimmed(opacity, fade) <= opacity,
{
    assert(opacity * 0 == 0);
    assert(opacity * 1_000_000 / 1_000_000 == opacity);
    assert(0 <= opacity * fade <= opacity * 1_000_000) by (nonlinear_arith)
        requires
            0 <= opacity,
            0 <= fade <= 1_000_000,
    ;
}

/// The three pointers are told apart by their colours.
pub proof fn the_pointers_are_told_apart(one: Pointing, other: Pointing)
    requires
        one != other,
    ensures
        one.colour() != other.colour(),
{
    assert(one.colour()[0] != other.colour()[0]);
}

} // verus!
