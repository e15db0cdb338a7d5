//! Which windows are drawn, in what order, and out of what pieces.
//!
//! There is no depth buffer. Everything drawn is a flat quad at a known distance, so sorting back
//! to front is exact and costs nothing.

use vstd::prelude::*;
use crate::pointer::resize::{
    FAR, Placement, PlaneQuad, floor_over, height_of, popup_on, popup_quad, tall_for,
};
use crate::pointer::Frame;
use crate::scene::glyphs::{is_root, root, root_of};
use crate::table::Table;

verus! {

/// A picture already on the GPU, and its width over its height in millionths.
#[derive(Debug, Clone, Copy, PartialEq, Eq, Structural)]
pub struct TitleTexture {
    pub id: u32,
    pub aspect: u32,
}

/// What a window is playing, as far as its title bar is concerned.
#[derive(Debug, Clone, Copy, PartialEq, Eq, Structural)]
pub struct WindowSound {
    pub muted: bool,
    /// Loudest sample in the last block, in millionths, for how brightly the speaker is lit.
    pub peak: u32,
    /// Where the mute button is on the window's plane.
    pub button: PlaneQuad,
}

/// A popup, already imported, placed in its parent window's own pixels.
///
/// Deliberately *not* a quad in its own right. A popup is positioned by the client against the
/// surface it belongs to and has no independent existence in the room — giving it its own
/// placement would mean a menu that could drift away from its window.
#[derive(Debug, Clone, Copy, PartialEq, Eq)]
pub struct PopupQuad {
    pub surface: u32,
    pub texture: u32,
    /// Top-left corner in the parent surface's pixels. May be negative: a menu is allowed to
    /// hang off the edge of the window that opened it, and frequently does.
    pub offset: (i32, i32),
    pub pixels: (u32, u32),
}

/// One window, ready to draw: its imported texture and where it sits.
#[derive(Debug, PartialEq, Eq)]
pub struct WindowQuad {
    /// The window itself, not where it is in any list: raising a window on click reorders the list,
    /// so a place the pointer was holding would then refer to a different window.
    pub window: u32,
    pub surface: u32,
    pub texture: u32,
    /// Surface size in pixels, for the aspect ratio.
    pub pixels: (u32, u32),
    pub placement: Placement,
    pub focused: bool,
    /// Rasterised title, if one has been built for this window.
    pub title: Option<TitleTexture>,
    /// The application's own icon, for the left of the title bar.
    pub icon: Option<TitleTexture>,
    /// True while a pointer is over the close button, which is the only thing that colours it.
    pub close_hot: bool,
    /// What this window's sound is doing, if it has any. A window that has never made a sound has
    /// no speaker on its bar at all.
    pub sound: Option<WindowSound>,
    /// True while a pointer is over the mute button.
    pub mute_hot: bool,
    /// Menus and dropdowns this window has open, innermost last.
    pub popups: Vec<PopupQuad>,
}

/// What a piece of a window is painted with.
#[derive(Debug, Clone, Copy, PartialEq, Eq, Structural)]
pub enum Paint {
    /// The one pane of glass that is the window's frame and its title bar.
    Glass,
    /// A disc, whatever size it is drawn at.
    Disc,
    CloseGlyph,
    SpeakerGlyph,
    SpeakerOffGlyph,
    Texture(u32),
}

/// Red, green, blue and opacity, in thousandths.
#[derive(Debug, Clone, Copy, PartialEq, Eq, Structural)]
pub struct Tint {
    pub red: u16,
    pub green: u16,
    pub blue: u16,
    pub opacity: u16,
}

/// A tint of so many thousandths.
pub open spec fn tint(red: u16, green: u16, blue: u16, opacity: u16) -> Tint {
    Tint { red, green, blue, opacity }
}

/// One quad of a window's picture, on the window's own plane or lifted off it towards the viewer.
#[derive(Debug, Clone, Copy, PartialEq, Eq, Structural)]
pub struct Piece {
    pub window: u32,
    pub paint: Paint,
    pub quad: PlaneQuad,
    pub lift: i128,
    pub tint: Tint,
}

/// How far a popup stands off the window it belongs to, per level of nesting: a millimetre.
///
/// A menu drawn exactly on its window's plane is two coplanar surfaces arguing over every pixel,
/// which reads as the menu flickering whenever the head moves.
pub const POPUP_LIFT: i128 = 1_000_000;

/// Where a new window comes among those already in order: after every one as far away or further.
pub open spec fn place_for(order: Seq<usize>, radii: Seq<i128>, radius: i128) -> nat
    decreases order.len(),
{
    if order.len() == 0 || radii[order[0] as int] < radius {
        0
    } else {
        1 + place_for(order.skip(1), radii, radius)
    }
}

/// The order the first so many windows are drawn in: furthest first.
pub open spec fn order_of(radii: Seq<i128>, count: int) -> Seq<usize>
    decreases count,
{
    if count <= 0 {
        Seq::empty()
    } else {
        let before = order_of(radii, count - 1);
        before.insert(
            place_for(before, radii, radii[count - 1]) as int,
            (count - 1) as usize,
        )
    }
}

/// Whether one window is drawn before another: it is further away, or as far and earlier in the
/// list.
pub open spec fn drawn_before(radii: Seq<i128>, a: usize, b: usize) -> bool {
    radii[a as int] > radii[b as int] || (radii[a as int] == radii[b as int] && a < b)
}

proof fn lemma_place(order: Seq<usize>, radii: Seq<i128>, radius: i128)
    ensures
        place_for(order, radii, radius) <= order.len(),
        forall|i: int|
            0 <= i < place_for(order, radii, radius) ==> radii[(#[trigger] order[i]) as int]
                >= radius,
        place_for(order, radii, radius) < order.len() ==> radii[order[place_for(
            order,
            radii,
            radius,
        ) as int] as int] < radius,
    decreases order.len(),
{
    if order.len() > 0 && radii[order[0] as int] >= radius {
        let rest = order.skip(1);
        lemma_place(rest, radii, radius);
        assert forall|i: int|
            0 <= i < place_for(order, radii, radius) implies radii[(#[trigger] order[i]) as int]
            >= radius by {
            if i > 0 {
                assert(rest[i - 1] == order[i]);
            }
        }
        let p = place_for(rest, radii, radius) as int;
        if p < rest.len() {
            assert(rest[p] == order[p + 1]);
        }
    }
}

/// The order is the windows furthest first, each of them once: for any two, the one further away is
/// drawn first, so the nearest is on top.
pub proof fn windows_are_drawn_back_to_front(radii: Seq<i128>, count: int)
    requires
        0 <= count <= radii.len() <= usize::MAX,
    ensures
        order_of(radii, count).len() == count,
        forall|i: int|
            0 <= i < count ==> (#[trigger] order_of(radii, count)[i]) < count,
        forall|i: int, j: int|
            0 <= i < j < count ==> drawn_before(
                radii,
                #[trigger] order_of(radii, count)[i],
                #[trigger] order_of(radii, count)[j],
            ),
    decreases count,
{
    if count > 0 {
        windows_are_drawn_back_to_front(radii, count - 1);
        let before = order_of(radii, count - 1);
        let radius = radii[count - 1];
        let p = place_for(before, radii, radius) as int;
        let after = order_of(radii, count);
        lemma_place(before, radii, radius);
        assert forall|i: int| 0 <= i < count implies (#[trigger] after[i]) < count by {
            if i < p {
                assert(after[i] == before[i]);
            } else if i > p {
                assert(after[i] == before[i - 1]);
            }
        }
        assert forall|i: int, j: int| 0 <= i < j < count implies drawn_before(
            radii,
            #[trigger] after[i],
            #[trigger] after[j],
        ) by {
            if j < p {
                assert(after[i] == before[i] && after[j] == before[j]);
            } else if j == p {
                assert(after[i] == before[i]);
            } else if i < p {
                assert(after[i] == before[i] && after[j] == before[j - 1]);
            } else if i == p {
                assert(after[j] == before[j - 1]);
                assert(radii[before[p] as int] < radius);
                if p < j - 1 {
                    assert(drawn_before(radii, before[p], before[j - 1]));
                }
            } else {
                assert(after[i] == before[i - 1] && after[j] == before[j - 1]);
            }
        }
    }
}

/// How far away each window is.
pub open spec fn distances(windows: Seq<WindowQuad>) -> Seq<i128> {
    windows.map_values(|w: WindowQuad| w.placement.radius)
}

/// The order windows are drawn in: furthest first, so the nearest is on top.
pub fn draw_order(windows: &[WindowQuad]) -> (out: Vec<usize>)
    ensures
        out@ == order_of(distances(windows@), windows@.len() as int),
        forall|i: int| 0 <= i < out@.len() ==> (#[trigger] out@[i]) < windows@.len(),
{
    let ghost radii = distances(windows@);
    let mut out: Vec<usize> = Vec::new();
    let mut n: usize = 0;
    while n < windows.len()
        invariant
            n <= windows.len(),
            radii == distances(windows@),
            out@ == order_of(radii, n as int),
        decreases windows.len() - n,
    {
        proof {
            windows_are_drawn_back_to_front(radii, n as int);
        }
        let radius: i128 = windows[n].placement.radius;
        let mut p: usize = 0;
        assert(out@.skip(0) =~= out@);
        while p < out.len() && windows[out[p]].placement.radius >= radius
            invariant
                n < windows.len(),
                radii == distances(windows@),
                out@ == order_of(radii, n as int),
                forall|i: int| 0 <= i < out@.len() ==> (#[trigger] out@[i]) < n,
                p <= out.len(),
                radius == radii[n as int],
                place_for(out@, radii, radius) == p + place_for(out@.skip(p as int), radii, radius),
            decreases out.len() - p,
        {
            assert(out@.skip(p as int).skip(1) =~= out@.skip(p + 1));
            assert(out@.skip(p as int)[0] == out@[p as int]);
            p = p + 1;
        }
        proof {
            if p < out.len() {
                assert(out@.skip(p as int)[0] == out@[p as int]);
            }
        }
        out.insert(p, n);
        n = n + 1;
    }
    proof {
        windows_are_drawn_back_to_front(radii, n as int);
    }
    out
}

/// A quad in the title bar, at its left end or its right.
pub open spec fn furniture_on(pixels: (u32, u32), tall: int, from_right: bool) -> PlaneQuad {
    let frame = Frame::around(pixels);
    let out = tall * (8_900 * frame.wide - 726 * frame.tall) / (17_800 * frame.tall);
    PlaneQuad {
        right: (if from_right {
            out
        } else {
            -out
        }) as i128,
        up: (tall * 50 / 89) as i128,
        width: (tall * 363 / 4_450) as i128,
        height: (tall * 363 / 4_450) as i128,
    }
}

/// A quad drawn smaller about its own centre, by so many hundredths.
pub open spec fn shrunk(quad: PlaneQuad, hundredths: int) -> PlaneQuad {
    PlaneQuad {
        right: quad.right,
        up: quad.up,
        width: (quad.width * hundredths / 100) as i128,
        height: (quad.height * hundredths / 100) as i128,
    }
}

/// What is drawn is what is pressed: the furniture's place on the window's plane is its box on the
/// window's quad, whatever the window's shape. Both are fractions of the content's height, and
/// these are the same fractions.
pub proof fn the_furniture_is_drawn_where_it_is_pressed(frame: Frame, from_right: bool)
    requires
        frame.wf(),
    ensures
        ({
            let b = frame.furniture(from_right);
            let whole = 5 * frame.wide + frame.tall;
            let out = 8_900 * frame.wide - 726 * frame.tall;
            // How far from the middle, across: (u - 1/2) of the whole's width.
            &&& (2 * b.u - b.over_u) * whole * (17_800 * frame.tall) == (if from_right {
                out
            } else {
                -out
            }) * (2 * b.over_u * (5 * frame.tall))
            // How large: twice the half of it, of the whole's width and of its height.
            &&& 2 * b.half_u * whole * 4_450 == 363 * (b.over_u * (5 * frame.tall))
            &&& 2 * b.half_v * 589 * 4_450 == 363 * (b.over_v * 445)
            // How far above the content's middle: the whole's middle, and (1/2 - v) of its height.
            &&& (11 * b.over_v * 445 + 89 * (b.over_v - 2 * b.v) * 589) * 89 == 50 * (178 * b.over_v
                * 445)
        }),
{
    let w = frame.wide as int;
    let t = frame.tall as int;
    let whole = 5 * w + t;
    let over = 1_780 * whole;
    let inset = 1_253 * t;
    let out = 8_900 * w - 726 * t;
    assert((over - 2 * inset) * whole * (17_800 * t) == out * (2 * over * (5 * t)))
        by (nonlinear_arith)
        requires
            over == 1_780 * whole,
            inset == 1_253 * t,
            whole == 5 * w + t,
            out == 8_900 * w - 726 * t,
    ;
    assert((2 * inset - over) * whole * (17_800 * t) == -((over - 2 * inset) * whole * (17_800 * t)))
        by (nonlinear_arith);
    assert((-out) * (2 * over * (5 * t)) == -(out * (2 * over * (5 * t)))) by (nonlinear_arith);
    assert(2 * (363 * t) * whole * 4_450 == 363 * (over * (5 * t))) by (nonlinear_arith)
        requires
            over == 1_780 * whole,
    ;
}

/// The pane behind everything: the content and the bar and the frame round them, in one sheet.
pub open spec fn pane(width: int, tall: int) -> PlaneQuad {
    PlaneQuad {
        right: 0,
        up: (tall * 11 / 178) as i128,
        width: (width + tall / 5) as i128,
        height: (tall * 589 / 445) as i128,
    }
}

/// A title, in the middle of the bar.
pub open spec fn title_quad(tall: int, aspect: int) -> PlaneQuad {
    let h = tall * 341 / 4_450;
    PlaneQuad {
        right: 0,
        up: (tall * 50 / 89) as i128,
        width: (h * (if aspect < 10_000 {
            10_000
        } else {
            aspect
        }) / 1_000_000) as i128,
        height: h as i128,
    }
}

/// A piece on the window's own plane.
pub open spec fn flat(window: u32, paint: Paint, quad: PlaneQuad, tint: Tint) -> Piece {
    Piece { window, paint, quad, lift: 0, tint }
}

/// The button marks' tint when nothing is over them.
pub open spec fn at_rest(focused: bool) -> Tint {
    tint(920, 950, 1_000, if focused {
        900
    } else {
        550
    })
}

/// How brightly a speaker is lit by how loud it is.
pub open spec fn lit(peak: u32) -> int {
    let kept = if peak > 1_000_000 {
        1_000_000
    } else {
        peak as int
    };
    160 + 340 * root_of(kept * 1_000_000) / 1_000_000
}

/// The close button's disc: red only under the pointer. A window permanently wearing a red button
/// reads as an error, and there are several of them in the room at once.
pub open spec fn close_tint(focused: bool, hot: bool) -> Tint {
    if hot {
        tint(980, 420, 400, 920)
    } else if focused {
        tint(860, 920, 1_000, 280)
    } else {
        tint(800, 860, 1_000, 150)
    }
}

/// The mute button's disc: plainly off where it is muted, rather than merely dim, and otherwise lit
/// by how loud the window is, so a glance across the room says which one the sound is coming from.
pub open spec fn mute_tint(sound: WindowSound, hot: bool) -> Tint {
    if sound.muted {
        tint(1_000, 550, 450, if hot {
            850
        } else {
            550
        })
    } else if hot {
        tint(860, 940, 1_000, 600)
    } else {
        tint(800, 900, 1_000, lit(sound.peak) as u16)
    }
}

/// The speaker, and only on windows that make a sound.
pub open spec fn sound_pieces(w: WindowQuad) -> Seq<Piece> {
    match w.sound {
        Some(sound) => seq![
            flat(w.window, Paint::Disc, sound.button, mute_tint(sound, w.mute_hot)),
            flat(
                w.window,
                if sound.muted {
                    Paint::SpeakerOffGlyph
                } else {
                    Paint::SpeakerGlyph
                },
                shrunk(sound.button, 46),
                if w.mute_hot || sound.muted {
                    tint(1_000, 1_000, 1_000, 1_000)
                } else {
                    at_rest(w.focused)
                },
            ),
        ],
        None => Seq::empty(),
    }
}

/// A window's title, where it has one.
pub open spec fn title_pieces(w: WindowQuad, tall: int) -> Seq<Piece> {
    match w.title {
        Some(title) => seq![
            flat(
                w.window,
                Paint::Texture(title.id),
                title_quad(tall, title.aspect as int),
                tint(1_000, 1_000, 1_000, if w.focused {
                    1_000
                } else {
                    700
                }),
            ),
        ],
        None => Seq::empty(),
    }
}

/// A window's icon, where it has one: a little inside its box, so that it sits *in* the bar.
pub open spec fn icon_pieces(w: WindowQuad, tall: int) -> Seq<Piece> {
    match w.icon {
        Some(icon) => seq![
            flat(
                w.window,
                Paint::Texture(icon.id),
                shrunk(furniture_on(w.pixels, tall, false), 82),
                tint(1_000, 1_000, 1_000, if w.focused {
                    1_000
                } else {
                    720
                }),
            ),
        ],
        None => Seq::empty(),
    }
}

/// The close button: a disc of brighter glass with a cross on it, rather than a bare glyph.
pub open spec fn close_pieces(w: WindowQuad, tall: int) -> Seq<Piece> {
    let button = furniture_on(w.pixels, tall, true);
    seq![
        flat(w.window, Paint::Disc, button, close_tint(w.focused, w.close_hot)),
        flat(
            w.window,
            Paint::CloseGlyph,
            shrunk(button, 46),
            if w.close_hot {
                tint(1_000, 1_000, 1_000, 1_000)
            } else {
                at_rest(w.focused)
            },
        ),
    ]
}

/// A menu, a step further forward than the one before it.
pub open spec fn popup_piece(w: WindowQuad, depth: int) -> Piece {
    Piece {
        window: w.window,
        paint: Paint::Texture(w.popups@[depth].texture),
        quad: popup_on(
            w.pixels,
            w.placement.width as int,
            w.popups@[depth].offset,
            w.popups@[depth].pixels,
        ),
        lift: (POPUP_LIFT * (depth + 1)) as i128,
        tint: tint(1_000, 1_000, 1_000, 1_000),
    }
}

/// The surface itself, fully opaque: a client's own transparency would otherwise let the
/// environment through, and a half-transparent terminal floating in a room is unreadable.
pub open spec fn surface_piece(w: WindowQuad, tall: int) -> Piece {
    flat(
        w.window,
        Paint::Texture(w.texture),
        PlaneQuad { right: 0, up: 0, width: w.placement.width, height: tall as i128 },
        tint(1_000, 1_000, 1_000, 1_000),
    )
}

/// Everything a window is drawn out of, back to front.
pub open spec fn pieces(w: WindowQuad) -> Seq<Piece> {
    let width = w.placement.width as int;
    let tall = height_of(width, w.pixels);
    seq![
        flat(
            w.window,
            Paint::Glass,
            pane(width, tall),
            if w.focused {
                tint(620, 760, 1_000, 920)
            } else {
                tint(420, 470, 600, 600)
            },
        ),
    ] + title_pieces(w, tall) + icon_pieces(w, tall) + close_pieces(w, tall) + sound_pieces(w)
        + seq![surface_piece(w, tall)] + Seq::new(
        w.popups@.len(),
        |depth: int| popup_piece(w, depth),
    )
}

impl WindowQuad {
    /// No larger than a room, and with a button no larger than one.
    pub open spec fn wf(self) -> bool {
        &&& self.placement.sized()
        &&& self.sound matches Some(sound) ==> 0 <= sound.button.width <= FAR && 0
            <= sound.button.height <= FAR
    }
}

fn white(opacity: u16) -> (out: Tint)
    ensures
        out == tint(1_000, 1_000, 1_000, opacity),
{
    Tint { red: 1_000, green: 1_000, blue: 1_000, opacity }
}

fn resting(focused: bool) -> (out: Tint)
    ensures
        out == at_rest(focused),
{
    Tint {
        red: 920,
        green: 950,
        blue: 1_000,
        opacity: if focused {
            900
        } else {
            550
        },
    }
}

fn furniture(pixels: (u32, u32), tall: i128, from_right: bool) -> (out: PlaneQuad)
    requires
        0 <= tall <= FAR * 0xffff_ffff,
    ensures
        out == furniture_on(pixels, tall as int, from_right),
        0 <= out.width <= FAR * 0xffff_ffff,
        0 <= out.height <= FAR * 0xffff_ffff,
{
    let frame = Frame::of(pixels);
    let wide: i128 = 8_900 * frame.wide as i128 - 726 * frame.tall as i128;
    let over: i128 = 17_800 * frame.tall as i128;
    proof {
        lemma_out(tall as int, wide as int, over as int);
    }
    let out: i128 = floor_over(tall * wide, over);
    PlaneQuad {
        right: if from_right {
            out
        } else {
            -out
        },
        up: tall * 50 / 89,
        width: tall * 363 / 4_450,
        height: tall * 363 / 4_450,
    }
}

proof fn lemma_out(tall: int, wide: int, over: int)
    requires
        0 <= tall <= 1_000_000_000_000 * 0xffff_ffff,
        -726 * 0xffff_ffff <= wide <= 8_900 * 0xffff_ffff,
        0 < over,
    ensures
        -0x1000_0000_0000_0000_0000_0000_0000_0000 < tall * wide
            < 0x1000_0000_0000_0000_0000_0000_0000_0000,
        -0x1000_0000_0000_0000_0000_0000_0000_0000 < tall * wide / over
            < 0x1000_0000_0000_0000_0000_0000_0000_0000,
{
    let n = tall * wide;
    assert(-0x1000_0000_0000_0000_0000_0000_0000_0000 < n
        < 0x1000_0000_0000_0000_0000_0000_0000_0000) by (nonlinear_arith)
        requires
            0 <= tall <= 1_000_000_000_000 * 0xffff_ffff,
            -726 * 0xffff_ffff <= wide <= 8_900 * 0xffff_ffff,
            n == tall * wide,
    ;
    assert(-0x1000_0000_0000_0000_0000_0000_0000_0000 < n / over
        < 0x1000_0000_0000_0000_0000_0000_0000_0000) by (nonlinear_arith)
        requires
            -0x1000_0000_0000_0000_0000_0000_0000_0000 < n
                < 0x1000_0000_0000_0000_0000_0000_0000_0000,
            0 < over,
    ;
}

fn smaller(quad: PlaneQuad, hundredths: i128) -> (out: PlaneQuad)
    requires
        0 <= quad.width <= FAR * 0xffff_ffff,
        0 <= quad.height <= FAR * 0xffff_ffff,
        0 <= hundredths <= 100,
    ensures
        out == shrunk(quad, hundredths as int),
{
    assert(0 <= quad.width * hundredths <= 1_000_000_000_000 * 0xffff_ffff * 100)
        by (nonlinear_arith)
        requires
            0 <= quad.width <= 1_000_000_000_000 * 0xffff_ffff,
            0 <= hundredths <= 100,
    ;
    assert(0 <= quad.height * hundredths <= 1_000_000_000_000 * 0xffff_ffff * 100)
        by (nonlinear_arith)
        requires
            0 <= quad.height <= 1_000_000_000_000 * 0xffff_ffff,
            0 <= hundredths <= 100,
    ;
    PlaneQuad {
        right: quad.right,
        up: quad.up,
        width: quad.width * hundredths / 100,
        height: quad.height * hundredths / 100,
    }
}

fn lay(out: &mut Vec<Piece>, window: u32, paint: Paint, quad: PlaneQuad, tint: Tint)
    ensures
        final(out)@ == old(out)@.push(flat(window, paint, quad, tint)),
{
    out.push(Piece { window, paint, quad, lift: 0, tint });
}

fn draw_title(out: &mut Vec<Piece>, w: &WindowQuad, tall: i128)
    requires
        0 <= tall <= FAR * 0xffff_ffff,
    ensures
        final(out)@ == old(out)@ + title_pieces(*w, tall as int),
{
    let ghost was = out@;
    if let Some(title) = w.title {
        let h: i128 = tall * 341 / 4_450;
        let share: i128 = if title.aspect < 10_000 {
            10_000
        } else {
            title.aspect as i128
        };
        assert(0 <= h * share <= 1_000_000_000_000 * 0xffff_ffff * 0xffff_ffff)
            by (nonlinear_arith)
            requires
                0 <= h <= 1_000_000_000_000 * 0xffff_ffff,
                0 <= share <= 0xffff_ffff,
        ;
        let quad = PlaneQuad {
            right: 0,
            up: tall * 50 / 89,
            width: h * share / 1_000_000,
            height: h,
        };
        let opacity: u16 = if w.focused {
            1_000
        } else {
            700
        };
        lay(out, w.window, Paint::Texture(title.id), quad, white(opacity));
    }
    assert(out@ =~= was + title_pieces(*w, tall as int));
}

fn draw_icon(out: &mut Vec<Piece>, w: &WindowQuad, tall: i128)
    requires
        0 <= tall <= FAR * 0xffff_ffff,
    ensures
        final(out)@ == old(out)@ + icon_pieces(*w, tall as int),
{
    let ghost was = out@;
    if let Some(icon) = w.icon {
        let opacity: u16 = if w.focused {
            1_000
        } else {
            720
        };
        let quad = smaller(furniture(w.pixels, tall, false), 82);
        lay(out, w.window, Paint::Texture(icon.id), quad, white(opacity));
    }
    assert(out@ =~= was + icon_pieces(*w, tall as int));
}

fn draw_close(out: &mut Vec<Piece>, w: &WindowQuad, tall: i128)
    requires
        0 <= tall <= FAR * 0xffff_ffff,
    ensures
        final(out)@ == old(out)@ + close_pieces(*w, tall as int),
{
    let ghost was = out@;
    let button = furniture(w.pixels, tall, true);
    let disc = if w.close_hot {
        Tint { red: 980, green: 420, blue: 400, opacity: 920 }
    } else if w.focused {
        Tint { red: 860, green: 920, blue: 1_000, opacity: 280 }
    } else {
        Tint { red: 800, green: 860, blue: 1_000, opacity: 150 }
    };
    lay(out, w.window, Paint::Disc, button, disc);
    let cross = if w.close_hot {
        white(1_000)
    } else {
        resting(w.focused)
    };
    lay(out, w.window, Paint::CloseGlyph, smaller(button, 46), cross);
    assert(out@ =~= was + close_pieces(*w, tall as int));
}

fn lit_by(peak: u32) -> (out: u16)
    ensures
        out == lit(peak),
        160 <= out <= 500,
{
    let kept: u32 = if peak > 1_000_000 {
        1_000_000
    } else {
        peak
    };
    let live: u128 = root(kept as u128 * 1_000_000);
    assert(live <= 1_000_000) by (nonlinear_arith)
        requires
            is_root(live as int, kept * 1_000_000),
            kept <= 1_000_000,
    ;
    (160 + 340 * live / 1_000_000) as u16
}

fn draw_sound(out: &mut Vec<Piece>, w: &WindowQuad)
    requires
        w.wf(),
    ensures
        final(out)@ == old(out)@ + sound_pieces(*w),
{
    let ghost was = out@;
    if let Some(sound) = w.sound {
        let disc = if sound.muted {
            let opacity: u16 = if w.mute_hot {
                850
            } else {
                550
            };
            Tint { red: 1_000, green: 550, blue: 450, opacity }
        } else if w.mute_hot {
            Tint { red: 860, green: 940, blue: 1_000, opacity: 600 }
        } else {
            Tint { red: 800, green: 900, blue: 1_000, opacity: lit_by(sound.peak) }
        };
        lay(out, w.window, Paint::Disc, sound.button, disc);
        let paint = if sound.muted {
            Paint::SpeakerOffGlyph
        } else {
            Paint::SpeakerGlyph
        };
        let mark = if w.mute_hot || sound.muted {
            white(1_000)
        } else {
            resting(w.focused)
        };
        lay(out, w.window, paint, smaller(sound.button, 46), mark);
    }
    assert(out@ =~= was + sound_pieces(*w));
}

fn draw_popups(out: &mut Vec<Piece>, w: &WindowQuad)
    requires
        w.wf(),
    ensures
        final(out)@ == old(out)@ + Seq::new(
            w.popups@.len(),
            |depth: int| popup_piece(*w, depth),
        ),
{
    let ghost was = out@;
    let mut depth: usize = 0;
    assert(was =~= was + Seq::new(0, |depth: int| popup_piece(*w, depth)));
    while depth < w.popups.len()
        invariant
            w.wf(),
            depth <= w.popups.len(),
            out@ == was + Seq::new(depth as nat, |depth: int| popup_piece(*w, depth)),
        decreases w.popups.len() - depth,
    {
        let popup = w.popups[depth];
        let quad = popup_quad(w.pixels, &w.placement, popup.offset, popup.pixels);
        out.push(
            Piece {
                window: w.window,
                paint: Paint::Texture(popup.texture),
                quad,
                lift: POPUP_LIFT * (depth as i128 + 1),
                tint: white(1_000),
            },
        );
        assert(out@ =~= was + Seq::new(
            (depth + 1) as nat,
            |depth: int| popup_piece(*w, depth),
        ));
        depth = depth + 1;
    }
}

/// Everything one window is drawn out of, back to front.
pub fn draw_window(w: &WindowQuad) -> (out: Vec<Piece>)
    requires
        w.wf(),
    ensures
        out@ == pieces(*w),
{
    let width: i128 = w.placement.width;
    let tall: i128 = tall_for(width, w.pixels);
    let mut out: Vec<Piece> = Vec::new();
    // Frame and title bar are ONE pane of glass behind everything, not a border with a bar resting
    // on it: two rectangles with different fills read as two objects stuck together.
    let sheet = PlaneQuad {
        right: 0,
        up: tall * 11 / 178,
        width: width + tall / 5,
        height: tall * 589 / 445,
    };
    let glass = if w.focused {
        Tint { red: 620, green: 760, blue: 1_000, opacity: 920 }
    } else {
        Tint { red: 420, green: 470, blue: 600, opacity: 600 }
    };
    lay(&mut out, w.window, Paint::Glass, sheet, glass);
    let ghost first = out@;
    draw_title(&mut out, w, tall);
    draw_icon(&mut out, w, tall);
    draw_close(&mut out, w, tall);
    draw_sound(&mut out, w);
    let ghost chrome = out@;
    lay(
        &mut out,
        w.window,
        Paint::Texture(w.texture),
        PlaneQuad { right: 0, up: 0, width, height: tall },
        white(1_000),
    );
    assert(out@ =~= chrome + seq![surface_piece(*w, tall as int)]);
    draw_popups(&mut out, w);
    assert(first =~= seq![
        flat(
            w.window,
            Paint::Glass,
            pane(width as int, tall as int),
            if w.focused {
                tint(620, 760, 1_000, 920)
            } else {
                tint(420, 470, 600, 600)
            },
        ),
    ]);
    out
}

/// What windows are drawn out of, in an order.
pub open spec fn pieces_in(windows: Seq<WindowQuad>, order: Seq<usize>) -> Seq<Piece>
    decreases order.len(),
{
    if order.len() == 0 {
        Seq::empty()
    } else {
        pieces_in(windows, order.drop_last()) + pieces(windows[order.last() as int])
    }
}

/// Everything the windows are drawn out of, back to front.
pub fn draw_windows(windows: &[WindowQuad]) -> (out: Vec<Piece>)
    requires
        forall|i: int| 0 <= i < windows@.len() ==> (#[trigger] windows@[i]).wf(),
    ensures
        out@ == pieces_in(windows@, order_of(distances(windows@), windows@.len() as int)),
{
    let order = draw_order(windows);
    let mut out: Vec<Piece> = Vec::new();
    let mut i: usize = 0;
    while i < order.len()
        invariant
            i <= order.len(),
            forall|i: int| 0 <= i < windows@.len() ==> (#[trigger] windows@[i]).wf(),
            forall|i: int| 0 <= i < order@.len() ==> (#[trigger] order@[i]) < windows@.len(),
            out@ == pieces_in(windows@, order@.take(i as int)),
        decreases order.len() - i,
    {
        assert(order@.take(i + 1).drop_last() =~= order@.take(i as int));
        let mut more = draw_window(&windows[order[i]]);
        out.append(&mut more);
        i = i + 1;
    }
    assert(order@.take(i as int) =~= order@);
    out
}

/// What came of importing a surface's buffer.
#[derive(Debug, Clone, Copy, PartialEq, Eq, Structural)]
pub enum Import {
    /// It could not be.
    Failed,
    /// Nothing has been committed to it yet.
    Nothing,
    /// A texture, so wide and so tall.
    Ready(u32, u32, u32),
}

/// A menu that may be drawn.
#[derive(Debug, Clone, Copy, PartialEq, Eq)]
pub struct PopupCandidate {
    pub surface: u32,
    pub offset: (i32, i32),
    pub import: Import,
}

/// A mapped window that may be drawn.
#[derive(Debug, Clone, PartialEq, Eq)]
pub struct Candidate {
    pub window: u32,
    /// Whichever protocol the window speaks it has one of these, though an X11 window's may not
    /// have been associated yet.
    pub surface: Option<u32>,
    pub import: Import,
    pub placement: Option<Placement>,
    pub focused: bool,
    pub popups: Vec<PopupCandidate>,
}

/// Something worth saying about a window, the first time.
#[derive(Debug, Clone, Copy, PartialEq, Eq, Structural)]
pub enum Remark {
    /// It has a surface but nothing to draw from it.
    NotImported,
    /// It has a surface but has committed nothing to draw yet.
    NothingYet,
    /// It has no place in the room, so it is not drawn.
    Nowhere,
    /// What it actually committed, which need not be what it was offered.
    Measures(u32, u32),
}

/// A window ready to draw, as the list it is in.
pub struct QuadView {
    pub window: u32,
    pub surface: u32,
    pub texture: u32,
    pub pixels: (u32, u32),
    pub placement: Placement,
    pub focused: bool,
    pub popups: Seq<PopupQuad>,
}

/// A window as it was collected: with nothing yet of what the picture adds to it.
pub open spec fn collected(w: WindowQuad) -> bool {
    w.title is None && w.icon is None && !w.close_hot && w.sound is None && !w.mute_hot
}

impl View for WindowQuad {
    type V = QuadView;

    open spec fn view(&self) -> QuadView {
        QuadView {
            window: self.window,
            surface: self.surface,
            texture: self.texture,
            pixels: self.pixels,
            placement: self.placement,
            focused: self.focused,
            popups: self.popups@,
        }
    }
}

/// The menus that are drawn: those whose buffers were imported, in the order the client stacked
/// them.
pub open spec fn shown_popups(popups: Seq<PopupCandidate>) -> Seq<PopupQuad>
    decreases popups.len(),
{
    if popups.len() == 0 {
        Seq::empty()
    } else {
        let before = shown_popups(popups.drop_last());
        let p = popups.last();
        match p.import {
            Import::Ready(texture, w, h) => before.push(
                PopupQuad { surface: p.surface, texture, offset: p.offset, pixels: (w, h) },
            ),
            _ => before,
        }
    }
}

impl Candidate {
    /// The quad it is drawn as, where it is: a window that has not committed a buffer yet is simply
    /// absent from the list rather than drawn as a black rectangle.
    pub open spec fn quad(self) -> Option<QuadView> {
        match (self.surface, self.import, self.placement) {
            (Some(surface), Import::Ready(texture, w, h), Some(placement)) => Some(
                QuadView {
                    window: self.window,
                    surface,
                    texture,
                    pixels: (w, h),
                    placement,
                    focused: self.focused,
                    popups: shown_popups(self.popups@),
                },
            ),
            _ => None,
        }
    }

    /// Why it is not drawn, where there is a reason worth saying: a window that never draws is one
    /// of the hardest things to diagnose from the outside.
    pub open spec fn fault(self) -> Option<Remark> {
        match (self.import, self.placement) {
            (Import::Failed, _) => Some(Remark::NotImported),
            (Import::Nothing, _) => Some(Remark::NothingYet),
            (_, None) => Some(Remark::Nowhere),
            _ => None,
        }
    }
}

/// What has been said so far.
pub struct Said {
    /// The surfaces whose failure to draw has been mentioned.
    pub told: Set<u32>,
    /// The size each surface was last seen at.
    pub sizes: Map<u32, (u32, u32)>,
}

impl Said {
    /// What is said of a window, and what has been said then. Once for each surface, because the
    /// alternative is seventy-two identical lines a second and a log nobody can read.
    pub open spec fn of(self, c: Candidate) -> (Said, Option<Remark>) {
        match c.surface {
            None => (self, None),
            Some(surface) => match c.fault() {
                Some(fault) => (
                    Said { told: self.told.insert(surface), ..self },
                    if self.told.contains(surface) {
                        None
                    } else {
                        Some(fault)
                    },
                ),
                None => {
                    let size = (c.import->Ready_1, c.import->Ready_2);
                    (
                        Said { sizes: self.sizes.insert(surface, size), ..self },
                        if self.sizes.contains_key(surface) && self.sizes[surface] == size {
                            None
                        } else {
                            Some(Remark::Measures(size.0, size.1))
                        },
                    )
                },
            },
        }
    }

    /// What is said of a list of windows.
    pub open spec fn over(self, list: Seq<Candidate>) -> (Said, Seq<(u32, Remark)>)
        decreases list.len(),
    {
        if list.len() == 0 {
            (self, Seq::empty())
        } else {
            let (before, remarks) = self.over(list.drop_last());
            let (after, remark) = before.of(list.last());
            (
                after,
                match remark {
                    Some(remark) => remarks.push((list.last().window, remark)),
                    None => remarks,
                },
            )
        }
    }
}

/// The quads of a list of windows: those that can be drawn, in order.
pub open spec fn quads_of(list: Seq<Candidate>) -> Seq<QuadView>
    decreases list.len(),
{
    if list.len() == 0 {
        Seq::empty()
    } else {
        let before = quads_of(list.drop_last());
        match list.last().quad() {
            Some(quad) => before.push(quad),
            None => before,
        }
    }
}

/// A list of quads, each as what it is.
pub open spec fn quad_views(v: Seq<WindowQuad>) -> Seq<QuadView> {
    v.map_values(|w: WindowQuad| w@)
}

/// What has been said about windows, kept for the log and nothing else.
#[derive(Debug)]
pub struct Notes {
    pub told: Table<bool>,
    pub sizes: Table<(u32, u32)>,
}

impl Notes {
    pub open spec fn wf(self) -> bool {
        self.told.wf() && self.sizes.wf()
    }

    pub open spec fn view(self) -> Said {
        Said { told: self.told.map().dom(), sizes: self.sizes.map() }
    }

    pub fn new() -> (out: Notes)
        ensures
            out.wf(),
            out@ == (Said { told: Set::empty(), sizes: Map::empty() }),
    {
        let out = Notes { told: Table::new(), sizes: Table::new() };
        assert(out.told.map().dom() =~= Set::empty());
        out
    }

    /// Say whether this surface's failure to draw is worth mentioning yet.
    pub fn note_import_failure(&mut self, surface: u32) -> (out: bool)
        requires
            old(self).wf(),
        ensures
            final(self).wf(),
            out == !old(self)@.told.contains(surface),
            final(self)@.told == old(self)@.told.insert(surface),
            final(self)@.sizes == old(self)@.sizes,
    {
        let fresh: bool = !self.told.contains(surface);
        let ghost was = self.told.map();
        self.told.insert(surface, true);
        assert(self.told.map().dom() =~= was.dom().insert(surface));
        fresh
    }

    /// Remember a window's surface size, and say whether it has just changed.
    pub fn note_surface_size(&mut self, surface: u32, pixels: (u32, u32)) -> (out: bool)
        requires
            old(self).wf(),
        ensures
            final(self).wf(),
            out == !(old(self)@.sizes.contains_key(surface) && old(self)@.sizes[surface] == pixels),
            final(self)@.sizes == old(self)@.sizes.insert(surface, pixels),
            final(self)@.told == old(self)@.told,
    {
        let same: bool = match self.sizes.get(surface) {
            Some(was) => was.0 == pixels.0 && was.1 == pixels.1,
            None => false,
        };
        self.sizes.insert(surface, pixels);
        !same
    }
}

fn collect_popups(list: &Vec<PopupCandidate>) -> (out: Vec<PopupQuad>)
    ensures
        out@ == shown_popups(list@),
{
    let mut out: Vec<PopupQuad> = Vec::new();
    let mut i: usize = 0;
    while i < list.len()
        invariant
            i <= list.len(),
            out@ == shown_popups(list@.take(i as int)),
        decreases list.len() - i,
    {
        assert(list@.take(i + 1).drop_last() =~= list@.take(i as int));
        let p = list[i];
        if let Import::Ready(texture, w, h) = p.import {
            out.push(PopupQuad { surface: p.surface, texture, offset: p.offset, pixels: (w, h) });
        }
        i = i + 1;
    }
    assert(list@.take(i as int) =~= list@);
    out
}

/// Collect what is needed to draw every mapped window, and what is worth saying about them.
pub fn collect_windows(list: &[Candidate], notes: &mut Notes) -> (out: (
    Vec<WindowQuad>,
    Vec<(u32, Remark)>,
))
    requires
        old(notes).wf(),
    ensures
        final(notes).wf(),
        quad_views(out.0@) == quads_of(list@),
        forall|i: int| 0 <= i < out.0@.len() ==> collected(#[trigger] out.0@[i]),
        (final(notes)@, out.1@) == old(notes)@.over(list@),
{
    let ghost first = notes@;
    let mut quads: Vec<WindowQuad> = Vec::new();
    let mut remarks: Vec<(u32, Remark)> = Vec::new();
    let mut i: usize = 0;
    assert(quad_views(quads@) =~= quads_of(list@.take(0)));
    while i < list.len()
        invariant
            i <= list.len(),
            notes.wf(),
            quad_views(quads@) == quads_of(list@.take(i as int)),
            forall|i: int| 0 <= i < quads@.len() ==> collected(#[trigger] quads@[i]),
            (notes@, remarks@) == first.over(list@.take(i as int)),
        decreases list.len() - i,
    {
        assert(list@.take(i + 1).drop_last() =~= list@.take(i as int));
        let c = &list[i];
        let ghost before = quads@;
        if let Some(surface) = c.surface {
            match (c.import, c.placement) {
                (Import::Ready(texture, w, h), Some(placement)) => {
                    if notes.note_surface_size(surface, (w, h)) {
                        remarks.push((c.window, Remark::Measures(w, h)));
                    }
                    quads.push(
                        WindowQuad {
                            window: c.window,
                            surface,
                            texture,
                            pixels: (w, h),
                            placement,
                            focused: c.focused,
                            title: None,
                            icon: None,
                            close_hot: false,
                            sound: None,
                            mute_hot: false,
                            popups: collect_popups(&c.popups),
                        },
                    );
                    assert(quad_views(quads@) =~= quad_views(before).push(quads@.last()@));
                },
                (import, _) => {
                    let fault = match import {
                        Import::Failed => Remark::NotImported,
                        Import::Nothing => Remark::NothingYet,
                        Import::Ready(_, _, _) => Remark::Nowhere,
                    };
                    if notes.note_import_failure(surface) {
                        remarks.push((c.window, fault));
                    }
                },
            }
        }
        i = i + 1;
    }
    assert(list@.take(i as int) =~= list@);
    (quads, remarks)
}

/// A quad drawn smaller is drawn about its own centre, in proportion both ways.
pub proof fn a_smaller_quad_keeps_its_centre(quad: PlaneQuad, hundredths: int)
    requires
        0 <= quad.width <= FAR,
        0 <= quad.height <= FAR,
        0 <= hundredths <= 100,
    ensures
        ({
            let out = shrunk(quad, hundredths);
            &&& out.right == quad.right && out.up == quad.up
            &&& out.width * 100 <= quad.width * hundredths < (out.width + 1) * 100
            &&& out.height * 100 <= quad.height * hundredths < (out.height + 1) * 100
            &&& out.width <= quad.width && out.height <= quad.height
        }),
{
    let (w, h) = (quad.width as int, quad.height as int);
    assert(0 <= w * hundredths <= w * 100 && 0 <= h * hundredths <= h * 100) by (nonlinear_arith)
        requires
            0 <= w,
            0 <= h,
            0 <= hundredths <= 100,
    ;
}

/// The furniture stands in the middle of the bar, which is the eleven hundredths above the content:
/// as far up as half the content and half the bar, and two thirds of the bar tall, near enough. The
/// title is there too, in the middle across, and keeps the shape of its text.
pub proof fn the_bar_is_furnished(pixels: (u32, u32), tall: int, aspect: int, from_right: bool)
    requires
        0 <= tall <= 0x10_0000_0000_0000_0000_0000,
        10_000 <= aspect <= 0xffff_ffff,
    ensures
        ({
            let quad = furniture_on(pixels, tall, from_right);
            let title = title_quad(tall, aspect);
            &&& title.right == 0
            &&& title.up == quad.up
            // In hundred-and-seventy-eighths: half the content is 89 of them and half the bar 11.
            &&& quad.up * 178 <= tall * 100 < (quad.up + 1) * 178
            &&& quad.width == quad.height
            &&& quad.height * 8_900 <= tall * 11 * 66 < (quad.height + 1) * 8_900
            &&& title.height * 8_900 <= tall * 11 * 62 < (title.height + 1) * 8_900
            &&& title.width * 1_000_000 <= title.height * aspect < (title.width + 1) * 1_000_000
        }),
{
    let h = tall * 341 / 4_450;
    assert(0 <= h * aspect <= 0x10_0000_0000_0000_0000_0000 * 0xffff_ffff) by (nonlinear_arith)
        requires
            0 <= h <= 0x10_0000_0000_0000_0000_0000,
            0 <= aspect <= 0xffff_ffff,
    ;
}

/// The icon stands as far left of the middle as the close button right of it.
pub proof fn the_furniture_stands_at_both_ends(pixels: (u32, u32), tall: int)
    requires
        0 <= tall <= 100 * FAR,
    ensures
        ({
            let frame = Frame::around(pixels);
            let icon = furniture_on(pixels, tall, false);
            let close = furniture_on(pixels, tall, true);
            &&& icon.right == -close.right
            &&& icon.up == close.up && icon.width == close.width && icon.height == close.height
            &&& close.right * (17_800 * frame.tall) <= tall * (8_900 * frame.wide - 726 * frame.tall)
                < (close.right + 1) * (17_800 * frame.tall)
        }),
{
    let frame = Frame::around(pixels);
    let n = 8_900 * frame.wide - 726 * frame.tall;
    let d = 17_800 * frame.tall as int;
    let m = tall * n;
    assert(-100_000_000_000_000 * 0x4000_0000_0000 <= m <= 100_000_000_000_000 * 0x4000_0000_0000)
        by (nonlinear_arith)
        requires
            m == tall * n,
            0 <= tall <= 100_000_000_000_000,
            -0x4000_0000_0000 <= n <= 0x4000_0000_0000,
    ;
    let q = m / d;
    assert(q * d <= m < (q + 1) * d) by (nonlinear_arith)
        requires
            q == m / d,
            d > 0,
    ;
    let most = 100_000_000_000_000 * 0x4000_0000_0000;
    assert(-most <= q <= most) by (nonlinear_arith)
        requires
            q == m / d,
            d > 0,
            -most <= m <= most,
            most > 0,
    ;
}

/// A window is drawn from the back: the glass behind everything, then what is in the bar, then the
/// surface over it, whole and exactly as large as its content, and last its menus in the order they
/// were stacked, each a step nearer than the one before it.
pub proof fn a_window_is_drawn_from_the_back(w: WindowQuad, depth: int)
    requires
        w.wf(),
        w.popups@.len() <= 0x1_0000_0000,
    ensures
        ({
            let all = pieces(w);
            let tall = height_of(w.placement.width as int, w.pixels);
            let menus = w.popups@.len();
            let at = all.len() - menus - 1;
            let bar = 1 + (if w.title is Some {
                1int
            } else {
                0
            }) + (if w.icon is Some {
                1int
            } else {
                0
            }) + 2 + (if w.sound is Some {
                2int
            } else {
                0
            });
            &&& at == bar
            &&& all[0].paint == Paint::Glass
            &&& all[at].paint == Paint::Texture(w.texture)
            &&& all[at].quad == (PlaneQuad {
                right: 0,
                up: 0,
                width: w.placement.width,
                height: tall as i128,
            })
            &&& all[at].lift == 0
            &&& all[at].tint.opacity == 1_000
            &&& 0 <= depth < menus ==> {
                let piece = all[at + 1 + depth];
                &&& piece.paint == Paint::Texture(w.popups@[depth].texture)
                &&& piece.lift == 1_000_000 * (depth + 1)
                &&& piece.quad == popup_on(
                    w.pixels,
                    w.placement.width as int,
                    w.popups@[depth].offset,
                    w.popups@[depth].pixels,
                )
            }
        }),
{
}

/// The close button is lit under the pointer and nowhere else, and a silenced speaker never looks
/// like one that is not; a louder window is never the dimmer, and its light keeps between its least
/// and its most.
pub proof fn a_button_looks_as_it_is(
    focused: bool,
    sound: WindowSound,
    hot: bool,
    peak: u32,
    louder: u32,
)
    requires
        peak <= louder,
    ensures
        close_tint(focused, true) != close_tint(focused, false),
        close_tint(true, false).opacity > close_tint(false, false).opacity,
        mute_tint(WindowSound { muted: true, ..sound }, hot) != mute_tint(
            WindowSound { muted: false, ..sound },
            hot,
        ),
        160 <= lit(peak) <= lit(louder) <= 500,
        lit(0) == 160,
        lit(1_000_000) == 500,
{
    let (a, b) = (
        if peak > 1_000_000 {
            1_000_000
        } else {
            peak as int
        },
        if louder > 1_000_000 {
            1_000_000
        } else {
            louder as int
        },
    );
    let (m, n) = (a * 1_000_000, b * 1_000_000);
    crate::scene::glyphs::a_root_is_a_root(m);
    crate::scene::glyphs::a_root_is_a_root(n);
    crate::scene::glyphs::a_root_is_a_root(0);
    crate::scene::glyphs::a_root_is_a_root(1_000_000_000_000);
    let (p, q) = (root_of(m), root_of(n));
    assert(p <= q) by (nonlinear_arith)
        requires
            0 <= p,
            0 <= q,
            p * p <= m,
            n < (q + 1) * (q + 1),
            m <= n,
    ;
    assert(q <= 1_000_000) by (nonlinear_arith)
        requires
            0 <= q,
            q * q <= 1_000_000_000_000,
    ;
    let z = root_of(0);
    assert(z == 0) by (nonlinear_arith)
        requires
            0 <= z,
            z * z <= 0,
    ;
    let t = root_of(1_000_000_000_000);
    assert(t == 1_000_000) by (nonlinear_arith)
        requires
            0 <= t,
            t * t <= 1_000_000_000_000,
            1_000_000_000_000 < (t + 1) * (t + 1),
    ;
}

/// The windows are drawn one after another, each whole, in the order they are given.
pub proof fn each_window_is_drawn_whole(windows: Seq<WindowQuad>, order: Seq<usize>, next: usize)
    requires
        next < windows.len(),
    ensures
        pieces_in(windows, order.push(next)) == pieces_in(windows, order) + pieces(
            windows[next as int],
        ),
        pieces_in(windows, Seq::empty()).len() == 0,
{
    assert(order.push(next).drop_last() =~= order);
}

/// A window is drawn where it has a surface, a buffer that was imported and somewhere to stand, with
/// exactly those; one that lacks any of them is not. What is wrong with it is what is worth
/// mending first.
pub proof fn a_window_is_drawn_once_it_has_everything(c: Candidate)
    ensures
        c.quad() is Some <==> c.surface is Some && c.import is Ready && c.placement is Some,
        c.quad() matches Some(quad) ==> {
            &&& quad.window == c.window
            &&& Some(quad.surface) == c.surface
            &&& c.import == Import::Ready(quad.texture, quad.pixels.0, quad.pixels.1)
            &&& Some(quad.placement) == c.placement
            &&& quad.focused == c.focused
            &&& quad.popups == shown_popups(c.popups@)
        },
        c.fault() is None <==> c.import is Ready && c.placement is Some,
        c.import is Failed ==> c.fault() == Some(Remark::NotImported),
        c.import is Nothing ==> c.fault() == Some(Remark::NothingYet),
        c.import is Ready && c.placement is None ==> c.fault() == Some(Remark::Nowhere),
{
}

/// Every window that can be drawn is, in order, and no other; and so is every menu whose buffer was
/// imported.
pub proof fn every_window_that_can_be_is_drawn(
    list: Seq<Candidate>,
    next: Candidate,
    popups: Seq<PopupCandidate>,
    menu: PopupCandidate,
)
    ensures
        next.quad() matches Some(quad) ==> quads_of(list.push(next)) == quads_of(list).push(quad),
        next.quad() is None ==> quads_of(list.push(next)) == quads_of(list),
        quads_of(Seq::empty()).len() == 0,
        !(menu.import is Ready) ==> shown_popups(popups.push(menu)) == shown_popups(popups),
        menu.import matches Import::Ready(texture, w, h) ==> shown_popups(popups.push(menu))
            == shown_popups(popups).push(
            PopupQuad { surface: menu.surface, texture, offset: menu.offset, pixels: (w, h) },
        ),
        shown_popups(Seq::empty()).len() == 0,
{
    assert(list.push(next).drop_last() =~= list);
    assert(popups.push(menu).drop_last() =~= popups);
}

/// A thing is said once: what has been said of a surface is not said again while nothing about it
/// has changed, and a window with no surface has nothing said of it. A new size is news.
pub proof fn nothing_is_said_twice(said: Said, c: Candidate)
    ensures
        said.of(c).0.of(c).1 is None,
        c.surface is None ==> said.of(c) == (said, None::<Remark>),
        (c.surface matches Some(surface) && c.fault() is Some && !said.told.contains(surface))
            ==> said.of(c).1 == c.fault(),
        (c.surface matches Some(surface) && c.fault() is Some && said.told.contains(surface))
            ==> said.of(c).1 is None,
        (c.surface matches Some(surface) && (c.import matches Import::Ready(_, w, h)
            && c.placement is Some && said.sizes.contains_key(surface) && said.sizes[surface] != (
        w,
        h,
    ))) ==> said.of(c).1 == Some(Remark::Measures(c.import->Ready_1, c.import->Ready_2)),
{
}

/// The pane goes round the content as the frame does: a tenth of its height beyond it on both sides
/// and below, and above it another and the bar; and it is brighter round the window in front.
pub proof fn the_pane_goes_round_the_content(width: int, tall: int)
    requires
        0 <= width <= FAR,
        0 <= tall <= 100 * FAR,
    ensures
        ({
            let out = pane(width, tall);
            &&& out.right == 0
            &&& 5 * (out.width - width) <= tall < 5 * (out.width - width + 1)
            &&& out.height * 445 <= tall * 589 < (out.height + 1) * 445
            &&& out.up * 178 <= tall * 11 < (out.up + 1) * 178
        }),
{
}

/// A window in front is never drawn fainter than it would be behind: its glass, its title and its
/// icon are all brighter there.
pub proof fn the_window_in_front_is_brighter(w: WindowQuad, behind: WindowQuad, tall: int)
    requires
        w.focused,
        behind == (WindowQuad { focused: false, ..w }),
    ensures
        pieces(w)[0].tint.opacity > pieces(behind)[0].tint.opacity,
        w.title is Some ==> title_pieces(w, tall)[0].tint.opacity > title_pieces(
            behind,
            tall,
        )[0].tint.opacity,
        w.icon is Some ==> icon_pieces(w, tall)[0].tint.opacity > icon_pieces(
            behind,
            tall,
        )[0].tint.opacity,
        at_rest(true).opacity > at_rest(false).opacity,
{
}

} // verus!
