//! A menu, from where it opens to how it leaves.
//!
//! Menus are *body-locked*: placed in front of you when they open, then left in the world so you
//! can look around them. Head-locking a list you are trying to read makes it impossible to look at
//! anything else; world-locking it from a fixed origin means opening it while facing away puts it
//! behind you.

use vstd::prelude::*;
use crate::scene::windows::{Tint, TitleTexture, tint};
use crate::system::floor_div;

verus! {

/// What the shell is showing.
#[derive(Debug, Clone, Copy, PartialEq, Eq, Structural)]
pub enum Mode {
    World,
    Hud,
    Environment,
    Files,
    Launcher,
}

/// How long bubbles take to arrive, and to leave, in nanoseconds.
///
/// Short. This is a menu someone opens dozens of times a session, and anything that reads as
/// "an animation" rather than as "the thing appearing" becomes an obstacle by the tenth time.
pub const APPEAR: u64 = 280_000_000;

pub const DISMISS: u64 = 160_000_000;

/// Delay between one bubble arriving and the next.
///
/// The stagger is what makes it read as a group of objects rather than one fading rectangle.
/// Small enough that the whole grid is still settled well inside half a second.
pub const STAGGER: u64 = 22_000_000;

/// All of something, in millionths.
pub const ALL: i128 = 1_000_000;

/// A share kept between nothing and all.
pub open spec fn share(n: int) -> int {
    if n < 0 {
        0
    } else if n > ALL {
        ALL as int
    } else {
        n
    }
}

/// A share eased at both ends, and free of overshoot: a bubble that springs past its size and
/// settles back looks lively on a monitor and reads as wobbling in stereo, where the eyes are
/// tracking its actual distance.
pub open spec fn eased(t: int) -> int {
    let t = share(t);
    t * t * (3 * ALL - 2 * t) / (ALL * ALL)
}

/// Where a menu is pinned, and how it is coming or going.
#[derive(Debug, Clone, Copy, PartialEq, Eq)]
pub struct Anchor {
    /// The direction the open menu is pinned to, in billionths of a radian.
    pub yaw: i64,
    pub anchored_for: Option<Mode>,
    /// When the current menu opened, for the arrival animation.
    pub anchored_at: u64,
    /// A menu that has just closed, still playing its exit. Kept so it can be drawn for a moment
    /// after the shell has already moved on -- without it, closing is a hard cut, which in a 3D
    /// space reads as a glitch rather than as a dismissal.
    pub closing: Option<(Mode, u64)>,
}

/// Which kind of picture a menu is.
#[derive(Debug, Clone, Copy, PartialEq, Eq, Structural)]
pub enum Drawn {
    /// A card of rows with one selected.
    Card,
    /// Bubbles in space.
    Bubbles,
}

impl Anchor {
    pub fn new(now: u64) -> (out: Anchor)
        ensures
            out == (Anchor { yaw: 0, anchored_for: None, anchored_at: now, closing: None }),
    {
        Anchor { yaw: 0, anchored_for: None, anchored_at: now, closing: None }
    }

    /// Pin an opening menu to the direction the wearer is currently facing.
    pub fn anchor_menu(&mut self, mode: Mode, yaw: i64, now: u64)
        ensures
            *final(self) == (if old(self).anchored_for == Some(mode) {
                *old(self)
            } else {
                (Anchor { yaw, anchored_for: Some(mode), anchored_at: now, closing: None })
            }),
    {
        let same: bool = match self.anchored_for {
            Some(pinned) => pinned == mode,
            None => false,
        };
        if !same {
            self.yaw = yaw;
            self.anchored_for = Some(mode);
            self.anchored_at = now;
            self.closing = None;
        }
    }

    /// Let a menu go: it begins to leave.
    pub fn forget_anchor(&mut self, now: u64)
        ensures
            *final(self) == (match old(self).anchored_for {
                Some(mode) => (Anchor {
                    anchored_for: None,
                    closing: Some((mode, now)),
                    ..*old(self)
                }),
                None => *old(self),
            }),
    {
        if let Some(mode) = self.anchored_for {
            self.anchored_for = None;
            self.closing = Some((mode, now));
        }
    }

    /// How far one bubble has arrived, in millionths, or has yet to leave if the menu is closing.
    ///
    /// Leaving is not staggered. On the way out the wearer has already decided, and a ripple just
    /// delays getting back to the world.
    pub open spec fn appeared(self, index: int, now: int) -> int {
        match self.closing {
            Some((_, since)) => ALL - eased((now - since) * ALL / (DISMISS as int)),
            None => eased((now - self.anchored_at - index * STAGGER) * ALL / (APPEAR as int)),
        }
    }

    /// Arrival progress for one bubble, in millionths, or the exit if the menu is closing.
    pub fn appear_progress(&self, index: usize, now: u64) -> (out: u32)
        ensures
            out == self.appeared(index as int, now as int),
            out <= ALL,
    {
        match self.closing {
            Some((_, since)) => {
                let t: i128 = over(now as i128 - since as i128, DISMISS as i128);
                proof {
                    lemma_eased(t as int);
                }
                (ALL - ease(t)) as u32
            },
            None => {
                let waited: i128 = now as i128 - self.anchored_at as i128;
                assert(index * STAGGER <= 0x1_0000_0000_0000_0000 * 22_000_000) by (nonlinear_arith)
                    requires
                        index <= 0x1_0000_0000_0000_0000,
                        STAGGER == 22_000_000,
                ;
                let t: i128 = over(waited - index as i128 * STAGGER as i128, APPEAR as i128);
                proof {
                    lemma_eased(t as int);
                }
                ease(t) as u32
            },
        }
    }

    /// Whether a closing menu is still on its way out.
    pub open spec fn leaving(self, now: int) -> bool {
        self.closing matches Some(closing) && now - closing.1 < DISMISS
    }

    /// True while a closing menu is still worth drawing.
    pub fn is_dismissing(&self, now: u64) -> (out: bool)
        ensures
            out == self.leaving(now as int),
    {
        match self.closing {
            Some((_, since)) => now < since || now - since < DISMISS,
            None => false,
        }
    }

    /// The menu still being drawn on the way out.
    pub open spec fn departing(self, now: int) -> Option<Mode> {
        match self.closing {
            Some((mode, since)) => if now - since < DISMISS {
                Some(mode)
            } else {
                None
            },
            None => None,
        }
    }

    /// The menu still being drawn on the way out, if any.
    pub fn dismissing_mode(&self, now: u64) -> (out: Option<Mode>)
        ensures
            out == self.departing(now as int),
    {
        if self.is_dismissing(now) {
            match self.closing {
                Some((mode, _)) => Some(mode),
                None => None,
            }
        } else {
            None
        }
    }

    /// What is drawn, if anything: while a menu is leaving, the shell has already returned to the
    /// world -- so the mode to draw comes from the dismissal, not from the shell. A launcher with
    /// nothing in it says so on a card, rather than showing an empty sky that looks like a failure
    /// to open.
    pub open spec fn showing(self, shell: Mode, empty: bool, now: int) -> Option<Drawn> {
        let mode = if shell == Mode::World {
            self.departing(now)
        } else {
            Some(shell)
        };
        match mode {
            Some(Mode::Launcher) => Some(
                if empty {
                    Drawn::Card
                } else {
                    Drawn::Bubbles
                },
            ),
            Some(Mode::Hud) | Some(Mode::Environment) | Some(Mode::Files) => Some(Drawn::Card),
            _ => None,
        }
    }

    /// Which menu is drawn, if any.
    pub fn draw_menu(&self, shell: Mode, empty: bool, now: u64) -> (out: Option<Drawn>)
        ensures
            out == self.showing(shell, empty, now as int),
    {
        let mode = if shell == Mode::World {
            self.dismissing_mode(now)
        } else {
            Some(shell)
        };
        match mode {
            Some(Mode::Launcher) => Some(
                if empty {
                    Drawn::Card
                } else {
                    Drawn::Bubbles
                },
            ),
            Some(Mode::Hud) | Some(Mode::Environment) | Some(Mode::Files) => Some(Drawn::Card),
            _ => None,
        }
    }
}

fn over(elapsed: i128, whole: i128) -> (out: i128)
    requires
        -0x1_0000_0000_0000_0000_0000_0000 < elapsed < 0x1_0000_0000_0000_0000_0000_0000,
        0 < whole <= 1_000_000_000,
    ensures
        out == elapsed * ALL / (whole as int),
{
    crate::pointer::resize::floor_over(elapsed * ALL, whole)
}

proof fn lemma_eased(t: int)
    ensures
        0 <= eased(t) <= ALL,
        0 <= share(t) * share(t) <= ALL * ALL,
        0 <= share(t) * share(t) * (3 * ALL - 2 * share(t)) <= ALL * ALL * ALL,
{
    let s = share(t);
    assert(0 <= s * s <= 1_000_000 * 1_000_000) by (nonlinear_arith)
        requires
            0 <= s <= 1_000_000,
    ;
    assert(0 <= s * s * (3_000_000 - 2 * s)) by (nonlinear_arith)
        requires
            0 <= s <= 1_000_000,
    ;
    // The cube of the whole less what is eased is (whole - s) squared times (whole + 2 s).
    assert(s * s * (3_000_000 - 2 * s) <= 1_000_000 * 1_000_000 * 1_000_000) by (nonlinear_arith)
        requires
            0 <= s <= 1_000_000,
            (1_000_000 - s) * (1_000_000 - s) * (1_000_000 + 2 * s) >= 0,
    {
        assert((1_000_000 - s) * (1_000_000 - s) * (1_000_000 + 2 * s) == 1_000_000 * 1_000_000
            * 1_000_000 - s * s * (3_000_000 - 2 * s));
    }
}

fn ease(t: i128) -> (out: i128)
    ensures
        out == eased(t as int),
        0 <= out <= ALL,
{
    let s: i128 = if t < 0 {
        0
    } else if t > ALL {
        ALL
    } else {
        t
    };
    proof {
        lemma_eased(t as int);
    }
    s * s * (3 * ALL - 2 * s) / (ALL * ALL)
}

/// A bubble never overshoots, only arrives: the longer it has been, the further it has come, and no
/// further than all the way; and one that comes later in the grid is never ahead of one before it.
pub proof fn a_bubble_only_arrives(anchor: Anchor, i: int, j: int, now: int, later: int)
    requires
        anchor.closing is None,
        0 <= i <= j,
        now <= later,
    ensures
        0 <= anchor.appeared(i, now) <= anchor.appeared(i, later) <= ALL,
        anchor.appeared(j, now) <= anchor.appeared(i, now),
        now >= anchor.anchored_at + i * STAGGER + APPEAR ==> anchor.appeared(i, now) == ALL,
{
    let a = now - anchor.anchored_at - i * STAGGER;
    let b = later - anchor.anchored_at - i * STAGGER;
    let c = now - anchor.anchored_at - j * STAGGER;
    assert(i * STAGGER <= j * STAGGER) by (nonlinear_arith)
        requires
            i <= j,
            STAGGER == 22_000_000,
    ;
    lemma_eased(a * ALL / (APPEAR as int));
    lemma_eased(b * ALL / (APPEAR as int));
    lemma_ease_grows(a * ALL / (APPEAR as int), b * ALL / (APPEAR as int));
    lemma_ease_grows(c * ALL / (APPEAR as int), a * ALL / (APPEAR as int));
}

proof fn lemma_ease_grows(t: int, u: int)
    requires
        t <= u,
    ensures
        eased(t) <= eased(u),
{
    let a = share(t);
    let b = share(u);
    lemma_eased(t);
    lemma_eased(u);
    assert(a * a * (3_000_000 - 2 * a) <= b * b * (3_000_000 - 2 * b)) by (nonlinear_arith)
        requires
            0 <= a <= b <= 1_000_000,
    {
        let d = b - a;
        // What is eased grows by (b - a) times this, which is never less than nothing.
        let rate = 3_000_000 * (a + b) - 2 * (a * a + a * b + b * b);
        assert(a * a <= 1_000_000 * a && b * b <= 1_000_000 * b);
        assert(0 <= (b - a) * (b - a));
        assert((b - a) * (b - a) == b * b - 2 * (a * b) + a * a);
        assert(rate >= 0);
        assert(d * rate >= 0);
        assert(b * b * (3_000_000 - 2 * b) - a * a * (3_000_000 - 2 * a) == d * rate);
    }
    let whole = ALL * ALL;
    assert(whole == 1_000_000_000_000);
}

/// A menu that is let go is drawn on its way out, and then no more.
pub proof fn a_menu_leaves_and_is_gone(anchor: Anchor, mode: Mode, now: int, later: int)
    requires
        anchor.closing == Some((mode, now as u64)),
        0 <= now <= u64::MAX,
        mode != Mode::World,
    ensures
        now <= later < now + DISMISS ==> anchor.showing(Mode::World, false, later) is Some,
        later >= now + DISMISS ==> anchor.showing(Mode::World, false, later) is None,
        later >= now + DISMISS ==> anchor.appeared(0, later) == 0,
{
    if later >= now + DISMISS {
        let t = (later - now) * ALL / (DISMISS as int);
        assert(t >= ALL);
        assert(eased(t) == ALL) by {
            assert(1_000_000_000_000int * 1_000_000 / 1_000_000_000_000 == 1_000_000);
        }
    }
}

/// The measures of a menu's card, in thousandths of a panel pixel.
#[derive(Debug, Clone, Copy, PartialEq, Eq, Structural)]
pub struct Metrics {
    pub width: i64,
    pub rim: i64,
    pub card_radius: i64,
    pub row_radius: i64,
    pub row_inset: i64,
    pub title_em: i64,
    pub row_em: i64,
    pub footer_em: i64,
}

/// Em size of a row's trailing status. Smaller than the label it sits beside: it qualifies the row
/// rather than naming it.
pub const TRAILING_EM: i64 = 23_000;

/// A rectangle on a card, in thousandths of a panel pixel.
#[derive(Debug, Clone, Copy, PartialEq, Eq, Structural)]
pub struct CardRect {
    pub x: i64,
    pub y: i64,
    pub w: i64,
    pub h: i64,
}

/// The largest a card's measures can be: a million panel pixels.
pub const SPAN: i64 = 1_000_000_000;

impl CardRect {
    /// Somewhere on a card.
    pub open spec fn wf(self) -> bool {
        &&& -SPAN <= self.x <= SPAN
        &&& -SPAN <= self.y <= SPAN
        &&& -SPAN <= self.w <= SPAN
        &&& -SPAN <= self.h <= SPAN
    }
}

impl Metrics {
    pub open spec fn wf(self) -> bool {
        &&& 0 <= self.width <= SPAN
        &&& 0 <= self.rim <= SPAN
        &&& 0 <= self.card_radius <= SPAN
        &&& 0 <= self.row_inset <= SPAN
        &&& 0 <= self.title_em <= SPAN
        &&& 0 <= self.row_em <= SPAN
        &&& 0 <= self.footer_em <= SPAN
    }
}

/// Where a menu's pieces go.
#[derive(Debug, Clone, PartialEq, Eq)]
pub struct CardLayout {
    pub height: i64,
    pub title: CardRect,
    pub footer: Option<CardRect>,
    /// The rows that show.
    pub rows: Vec<CardRect>,
    /// Which row of the list the first of them is.
    pub first: usize,
    pub scroll_track: Option<CardRect>,
    pub scroll_thumb: Option<CardRect>,
    pub separator: Option<CardRect>,
    pub detail: Option<CardRect>,
}

/// Whether an absent rectangle, or one somewhere on a card.
pub open spec fn placed(rect: Option<CardRect>) -> bool {
    rect matches Some(rect) ==> rect.wf()
}

impl CardLayout {
    pub open spec fn wf(self) -> bool {
        &&& -SPAN <= self.height <= SPAN
        &&& self.title.wf()
        &&& placed(self.footer)
        &&& placed(self.scroll_track)
        &&& placed(self.scroll_thumb)
        &&& placed(self.separator)
        &&& forall|i: int| 0 <= i < self.rows@.len() ==> (#[trigger] self.rows@[i]).wf()
        &&& self.first + self.rows@.len() <= usize::MAX
    }
}

/// One row of a menu, rasterised.
#[derive(Debug, Clone, Copy, PartialEq, Eq)]
pub struct RowTextures {
    pub label: TitleTexture,
    /// The status at the right of the row, where there is one.
    pub trailing: Option<TitleTexture>,
}

/// Everything a menu needs on the GPU.
///
/// All of it is rasterised white and coloured by the tint at draw time, so which row is
/// selected — and therefore which row is bright — is decided while drawing rather than while
/// rasterising. That is what makes moving the cursor free.
#[derive(Debug, Clone, PartialEq, Eq)]
pub struct MenuTextures {
    pub title: TitleTexture,
    pub rows: Vec<RowTextures>,
    pub detail: Option<TitleTexture>,
    pub footer: Option<TitleTexture>,
}

/// One piece of a card: a rounded fill, or a picture.
#[derive(Debug, Clone, Copy, PartialEq, Eq)]
pub struct CardPiece {
    pub rect: CardRect,
    pub tint: Tint,
    /// The corner radius of a fill.
    pub radius: Option<i64>,
    /// The picture, where it is one.
    pub texture: Option<u32>,
}

/// A tint as faint as the card still is.
pub open spec fn faded(tint: Tint, appear: int) -> Tint {
    Tint { opacity: (tint.opacity * appear / (ALL as int)) as u16, ..tint }
}

/// A rounded fill.
pub open spec fn plate(rect: CardRect, tint: Tint, radius: int, appear: int) -> CardPiece {
    CardPiece { rect, tint: faded(tint, appear), radius: Some(radius as i64), texture: None }
}

/// How tall a line of text of an em size is drawn.
pub open spec fn line_height(em: int) -> int {
    em * 14 / 10
}

/// The shape a picture is taken to have, in millionths: no picture is more than a hundred times as
/// tall as it is wide.
pub open spec fn line_shape(aspect: u32) -> int {
    if aspect < 10_000 {
        10_000
    } else {
        aspect as int
    }
}

/// How wide a picture so tall is drawn.
pub open spec fn line_width(height: int, aspect: u32) -> int {
    height * line_shape(aspect) / (ALL as int)
}

/// One piece of text inside a band, at its left or right edge, vertically centred.
///
/// A label wider than its band is scaled down rather than clipped or ellipsised. A long filename
/// is the case: shrinking one row is ugly, and cutting a name off in the middle is worse, because
/// the end of a filename is the part that says what it is. In a band of less than no width, which a
/// row narrower than its insets leaves, it is as wide and as tall as that makes it.
pub open spec fn text_in(
    band: CardRect,
    texture: TitleTexture,
    em: int,
    tint: Tint,
    at_right: bool,
    appear: int,
) -> CardPiece {
    let full_h = line_height(em);
    let full_w = line_width(full_h, texture.aspect);
    let h = if full_w > band.w {
        band.w * ALL / line_shape(texture.aspect)
    } else {
        full_h
    };
    let w = if full_w > band.w {
        band.w as int
    } else {
        full_w
    };
    CardPiece {
        rect: CardRect {
            x: (if at_right {
                band.x + band.w - w
            } else {
                band.x as int
            }) as i64,
            y: (band.y + (band.h - h) / 2) as i64,
            w: w as i64,
            h: h as i64,
        },
        tint: faded(tint, appear),
        radius: None,
        texture: Some(texture.id),
    }
}

/// How wide a row's label may be: what its trailing status leaves it, and never less than the
/// inset.
pub open spec fn label_width(rect: CardRect, row: RowTextures, metrics: Metrics) -> int {
    let full = rect.w - 2 * metrics.row_inset;
    match row.trailing {
        Some(trailing) => {
            let left = full - line_width(line_height(TRAILING_EM as int), trailing.aspect)
                - metrics.row_inset;
            if left < metrics.row_inset {
                metrics.row_inset as int
            } else {
                left
            }
        },
        None => full,
    }
}

/// The wash behind a selected row, and the bar at its left edge: the wash alone is not enough
/// against a bright environment; a saturated shape at full opacity is legible whatever is behind
/// the card.
pub open spec fn selection(rect: CardRect, metrics: Metrics, appear: int) -> Seq<CardPiece> {
    seq![
        plate(rect, tint(420, 680, 1_000, 200), metrics.row_radius as int, appear),
        plate(
            CardRect {
                x: (rect.x + 9_000) as i64,
                y: (rect.y + rect.h * 26 / 100) as i64,
                w: 5_000,
                h: (rect.h * 48 / 100) as i64,
            },
            tint(450, 720, 1_000, 1_000),
            2_500,
            appear,
        ),
    ]
}

/// One row: its selection where it is selected, its trailing status, and its label.
pub open spec fn row_pieces(
    rect: CardRect,
    row: RowTextures,
    selected: bool,
    metrics: Metrics,
    appear: int,
) -> Seq<CardPiece> {
    let inset = (rect.x + metrics.row_inset) as i64;
    (if selected {
        selection(rect, metrics, appear)
    } else {
        Seq::empty()
    }) + (match row.trailing {
        Some(trailing) => seq![
            text_in(
                CardRect { x: inset, w: (rect.w - 2 * metrics.row_inset) as i64, ..rect },
                trailing,
                TRAILING_EM as int,
                tint(500, 700, 1_000, 1_000),
                true,
                appear,
            ),
        ],
        None => Seq::empty(),
    }) + seq![
        text_in(
            CardRect { x: inset, w: label_width(rect, row, metrics) as i64, ..rect },
            row.label,
            metrics.row_em as int,
            if selected {
                tint(1_000, 1_000, 1_000, 1_000)
            } else {
                tint(780, 820, 900, 1_000)
            },
            false,
            appear,
        ),
    ]
}

/// The first so many rows that show.
pub open spec fn rows_pieces(
    layout: CardLayout,
    menu: MenuTextures,
    cursor: usize,
    metrics: Metrics,
    appear: int,
    count: int,
) -> Seq<CardPiece>
    decreases count,
{
    if count <= 0 {
        Seq::empty()
    } else {
        let index = layout.first + count - 1;
        rows_pieces(layout, menu, cursor, metrics, appear, count - 1) + (if index
            < menu.rows@.len() {
            row_pieces(
                layout.rows@[count - 1],
                menu.rows@[index],
                index == cursor,
                metrics,
                appear,
            )
        } else {
            Seq::empty()
        })
    }
}

/// A hairline of accent just outside the card, so it ends somewhere definite, and the card's
/// ground.
pub open spec fn ground(layout: CardLayout, metrics: Metrics, appear: int) -> Seq<CardPiece> {
    seq![
        plate(
            CardRect {
                x: (-metrics.rim) as i64,
                y: (-metrics.rim) as i64,
                w: (metrics.width + 2 * metrics.rim) as i64,
                h: (layout.height + 2 * metrics.rim) as i64,
            },
            tint(550, 700, 1_000, 160),
            metrics.card_radius + metrics.rim,
            appear,
        ),
        plate(
            CardRect { x: 0, y: 0, w: metrics.width, h: layout.height },
            tint(43, 50, 72, 930),
            metrics.card_radius as int,
            appear,
        ),
    ]
}

/// The title, and the hints beside it where there are any.
pub open spec fn head(
    layout: CardLayout,
    menu: MenuTextures,
    metrics: Metrics,
    appear: int,
) -> Seq<CardPiece> {
    seq![
        text_in(
            layout.title,
            menu.title,
            metrics.title_em as int,
            tint(1_000, 1_000, 1_000, 1_000),
            false,
            appear,
        ),
    ] + (match (layout.footer, menu.footer) {
        (Some(band), Some(texture)) => seq![
            text_in(
                band,
                texture,
                metrics.footer_em as int,
                tint(500, 550, 660, 1_000),
                true,
                appear,
            ),
        ],
        _ => Seq::empty(),
    })
}

/// A fill whose ends are round, where there is one.
pub open spec fn pill(rect: Option<CardRect>, tint: Tint, upright: bool, appear: int) -> Seq<
    CardPiece,
> {
    match rect {
        Some(rect) => seq![
            plate(
                rect,
                tint,
                (if upright {
                    rect.w
                } else {
                    rect.h
                }) as int / 2,
                appear,
            ),
        ],
        None => Seq::empty(),
    }
}

/// The scroll bar, the separator, and the explanation, which is already as wide as its band.
pub open spec fn foot(layout: CardLayout, menu: MenuTextures, appear: int) -> Seq<CardPiece> {
    pill(layout.scroll_track, tint(1_000, 1_000, 1_000, 80), true, appear) + pill(
        layout.scroll_thumb,
        tint(420, 680, 1_000, 700),
        true,
        appear,
    ) + pill(layout.separator, tint(1_000, 1_000, 1_000, 100), false, appear) + (match (
        layout.detail,
        menu.detail,
    ) {
        (Some(rect), Some(texture)) => seq![
            CardPiece {
                rect,
                tint: faded(tint(700, 760, 870, 1_000), appear),
                radius: None,
                texture: Some(texture.id),
            },
        ],
        _ => Seq::empty(),
    })
}

/// A menu as a card: ground, title and hints, rows, explanation. Nothing of one that has not begun
/// to appear.
pub open spec fn card(
    layout: CardLayout,
    menu: MenuTextures,
    cursor: usize,
    metrics: Metrics,
    appear: int,
) -> Seq<CardPiece> {
    if appear <= 1_000 {
        Seq::empty()
    } else {
        ground(layout, metrics, appear) + head(layout, menu, metrics, appear) + rows_pieces(
            layout,
            menu,
            cursor,
            metrics,
            appear,
            layout.rows@.len() as int,
        ) + foot(layout, menu, appear)
    }
}

fn fade(tint: Tint, appear: u32) -> (out: Tint)
    requires
        appear <= ALL,
    ensures
        out == faded(tint, appear as int),
{
    assert(tint.opacity * appear <= 0xffff * 1_000_000) by (nonlinear_arith)
        requires
            tint.opacity <= 0xffff,
            appear <= 1_000_000,
    ;
    Tint {
        red: tint.red,
        green: tint.green,
        blue: tint.blue,
        opacity: (tint.opacity as u64 * appear as u64 / 1_000_000) as u16,
    }
}

fn put(out: &mut Vec<CardPiece>, rect: CardRect, tint: Tint, radius: i64, appear: u32)
    requires
        appear <= ALL,
    ensures
        final(out)@ == old(out)@.push(plate(rect, tint, radius as int, appear as int)),
{
    out.push(
        CardPiece { rect, tint: fade(tint, appear), radius: Some(radius), texture: None },
    );
}

fn width_of(height: i64, aspect: u32) -> (out: i64)
    requires
        0 <= height <= 2 * SPAN,
    ensures
        out == line_width(height as int, aspect),
        0 <= out <= 2 * SPAN * 4_295,
{
    let share: i64 = if aspect < 10_000 {
        10_000
    } else {
        aspect as i64
    };
    assert(0 <= height * share <= 2_000_000_000 * 4_294_967_295) by (nonlinear_arith)
        requires
            0 <= height <= 2_000_000_000,
            0 <= share <= 4_294_967_295,
    ;
    height * share / 1_000_000
}

fn set_text(
    out: &mut Vec<CardPiece>,
    band: CardRect,
    texture: TitleTexture,
    em: i64,
    tint: Tint,
    at_right: bool,
    appear: u32,
)
    requires
        -3 * SPAN <= band.x <= 3 * SPAN,
        -3 * SPAN <= band.y <= 3 * SPAN,
        -3 * SPAN <= band.w <= SPAN,
        -SPAN <= band.h <= SPAN,
        0 <= em <= SPAN,
        appear <= ALL,
    ensures
        final(out)@ == old(out)@.push(
            text_in(band, texture, em as int, tint, at_right, appear as int),
        ),
{
    let full_h: i64 = em * 14 / 10;
    let full_w: i64 = width_of(full_h, texture.aspect);
    let mut h: i64 = full_h;
    let mut w: i64 = full_w;
    if full_w > band.w {
        let share: u64 = if texture.aspect < 10_000 {
            10_000
        } else {
            texture.aspect as u64
        };
        let scaled: i128 = band.w as i128 * 1_000_000;
        let shrunk: i128 = floor_div(scaled, share);
        assert(-3_000_000_000_000_000 <= shrunk <= 1_000_000_000_000_000) by (nonlinear_arith)
            requires
                shrunk == scaled as int / (share as int),
                -3_000_000_000_000_000 <= scaled <= 1_000_000_000_000_000,
                share >= 1,
        ;
        h = shrunk as i64;
        w = band.w;
    }
    let spare: i64 = band.h - h;
    let above: i64 = if spare >= 0 {
        spare / 2
    } else {
        0 - (1 - spare) / 2
    };
    let rect = CardRect {
        x: if at_right {
            band.x + band.w - w
        } else {
            band.x
        },
        y: band.y + above,
        w,
        h,
    };
    out.push(
        CardPiece { rect, tint: fade(tint, appear), radius: None, texture: Some(texture.id) },
    );
}

fn draw_row(
    out: &mut Vec<CardPiece>,
    rect: CardRect,
    row: RowTextures,
    selected: bool,
    metrics: Metrics,
    appear: u32,
)
    requires
        rect.wf(),
        metrics.wf(),
        appear <= ALL,
    ensures
        final(out)@ == old(out)@ + row_pieces(rect, row, selected, metrics, appear as int),
{
    let ghost was = out@;
    if selected {
        put(
            out,
            rect,
            Tint { red: 420, green: 680, blue: 1_000, opacity: 200 },
            metrics.row_radius,
            appear,
        );
        put(
            out,
            CardRect {
                x: rect.x + 9_000,
                y: rect.y + floor_div(rect.h as i128 * 26, 100) as i64,
                w: 5_000,
                h: floor_div(rect.h as i128 * 48, 100) as i64,
            },
            Tint { red: 450, green: 720, blue: 1_000, opacity: 1_000 },
            2_500,
            appear,
        );
    }
    let ghost chosen = out@;
    let x: i64 = rect.x + metrics.row_inset;
    let full: i64 = rect.w - 2 * metrics.row_inset;
    // The trailing status is placed first, because how much room it takes is what the label has
    // left.
    let mut label: i64 = full;
    if let Some(trailing) = row.trailing {
        set_text(
            out,
            CardRect { x, y: rect.y, w: full, h: rect.h },
            trailing,
            TRAILING_EM,
            Tint { red: 500, green: 700, blue: 1_000, opacity: 1_000 },
            true,
            appear,
        );
        let taken: i64 = width_of(TRAILING_EM * 14 / 10, trailing.aspect);
        let left: i64 = full - taken - metrics.row_inset;
        label = if left < metrics.row_inset {
            metrics.row_inset
        } else {
            left
        };
    }
    let ghost trailed = out@;
    set_text(
        out,
        CardRect { x, y: rect.y, w: label, h: rect.h },
        row.label,
        metrics.row_em,
        if selected {
            Tint { red: 1_000, green: 1_000, blue: 1_000, opacity: 1_000 }
        } else {
            Tint { red: 780, green: 820, blue: 900, opacity: 1_000 }
        },
        false,
        appear,
    );
    assert(chosen =~= was + (if selected {
        selection(rect, metrics, appear as int)
    } else {
        Seq::empty()
    }));
    assert(out@ =~= was + row_pieces(rect, row, selected, metrics, appear as int));
}

fn draw_pill(
    out: &mut Vec<CardPiece>,
    rect: Option<CardRect>,
    tint: Tint,
    upright: bool,
    appear: u32,
)
    requires
        placed(rect),
        appear <= ALL,
    ensures
        final(out)@ == old(out)@ + pill(rect, tint, upright, appear as int),
{
    let ghost was = out@;
    if let Some(rect) = rect {
        let across: i64 = if upright {
            rect.w
        } else {
            rect.h
        };
        put(out, rect, tint, floor_div(across as i128, 2) as i64, appear);
    }
    assert(out@ =~= was + pill(rect, tint, upright, appear as int));
}

fn draw_ground(out: &mut Vec<CardPiece>, layout: &CardLayout, metrics: Metrics, appear: u32)
    requires
        layout.wf(),
        metrics.wf(),
        appear <= ALL,
    ensures
        final(out)@ == old(out)@ + ground(*layout, metrics, appear as int),
{
    let ghost was = out@;
    put(
        out,
        CardRect {
            x: -metrics.rim,
            y: -metrics.rim,
            w: metrics.width + 2 * metrics.rim,
            h: layout.height + 2 * metrics.rim,
        },
        Tint { red: 550, green: 700, blue: 1_000, opacity: 160 },
        metrics.card_radius + metrics.rim,
        appear,
    );
    put(
        out,
        CardRect { x: 0, y: 0, w: metrics.width, h: layout.height },
        Tint { red: 43, green: 50, blue: 72, opacity: 930 },
        metrics.card_radius,
        appear,
    );
    assert(out@ =~= was + ground(*layout, metrics, appear as int));
}

fn draw_head(
    out: &mut Vec<CardPiece>,
    layout: &CardLayout,
    menu: &MenuTextures,
    metrics: Metrics,
    appear: u32,
)
    requires
        layout.wf(),
        metrics.wf(),
        appear <= ALL,
    ensures
        final(out)@ == old(out)@ + head(*layout, *menu, metrics, appear as int),
{
    let ghost was = out@;
    set_text(
        out,
        layout.title,
        menu.title,
        metrics.title_em,
        Tint { red: 1_000, green: 1_000, blue: 1_000, opacity: 1_000 },
        false,
        appear,
    );
    if let (Some(band), Some(texture)) = (layout.footer, menu.footer) {
        set_text(
            out,
            band,
            texture,
            metrics.footer_em,
            Tint { red: 500, green: 550, blue: 660, opacity: 1_000 },
            true,
            appear,
        );
    }
    assert(out@ =~= was + head(*layout, *menu, metrics, appear as int));
}

fn draw_foot(out: &mut Vec<CardPiece>, layout: &CardLayout, menu: &MenuTextures, appear: u32)
    requires
        layout.wf(),
        appear <= ALL,
    ensures
        final(out)@ == old(out)@ + foot(*layout, *menu, appear as int),
{
    let ghost was = out@;
    draw_pill(
        out,
        layout.scroll_track,
        Tint { red: 1_000, green: 1_000, blue: 1_000, opacity: 80 },
        true,
        appear,
    );
    draw_pill(
        out,
        layout.scroll_thumb,
        Tint { red: 420, green: 680, blue: 1_000, opacity: 700 },
        true,
        appear,
    );
    draw_pill(
        out,
        layout.separator,
        Tint { red: 1_000, green: 1_000, blue: 1_000, opacity: 100 },
        false,
        appear,
    );
    if let (Some(rect), Some(texture)) = (layout.detail, menu.detail) {
        let tint = fade(Tint { red: 700, green: 760, blue: 870, opacity: 1_000 }, appear);
        out.push(CardPiece { rect, tint, radius: None, texture: Some(texture.id) });
    }
    assert(out@ =~= was + foot(*layout, *menu, appear as int));
}

/// Work out the pieces of a menu's card.
///
/// Nothing here depends on which row is selected but the selection itself: it is a shape drawn over
/// the rows, so walking the list rasterises nothing.
pub fn draw_card(
    layout: &CardLayout,
    menu: &MenuTextures,
    cursor: usize,
    metrics: Metrics,
    appear: u32,
) -> (out: Vec<CardPiece>)
    requires
        layout.wf(),
        metrics.wf(),
    ensures
        out@ == card(*layout, *menu, cursor, metrics, share(appear as int)),
{
    let appear: u32 = if appear > 1_000_000 {
        1_000_000
    } else {
        appear
    };
    let mut out: Vec<CardPiece> = Vec::new();
    if appear <= 1_000 {
        return out;
    }
    draw_ground(&mut out, layout, metrics, appear);
    draw_head(&mut out, layout, menu, metrics, appear);
    let ghost before = out@;
    let mut i: usize = 0;
    assert(before =~= before + rows_pieces(*layout, *menu, cursor, metrics, appear as int, 0));
    while i < layout.rows.len()
        invariant
            i <= layout.rows.len(),
            layout.wf(),
            metrics.wf(),
            appear <= ALL,
            out@ == before + rows_pieces(*layout, *menu, cursor, metrics, appear as int, i as int),
        decreases layout.rows.len() - i,
    {
        let index: usize = layout.first + i;
        let rect = layout.rows[i];
        let ghost so_far = out@;
        if index < menu.rows.len() {
            draw_row(&mut out, rect, menu.rows[index], index == cursor, metrics, appear);
        }
        assert(out@ =~= before + rows_pieces(
            *layout,
            *menu,
            cursor,
            metrics,
            appear as int,
            i + 1,
        ));
        i = i + 1;
    }
    draw_foot(&mut out, layout, menu, appear);
    assert(out@ =~= card(*layout, *menu, cursor, metrics, appear as int));
    out
}

/// Easing leaves the two ends and the middle where they are, and is the same at both ends: as far
/// behind on the way in as ahead on the way out, to within what rounding down leaves.
pub proof fn easing_is_the_same_at_both_ends(t: int)
    ensures
        t <= 0 ==> eased(t) == 0,
        t >= 1_000_000 ==> eased(t) == 1_000_000,
        eased(500_000) == 500_000,
        0 <= t <= 1_000_000 ==> 999_999 <= eased(t) + eased(1_000_000 - t) <= 1_000_000,
        0 <= t <= 500_000 ==> eased(t) <= t,
{
    assert(ALL * ALL == 1_000_000_000_000);
    assert(t <= 0 ==> eased(t) == 0) by {
        assert(0int * 0 * 3_000_000 == 0);
    }
    assert(1_000_000_000_000int * 1_000_000 / 1_000_000_000_000 == 1_000_000);
    assert(eased(500_000) == 500_000) by {
        assert(500_000int * 500_000 * 2_000_000 == 500_000_000_000_000_000);
        assert(500_000_000_000_000_000int / 1_000_000_000_000 == 500_000);
        assert(ALL * ALL == 1_000_000_000_000);
    }
    if 0 <= t <= 1_000_000 {
        let u = 1_000_000 - t;
        let a = t * t * (3_000_000 - 2 * t);
        let b = u * u * (3_000_000 - 2 * u);
        assert(a + b == 1_000_000_000_000_000_000) by (nonlinear_arith)
            requires
                u == 1_000_000 - t,
                a == t * t * (3_000_000 - 2 * t),
                b == u * u * (3_000_000 - 2 * u),
        ;
        assert(ALL * ALL == 1_000_000_000_000);
        assert(t * t * (3 * ALL - 2 * t) == a);
        assert(u * u * (3 * ALL - 2 * u) == b);
        if t <= 500_000 {
            assert(t * t * (3_000_000 - 2 * t) <= t * 1_000_000_000_000) by (nonlinear_arith)
                requires
                    0 <= t <= 500_000,
            {
                let s = t * (3_000_000 - 2 * t);
                assert(1_000_000_000_000 - s == (1_000_000 - t) * (1_000_000 - 2 * t));
                assert((1_000_000 - t) * (1_000_000 - 2 * t) >= 0);
                assert(t * s <= t * 1_000_000_000_000);
                assert(t * t * (3_000_000 - 2 * t) == t * s);
            }
        }
    }
}

/// A bubble is where the first was one stagger ago for each place it comes after it; the first is
/// half way after half of its time, and none has set out before its turn.
pub proof fn each_bubble_follows_the_first(anchor: Anchor, index: int, now: int)
    requires
        anchor.closing is None,
        0 <= index,
    ensures
        anchor.appeared(index, now) == anchor.appeared(0, now - index * 22_000_000),
        now <= anchor.anchored_at ==> anchor.appeared(0, now) == 0,
        2 * (now - anchor.anchored_at) == APPEAR ==> anchor.appeared(0, now) == 500_000,
        now == anchor.anchored_at + APPEAR ==> anchor.appeared(0, now) == 1_000_000,
{
    easing_is_the_same_at_both_ends((now - anchor.anchored_at) * ALL / (APPEAR as int));
    assert(0 * STAGGER == 0);
    assert(index * STAGGER == index * 22_000_000) by (nonlinear_arith)
        requires
            STAGGER == 22_000_000,
    ;
}

/// A menu on its way out goes all at once, and only goes: every bubble has as far to leave as every
/// other, all the way at first, less the longer it has been, and nothing at the end.
pub proof fn a_menu_goes_all_at_once(
    anchor: Anchor,
    mode: Mode,
    since: u64,
    i: int,
    j: int,
    now: int,
    later: int,
)
    requires
        anchor.closing == Some((mode, since)),
        now <= later,
    ensures
        anchor.appeared(i, now) == anchor.appeared(j, now),
        anchor.appeared(i, later) <= anchor.appeared(i, now),
        now <= since ==> anchor.appeared(i, now) == 1_000_000,
        since + DISMISS <= now ==> anchor.appeared(i, now) == 0,
        anchor.leaving(now) <==> now < since + DISMISS,
        anchor.departing(now) == (if now < since + DISMISS {
            Some(mode)
        } else {
            None
        }),
{
    let (t, u) = (
        (now - since) * ALL / (DISMISS as int),
        (later - since) * ALL / (DISMISS as int),
    );
    easing_is_the_same_at_both_ends(t);
    lemma_ease_grows(t, u);
}

/// What is drawn is the menu the shell is in, whatever is on its way out, and once the shell is back
/// in the world the menu that is leaving, while it is. A launcher is bubbles unless there is nothing
/// in it, every other menu is a card, and the world is neither.
pub proof fn what_is_drawn_is_the_menu_that_is_open(
    anchor: Anchor,
    shell: Mode,
    empty: bool,
    now: int,
)
    ensures
        anchor.showing(Mode::Launcher, false, now) == Some(Drawn::Bubbles),
        anchor.showing(Mode::Launcher, true, now) == Some(Drawn::Card),
        shell == Mode::Hud || shell == Mode::Environment || shell == Mode::Files ==> anchor.showing(
            shell,
            empty,
            now,
        ) == Some(Drawn::Card),
        anchor.closing is None ==> anchor.showing(Mode::World, empty, now) is None,
        (anchor.departing(now) matches Some(mode) && mode != Mode::World) ==> anchor.showing(
            Mode::World,
            empty,
            now,
        ) == anchor.showing(anchor.departing(now)->0, empty, now),
{
}

/// Text stays in its band: at its left edge or its right, level with its middle, as tall as a line of
/// its size where that leaves room for it, and where it does not exactly as wide as the band. Either
/// way it keeps its shape.
pub proof fn text_stays_in_its_band(
    band: CardRect,
    texture: TitleTexture,
    em: int,
    color: Tint,
    at_right: bool,
    appear: int,
)
    requires
        band.wf(),
        0 <= band.w,
        0 <= em <= SPAN,
        texture.aspect >= 10_000,
    ensures
        ({
            let piece = text_in(band, texture, em, color, at_right, appear);
            let rect = piece.rect;
            let shape = texture.aspect;
            &&& piece.texture == Some(texture.id)
            &&& 0 <= rect.w <= band.w
            &&& at_right ==> rect.x + rect.w == band.x + band.w
            &&& !at_right ==> rect.x == band.x
            &&& 2 * (rect.y - band.y) <= band.h - rect.h <= 2 * (rect.y - band.y) + 1
            &&& rect.h <= em * 14 / 10
            &&& rect.w < band.w ==> rect.h == em * 14 / 10 && rect.w * 1_000_000 <= rect.h * shape
                < (rect.w + 1) * 1_000_000
            &&& rect.h < em * 14 / 10 ==> rect.w == band.w && rect.h * shape <= rect.w * 1_000_000
                < (rect.h + 1) * shape
        }),
{
    let shape = texture.aspect as int;
    let full_h = line_height(em);
    let n = full_h * shape;
    let full_w = n / 1_000_000;
    assert(0 <= n) by (nonlinear_arith)
        requires
            n == full_h * shape,
            0 <= full_h,
            0 <= shape,
    ;
    if full_w > band.w {
        let m = band.w * 1_000_000;
        let h = m / shape;
        assert(h * shape <= m < (h + 1) * shape && 0 <= h && h <= full_h) by (nonlinear_arith)
            requires
                h == m / shape,
                shape > 0,
                0 <= m,
                m <= n,
                n == full_h * shape,
        ;
    }
}

/// A tint fades with the card and only in its opacity: not at all once the card has arrived, wholly
/// before it has set out, and in proportion between.
pub proof fn a_tint_fades_with_its_card(color: Tint, appear: int)
    requires
        0 <= appear <= 1_000_000,
    ensures
        faded(color, 1_000_000) == color,
        faded(color, 0).opacity == 0,
        faded(color, appear).red == color.red && faded(color, appear).green == color.green && faded(
            color,
            appear,
        ).blue == color.blue,
        faded(color, appear).opacity * 1_000_000 <= color.opacity * appear < (faded(
            color,
            appear,
        ).opacity + 1) * 1_000_000,
{
    assert(color.opacity * 0 == 0);
    assert(color.opacity * 1_000_000 / 1_000_000 == color.opacity);
    assert(0 <= color.opacity * appear <= color.opacity * 1_000_000) by (nonlinear_arith)
        requires
            0 <= color.opacity,
            0 <= appear <= 1_000_000,
    ;
}

/// A row shows its own pictures: its label always, last and at its left, its status where it has
/// one, and a wash and a bar behind them where it is selected and nowhere else.
pub proof fn a_row_shows_its_own_pictures(
    rect: CardRect,
    row: RowTextures,
    selected: bool,
    metrics: Metrics,
    appear: int,
)
    ensures
        ({
            let pieces = row_pieces(rect, row, selected, metrics, appear);
            let behind = if selected {
                2int
            } else {
                0
            };
            &&& pieces.len() == behind + 1 + (if row.trailing is Some {
                1int
            } else {
                0
            })
            &&& pieces.last().texture == Some(row.label.id)
            &&& row.trailing matches Some(trailing) ==> pieces[behind].texture == Some(trailing.id)
            &&& selected ==> pieces[0].rect == rect && pieces[0].texture is None
                && pieces[1].texture is None
        }),
{
}

/// The rows that show are the ones from the first that shows on, each in its own place and only the
/// one under the cursor selected: one more place shows the next row of the list, where there is one.
pub proof fn each_row_shows_in_its_place(
    layout: CardLayout,
    menu: MenuTextures,
    cursor: usize,
    metrics: Metrics,
    appear: int,
    place: int,
)
    requires
        0 <= place < layout.rows@.len(),
    ensures
        ({
            let before = rows_pieces(layout, menu, cursor, metrics, appear, place);
            let after = rows_pieces(layout, menu, cursor, metrics, appear, place + 1);
            let index = layout.first + place;
            &&& index < menu.rows@.len() ==> after == before + row_pieces(
                layout.rows@[place],
                menu.rows@[index],
                cursor == index,
                metrics,
                appear,
            )
            &&& index >= menu.rows@.len() ==> after == before
            &&& rows_pieces(layout, menu, cursor, metrics, appear, 0).len() == 0
        }),
{
    let before = rows_pieces(layout, menu, cursor, metrics, appear, place);
    assert(before + Seq::<CardPiece>::empty() =~= before);
}

/// A label never runs into the status beside it, while the row has room for both: the two and the
/// inset between them are no wider than the row inside its insets.
pub proof fn a_label_leaves_room_for_its_status(
    rect: CardRect,
    row: RowTextures,
    trailing: TitleTexture,
    metrics: Metrics,
)
    requires
        row.trailing == Some(trailing),
        line_width(line_height(TRAILING_EM as int), trailing.aspect) + 4 * metrics.row_inset
            <= rect.w,
    ensures
        label_width(rect, row, metrics) + metrics.row_inset + line_width(
            line_height(TRAILING_EM as int),
            trailing.aspect,
        ) == rect.w - 2 * metrics.row_inset,
        label_width(rect, RowTextures { trailing: None, ..row }, metrics) == rect.w - 2
            * metrics.row_inset,
{
}

/// A card is drawn from the back: its rim, its ground just inside that, its title, and its rows; and
/// nothing of it before it has begun to appear.
pub proof fn a_card_is_drawn_from_the_back(
    layout: CardLayout,
    menu: MenuTextures,
    cursor: usize,
    metrics: Metrics,
    appear: int,
)
    requires
        layout.wf(),
        metrics.wf(),
    ensures
        appear <= 1_000 ==> card(layout, menu, cursor, metrics, appear).len() == 0,
        appear > 1_000 ==> {
            let pieces = card(layout, menu, cursor, metrics, appear);
            &&& pieces.len() >= 3
            &&& pieces[1].rect == (CardRect { x: 0, y: 0, w: metrics.width, h: layout.height })
            &&& pieces[0].rect.x == -metrics.rim && pieces[0].rect.y == -metrics.rim
            &&& pieces[0].rect.x + pieces[0].rect.w == metrics.width + metrics.rim
            &&& pieces[0].rect.y + pieces[0].rect.h == layout.height + metrics.rim
            &&& pieces[2].texture == Some(menu.title.id)
        },
{
}

} // verus!
