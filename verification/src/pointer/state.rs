//! What a ray means, and what the pointer remembers between frames.

use vstd::prelude::*;
use crate::pointer::resize::{FAR, Placement, Resized, dragged, floor_over, resizable, resize};
use crate::pointer::{Edge, Frame, UNIT, Zone, on_surface, surface_position};

verus! {

/// What the wearer is doing with a window.
#[derive(Debug, Clone, Copy, PartialEq, Eq)]
pub enum Drag {
    /// Moving it around the sphere.
    ///
    /// The offsets are the angle between where the window was and where the ray was pointing
    /// at the moment it was grabbed. Without them the window snaps its *centre* to the ray,
    /// so grabbing the corner of a title bar throws the window sideways before you have moved
    /// at all — it should hang from the point you took hold of, like anything else.
    Move { window: u64, yaw_offset: i128, pitch_offset: i128 },
    /// Dragging an edge or a corner of the frame.
    Resize {
        window: u64,
        edge: Edge,
        /// The size of the quad as it stood when the edge was grabbed.
        ///
        /// Measured against throughout, rather than against the window as it is now. The live
        /// quad moves and changes size as the drag proceeds, so measuring against it would
        /// feed the result back into its own input: the window would accelerate away from the
        /// pointer in whichever direction it was first nudged.
        quad: (i128, i128),
        /// Where on that quad it was grabbed.
        from: (i64, i64),
        start: Placement,
        pixels: (u32, u32),
    },
}

/// How far along a quad's side a ray has travelled.
pub open spec fn travelled(now: int, from: int, side: int) -> int {
    (now - from) * side / (UNIT as int)
}

impl Drag {
    /// The window this drag is about.
    pub open spec fn about(self) -> u64 {
        match self {
            Drag::Move { window, .. } => window,
            Drag::Resize { window, .. } => window,
        }
    }

    /// The window this drag is about, whichever kind it is.
    pub fn window(&self) -> (out: u64)
        ensures
            out == self.about(),
    {
        match self {
            Drag::Move { window, .. } => *window,
            Drag::Resize { window, .. } => *window,
        }
    }

    /// Whether a drag's numbers are ones the arithmetic can take.
    pub open spec fn wf(self) -> bool {
        match self {
            Drag::Move { .. } => true,
            Drag::Resize { quad, start, pixels, .. } => {
                &&& 0 <= quad.0 <= FAR
                &&& 0 <= quad.1 <= FAR
                &&& start.wf()
                &&& resizable(start, pixels)
            },
        }
    }

    /// Where a resize drag has got to.
    pub open spec fn arrived(self, now: Option<(i64, i64)>) -> Option<Resized> {
        match (self, now) {
            (Drag::Resize { edge, quad, from, start, pixels, .. }, Some(now)) => Some(
                dragged(
                    edge,
                    start,
                    pixels,
                    travelled(now.0 as int, from.0 as int, quad.0 as int),
                    travelled(now.1 as int, from.1 as int, quad.1 as int),
                ),
            ),
            _ => None,
        }
    }

    /// Where a resize drag has got to, given where the ray now crosses the plane the window stood
    /// on when it was grabbed.
    ///
    /// Nothing for the other kinds of drag, and for a ray that has swung round behind the
    /// window's plane and crosses nowhere — at which point there is no sensible answer and holding
    /// the last size is better than jumping to a reflected one.
    pub fn resized(&self, now: Option<(i64, i64)>) -> (out: Option<Resized>)
        requires
            self.wf(),
        ensures
            out == self.arrived(now),
    {
        match (self, now) {
            (Drag::Resize { edge, quad, from, start, pixels, .. }, Some(now)) => {
                let across: i128 = travel(now.0, from.0, quad.0);
                let down: i128 = travel(now.1, from.1, quad.1);
                Some(resize(*edge, start, *pixels, across, down))
            },
            _ => None,
        }
    }
}

fn travel(now: i64, from: i64, side: i128) -> (out: i128)
    requires
        0 <= side <= FAR,
    ensures
        out == travelled(now as int, from as int, side as int),
{
    let apart: i128 = now as i128 - from as i128;
    assert(-0x1_0000_0000_0000_0000 * 1_000_000_000_000 <= apart * side
        <= 0x1_0000_0000_0000_0000 * 1_000_000_000_000) by (nonlinear_arith)
        requires
            -0x1_0000_0000_0000_0000 <= apart <= 0x1_0000_0000_0000_0000,
            0 <= side <= 1_000_000_000_000,
    ;
    floor_over(apart * side, UNIT as i128)
}

/// A place a ray crossed a quad: how far away, and where on it.
#[derive(Debug, Clone, Copy, PartialEq, Eq, Structural)]
pub struct Hit {
    /// In billionths of a metre.
    pub distance: u64,
    pub u: i64,
    pub v: i64,
}

/// A place a ray crossed an open menu: which window owns it, and which of its popups.
#[derive(Debug, Clone, Copy, PartialEq, Eq, Structural)]
pub struct PopupHit {
    pub window: usize,
    pub popup: usize,
    pub hit: Hit,
}

/// What a ray currently hits.
#[derive(Debug, Clone, Copy, PartialEq, Eq)]
pub struct Aim {
    pub hit: Option<(usize, Hit)>,
    /// An open menu the ray landed on.
    ///
    /// Separate from `hit` rather than folded into it because a popup is not part of its
    /// window's quad and must not be treated as one. A menu item is not a title bar, is not a
    /// resize edge, and must not start a drag.
    pub popup: Option<PopupHit>,
    /// True when the hit landed in the window's title bar rather than its content.
    pub on_title: bool,
    /// Which part of the window the ray is over, if any.
    pub zone: Option<Zone>,
}

impl Aim {
    /// True while the ray is on an open menu.
    pub fn on_popup(&self) -> (out: bool)
        ensures
            out == (self.popup is Some),
    {
        self.popup.is_some()
    }
}

/// The nearest of the menus a ray crosses, and the first of those equally near: each nesting level
/// is drawn a step closer to the viewer, so a submenu sitting on top of its parent takes the click.
pub open spec fn nearest(popups: Seq<PopupHit>) -> Option<PopupHit>
    decreases popups.len(),
{
    if popups.len() == 0 {
        None
    } else {
        match nearest(popups.drop_last()) {
            None => Some(popups.last()),
            Some(best) => if popups.last().hit.distance < best.hit.distance {
                Some(popups.last())
            } else {
                Some(best)
            },
        }
    }
}

/// What a ray means. A menu covers whatever chrome is behind it: reporting the zone underneath
/// would let a click on the top row of a menu grab the title bar it happens to be sitting over.
pub open spec fn aimed(
    hit: Option<(usize, Hit)>,
    popups: Seq<PopupHit>,
    windows: Seq<(u32, u32)>,
) -> Aim {
    let popup = nearest(popups);
    let zone = if popup is Some {
        Some(Zone::Content)
    } else {
        match hit {
            Some((index, hit)) => if index < windows.len() {
                Some(Frame::around(windows[index as int]).part(hit.u as int, hit.v as int))
            } else {
                None
            },
            None => None,
        }
    };
    Aim { hit, popup, on_title: zone == Some(Zone::Title), zone }
}

/// Work out what a ray means, from the window it crosses first, and every open menu it crosses.
///
/// Menus are tested separately and win outright. A popup routinely hangs off the edge of the
/// window that opened it — a context menu near the bottom of a page, a dropdown wider than the
/// control it belongs to — and those parts are outside the window's quad entirely.
pub fn aim(hit: Option<(usize, Hit)>, popups: &[PopupHit], windows: &[(u32, u32)]) -> (out: Aim)
    ensures
        out == aimed(hit, popups@, windows@),
{
    let mut best: Option<PopupHit> = None;
    let mut i: usize = 0;
    while i < popups.len()
        invariant
            i <= popups.len(),
            best == nearest(popups@.take(i as int)),
        decreases popups.len() - i,
    {
        assert(popups@.take(i + 1).drop_last() =~= popups@.take(i as int));
        let closer: bool = match best {
            None => true,
            Some(best) => popups[i].hit.distance < best.hit.distance,
        };
        if closer {
            best = Some(popups[i]);
        }
        i = i + 1;
    }
    assert(popups@.take(i as int) =~= popups@);
    let zone: Option<Zone> = if best.is_some() {
        Some(Zone::Content)
    } else {
        match hit {
            Some((index, hit)) => if index < windows.len() {
                Some(Frame::of(windows[index]).zone(hit.u, hit.v))
            } else {
                None
            },
            None => None,
        }
    };
    let on_title: bool = match zone {
        Some(zone) => zone == Zone::Title,
        None => false,
    };
    Aim { hit, popup: best, on_title, zone }
}

/// No menu a ray crosses is nearer than the one it is on.
pub proof fn the_nearest_menu_takes_the_click(popups: Seq<PopupHit>, i: int)
    requires
        0 <= i < popups.len(),
    ensures
        nearest(popups) is Some,
        (nearest(popups)->0).hit.distance <= popups[i].hit.distance,
        popups.contains(nearest(popups)->0),
    decreases popups.len(),
{
    let rest = popups.drop_last();
    if rest.len() == 0 {
        assert(popups[0] == popups.last());
    } else {
        if i < rest.len() {
            the_nearest_menu_takes_the_click(rest, i);
        } else {
            the_nearest_menu_takes_the_click(rest, 0);
        }
        let best = nearest(rest)->0;
        let at = choose|j: int| 0 <= j < rest.len() && rest[j] == best;
        assert(popups[at] == best);
        assert(popups[popups.len() - 1] == popups.last());
    }
}

/// While a ray is on a menu it offers nothing of the window behind: not its title bar, not its
/// frame, not its close button.
pub proof fn a_menu_covers_the_chrome(
    hit: Option<(usize, Hit)>,
    popups: Seq<PopupHit>,
    windows: Seq<(u32, u32)>,
)
    requires
        popups.len() > 0,
    ensures
        aimed(hit, popups, windows).zone == Some(Zone::Content),
        !aimed(hit, popups, windows).on_title,
{
    the_nearest_menu_takes_the_click(popups, 0);
}

/// A surface that can be pointed at.
#[derive(Debug, Clone, Copy, PartialEq, Eq)]
pub struct Surface {
    pub surface: u64,
    pub pixels: (u32, u32),
}

/// A window that can be pointed at, with its open menus.
#[derive(Debug, Clone, PartialEq, Eq)]
pub struct Target {
    pub window: Surface,
    pub popups: Vec<Surface>,
}

/// Where to send the pointer: the surface it is over, if any, and where on it.
///
/// The place is on the surface itself, whose origin is nothing: a position given as both would
/// arrive at the client as no position at all.
#[derive(Debug, Clone, Copy, PartialEq, Eq)]
pub struct Motion {
    pub focus: Option<u64>,
    pub location: (i128, i128),
}

/// Where on a menu a hit is. Its coordinates are its own: a client positions a popup itself and
/// expects events in the popup's surface, not in the window's.
pub open spec fn on_menu(hit: Hit, pixels: (u32, u32)) -> (int, int) {
    (
        hit.u * pixels.0 * 256 / (UNIT as int),
        hit.v * pixels.1 * 256 / (UNIT as int),
    )
}

/// The menu a ray is on, where there is still one.
pub open spec fn menu_under(popup: Option<PopupHit>, windows: Seq<Target>) -> Option<
    (Surface, Hit),
> {
    match popup {
        Some(p) => if p.window < windows.len() && p.popup < windows[p.window as int].popups@.len() {
            Some((windows[p.window as int].popups@[p.popup as int], p.hit))
        } else {
            None
        },
        None => None,
    }
}

/// Where to send the pointer.
pub open spec fn sent(aim: Aim, windows: Seq<Target>) -> (Option<u64>, (int, int)) {
    match menu_under(aim.popup, windows) {
        Some((surface, hit)) => (Some(surface.surface), on_menu(hit, surface.pixels)),
        None => match aim.hit {
            Some((index, hit)) => if index < windows.len() {
                let window = windows[index as int].window;
                match on_surface(window.pixels, hit.u as int, hit.v as int) {
                    Some(at) => (Some(window.surface), at),
                    None => (None, (0, 0)),
                }
            } else {
                (None, (0, 0))
            },
            None => (None, (0, 0)),
        },
    }
}

fn along(at: i64, pixels: u32) -> (out: i128)
    ensures
        out == at * pixels * 256 / (UNIT as int),
{
    assert(-0x8000_0000_0000_0000 * 0xffff_ffff <= at * pixels <= 0x8000_0000_0000_0000
        * 0xffff_ffff) by (nonlinear_arith)
        requires
            -0x8000_0000_0000_0000 <= at <= 0x8000_0000_0000_0000,
            0 <= pixels <= 0xffff_ffff,
    ;
    floor_over(at as i128 * pixels as i128 * 256, UNIT as i128)
}

/// How far a scroll goes, each way it goes at all.
#[derive(Debug, Clone, Copy, PartialEq, Eq)]
pub struct Scroll {
    pub horizontal: Option<i64>,
    pub vertical: Option<i64>,
}

/// Everything the pointer layer remembers between frames.
#[derive(Debug, Clone, PartialEq, Eq)]
pub struct PointerState {
    pub drag: Option<Drag>,
    /// Buttons currently held, so a release is only sent for something that was pressed.
    pub held: Vec<u32>,
    /// Which window the cursor was last over, to notice when it leaves.
    pub last_focus: Option<usize>,
}

impl Default for PointerState {
    fn default() -> (out: Self)
        ensures
            out.drag is None,
            out.held@ == Seq::<u32>::empty(),
            out.last_focus is None,
    {
        PointerState { drag: None, held: Vec::new(), last_focus: None }
    }
}

/// Where a button stands among those held.
pub open spec fn held_at(held: Seq<u32>, button: u32) -> nat
    decreases held.len(),
{
    if held.len() == 0 || held[0] == button {
        0
    } else {
        1 + held_at(held.skip(1), button)
    }
}

/// The buttons held once one is pressed or released.
pub open spec fn pressing(held: Seq<u32>, button: u32, pressed: bool) -> Seq<u32> {
    if pressed {
        if held.contains(button) {
            held
        } else {
            held.push(button)
        }
    } else if held.contains(button) {
        held.remove(held_at(held, button) as int)
    } else {
        held
    }
}

/// Whether a client is told: never of a press of what is held, nor of a release of what is not.
/// Clients track button state themselves and a stray release leaves them convinced a drag is
/// running.
pub open spec fn told(held: Seq<u32>, button: u32, pressed: bool) -> bool {
    pressed != held.contains(button)
}

/// The last menu opened goes first: dismissing a parent destroys its children, and a client told
/// about a popup whose parent has already gone is a protocol error.
pub open spec fn innermost_first(open: Seq<(u64, bool)>) -> Seq<u64>
    decreases open.len(),
{
    if open.len() == 0 {
        Seq::empty()
    } else if open.last().1 {
        seq![open.last().0] + innermost_first(open.drop_last())
    } else {
        innermost_first(open.drop_last())
    }
}

/// The menus to dismiss, of all that are open, outermost first, in the order to tell them: only
/// those that can be told.
pub fn dismiss_popups(open: &[(u64, bool)]) -> (out: Vec<u64>)
    ensures
        out@ == innermost_first(open@),
{
    let mut out: Vec<u64> = Vec::new();
    let mut i: usize = open.len();
    assert(open@.take(i as int) =~= open@);
    assert(out@ + innermost_first(open@) =~= innermost_first(open@));
    while i > 0
        invariant
            i <= open.len(),
            out@ + innermost_first(open@.take(i as int)) == innermost_first(open@),
        decreases i,
    {
        i = i - 1;
        let ghost before = out@;
        assert(open@.take(i + 1).drop_last() =~= open@.take(i as int));
        if open[i].1 {
            out.push(open[i].0);
            assert(out@ + innermost_first(open@.take(i as int)) =~= before + innermost_first(
                open@.take(i + 1),
            ));
        }
    }
    assert(out@ =~= out@ + innermost_first(open@.take(0)));
    out
}

proof fn lemma_held_at(held: Seq<u32>, button: u32)
    ensures
        held_at(held, button) <= held.len(),
        held.contains(button) ==> held_at(held, button) < held.len() && held[held_at(
            held,
            button,
        ) as int] == button,
        !held.contains(button) ==> held_at(held, button) == held.len(),
    decreases held.len(),
{
    if held.len() > 0 && held[0] != button {
        lemma_held_at(held.skip(1), button);
        if held.contains(button) {
            let j = choose|j: int| 0 <= j < held.len() && held[j] == button;
            assert(held.skip(1)[j - 1] == button);
        }
        if held.skip(1).contains(button) {
            let j = choose|j: int| 0 <= j < held.skip(1).len() && held.skip(1)[j] == button;
            assert(held[j + 1] == button);
        }
    }
}

impl PointerState {
    /// Work out where to send the pointer.
    pub fn motion(&mut self, aim: &Aim, windows: &[Target]) -> (out: Motion)
        ensures
            (out.focus, (out.location.0 as int, out.location.1 as int)) == sent(*aim, windows@),
            final(self).drag == old(self).drag,
            final(self).held == old(self).held,
            final(self).last_focus == (match aim.hit {
                Some((index, _)) => Some(index),
                None => None,
            }),
    {
        // Leaving a window has to be noticed, or it keeps its hover state for ever.
        self.last_focus = match aim.hit {
            Some((index, _)) => Some(index),
            None => None,
        };
        if let Some(p) = aim.popup {
            if p.window < windows.len() && p.popup < windows[p.window].popups.len() {
                let surface = windows[p.window].popups[p.popup];
                return Motion {
                    focus: Some(surface.surface),
                    location: (along(p.hit.u, surface.pixels.0), along(p.hit.v, surface.pixels.1)),
                };
            }
        }
        if let Some((index, hit)) = aim.hit {
            if index < windows.len() {
                let window = windows[index].window;
                if let Some((x, y)) = surface_position(hit.u, hit.v, window.pixels) {
                    return Motion { focus: Some(window.surface), location: (x as i128, y as i128) };
                }
            }
        }
        Motion { focus: None, location: (0, 0) }
    }

    /// Press or release a mouse button, and say whether the client is told.
    pub fn button(&mut self, button: u32, pressed: bool) -> (out: bool)
        ensures
            out == told(old(self).held@, button, pressed),
            final(self).held@ == pressing(old(self).held@, button, pressed),
            final(self).drag == old(self).drag,
            final(self).last_focus == old(self).last_focus,
    {
        let ghost held = self.held@;
        let mut at: usize = 0;
        assert(held.skip(0) =~= held);
        while at < self.held.len() && self.held[at] != button
            invariant
                held == self.held@,
                at <= self.held.len(),
                held_at(held, button) == at + held_at(held.skip(at as int), button),
            decreases self.held.len() - at,
        {
            assert(held.skip(at as int).skip(1) =~= held.skip(at + 1));
            at = at + 1;
        }
        proof {
            lemma_held_at(held, button);
            if at < held.len() {
                assert(held.skip(at as int)[0] == held[at as int]);
            }
        }
        let found: bool = at < self.held.len();
        if pressed {
            if found {
                return false;
            }
            self.held.push(button);
        } else if found {
            let _ = self.held.remove(at);
        } else {
            return false;
        }
        true
    }

    /// How to scroll the surface under the pointer: each way that is not nothing, and not at all
    /// where both are.
    pub fn scroll(&self, dx: i64, dy: i64) -> (out: Option<Scroll>)
        ensures
            out == (if dx == 0 && dy == 0 {
                None
            } else {
                Some(
                    (Scroll {
                        horizontal: if dx != 0 {
                            Some(dx)
                        } else {
                            None
                        },
                        vertical: if dy != 0 {
                            Some(dy)
                        } else {
                            None
                        },
                    }),
                )
            }),
    {
        if dx == 0 && dy == 0 {
            return None;
        }
        Some(
            Scroll {
                horizontal: if dx != 0 {
                    Some(dx)
                } else {
                    None
                },
                vertical: if dy != 0 {
                    Some(dy)
                } else {
                    None
                },
            },
        )
    }

    /// Release everything, and say what was held. Used when the pointer is taken away — a menu
    /// opening, the glasses being unplugged — so no client is left believing a button is still
    /// down.
    pub fn release_all(&mut self) -> (out: Vec<u32>)
        ensures
            out@ == old(self).held@,
            final(self).held@ == Seq::<u32>::empty(),
            final(self).drag is None,
            final(self).last_focus == old(self).last_focus,
    {
        let mut out: Vec<u32> = Vec::new();
        std::mem::swap(&mut out, &mut self.held);
        self.drag = None;
        out
    }

    pub fn is_dragging(&self) -> (out: bool)
        ensures
            out == (self.drag is Some),
    {
        self.drag.is_some()
    }
}

/// A client hears of a release exactly when it heard of the press: a button pressed and let go
/// leaves what was held as it was, and pressing it again before then says nothing more.
pub proof fn a_press_and_its_release_come_in_pairs(held: Seq<u32>, button: u32)
    requires
        !held.contains(button),
    ensures
        told(held, button, true),
        !told(held, button, false),
        !told(pressing(held, button, true), button, true),
        told(pressing(held, button, true), button, false),
        pressing(pressing(held, button, true), button, false) == held,
{
    let pressed = held.push(button);
    assert(pressed[held.len() as int] == button);
    lemma_held_at(pressed, button);
    let at = held_at(pressed, button) as int;
    if at < held.len() {
        assert(held[at] == button);
    }
    assert(pressed.remove(at) =~= held);
}

/// A ray has travelled so much of a side as it has crossed of the quad, either way: nothing where it
/// is where it was, the whole side where it has crossed the whole, and never less for going further.
pub proof fn a_ray_travels_in_proportion(now: int, from: int, side: int, further: int)
    requires
        0 <= side,
    ensures
        travelled(now, from, side) * 1_000_000_000 <= (now - from) * side < (travelled(
            now,
            from,
            side,
        ) + 1) * 1_000_000_000,
        travelled(from, from, side) == 0,
        travelled(from + 1_000_000_000, from, side) == side,
        now <= further ==> travelled(now, from, side) <= travelled(further, from, side),
{
    assert(0 * side == 0);
    assert(1_000_000_000 * side / 1_000_000_000 == side);
    assert(now <= further ==> (now - from) * side <= (further - from) * side) by (nonlinear_arith)
        requires
            0 <= side,
    ;
}

/// A resize drag goes by how far the ray has gone across and down the quad that was grabbed, each
/// way on its own: a ray that is where it was leaves the window where it was put, and one that has
/// only gone down has not gone across. Nothing else is resized, and nothing by a ray that crosses
/// nowhere.
pub proof fn a_resize_goes_by_the_ray(
    drag: Drag,
    window: u64,
    edge: Edge,
    quad: (i128, i128),
    from: (i64, i64),
    start: Placement,
    pixels: (u32, u32),
    now: (i64, i64),
)
    requires
        drag == (Drag::Resize { window, edge, quad, from, start, pixels }),
        0 <= quad.0 && 0 <= quad.1,
    ensures
        drag.about() == window,
        drag.arrived(None) is None,
        drag.arrived(Some(from)) == Some(dragged(edge, start, pixels, 0, 0)),
        now.0 == from.0 ==> drag.arrived(Some(now)) == Some(
            dragged(edge, start, pixels, 0, travelled(now.1 as int, from.1 as int, quad.1 as int)),
        ),
        now.1 == from.1 ==> drag.arrived(Some(now)) == Some(
            dragged(edge, start, pixels, travelled(now.0 as int, from.0 as int, quad.0 as int), 0),
        ),
        now.0 == from.0 + 1_000_000_000 && now.1 == from.1 + 1_000_000_000 ==> drag.arrived(
            Some(now),
        ) == Some(dragged(edge, start, pixels, quad.0 as int, quad.1 as int)),
{
    a_ray_travels_in_proportion(from.0 as int, from.0 as int, quad.0 as int, 0);
    a_ray_travels_in_proportion(from.1 as int, from.1 as int, quad.1 as int, 0);
}

/// Of two menus equally near, the one that was crossed first takes the click; one that is nearer
/// than every one before it takes it from them.
pub proof fn the_first_of_the_nearest_takes_the_click(popups: Seq<PopupHit>, next: PopupHit)
    ensures
        nearest(Seq::empty()) is None,
        nearest(seq![next]) == Some(next),
        nearest(popups) matches Some(best) ==> (best.hit.distance <= next.hit.distance ==> nearest(
            popups.push(next),
        ) == Some(best)),
        nearest(popups) matches Some(best) ==> (next.hit.distance < best.hit.distance ==> nearest(
            popups.push(next),
        ) == Some(next)),
{
    assert(popups.push(next).drop_last() =~= popups);
    assert(seq![next].drop_last() =~= Seq::empty());
    assert(seq![next].last() == next);
}

/// Where a ray is on no menu, it means the part of the window that it crosses; and where it crosses
/// none it means nothing. What it crosses is what it is said to cross.
pub proof fn a_ray_means_what_it_crosses(
    hit: Option<(usize, Hit)>,
    popups: Seq<PopupHit>,
    windows: Seq<(u32, u32)>,
    index: usize,
    at: Hit,
)
    ensures
        aimed(hit, popups, windows).hit == hit,
        aimed(hit, popups, windows).popup == nearest(popups),
        popups.len() == 0 && hit is None ==> aimed(hit, popups, windows).zone is None,
        popups.len() == 0 && hit == Some((index, at)) && index < windows.len() ==> aimed(
            hit,
            popups,
            windows,
        ).zone == Some(Frame::around(windows[index as int]).part(at.u as int, at.v as int)),
        aimed(hit, popups, windows).on_title <==> aimed(hit, popups, windows).zone == Some(
            Zone::Title,
        ),
{
}

/// A place on a menu is told in the menu's own pixels' 256ths, in proportion: across by how far
/// across its quad it is, and down by how far down, nothing at one end and all of them at the other.
pub proof fn a_menu_is_pointed_at_in_its_own_pixels(hit: Hit, pixels: (u32, u32))
    ensures
        ({
            let (x, y) = on_menu(hit, pixels);
            &&& x * 1_000_000_000 <= hit.u * (pixels.0 * 256) < (x + 1) * 1_000_000_000
            &&& y * 1_000_000_000 <= hit.v * (pixels.1 * 256) < (y + 1) * 1_000_000_000
            &&& hit.u == 0 ==> x == 0
            &&& hit.v == 0 ==> y == 0
            &&& hit.u == 1_000_000_000 ==> x == pixels.0 * 256
            &&& hit.v == 1_000_000_000 ==> y == pixels.1 * 256
        }),
{
    assert(hit.u * pixels.0 * 256 == hit.u * (pixels.0 * 256)) by (nonlinear_arith);
    assert(hit.v * pixels.1 * 256 == hit.v * (pixels.1 * 256)) by (nonlinear_arith);
    assert(0 * (pixels.0 * 256) == 0 && 0 * (pixels.1 * 256) == 0);
}

/// The pointer goes to the menu it is on, before anything behind it; failing that to the window it
/// is over, where it is over its content, in the window's own coordinates; and failing that to
/// nobody.
pub proof fn the_pointer_goes_to_what_is_in_front(
    aim: Aim,
    windows: Seq<Target>,
    p: PopupHit,
    index: usize,
    hit: Hit,
)
    ensures
        aim.popup == Some(p) && p.window < windows.len() && p.popup
            < windows[p.window as int].popups@.len() ==> {
            let menu = windows[p.window as int].popups@[p.popup as int];
            sent(aim, windows) == (Some(menu.surface), on_menu(p.hit, menu.pixels))
        },
        aim.popup is None && aim.hit == Some((index, hit)) && index < windows.len() ==> {
            let window = windows[index as int].window;
            match on_surface(window.pixels, hit.u as int, hit.v as int) {
                Some(at) => sent(aim, windows) == (Some(window.surface), at),
                None => sent(aim, windows).0 is None,
            }
        },
        aim.popup is None && aim.hit is None ==> sent(aim, windows).0 is None,
{
}

/// A press or a release is of its own button alone: every other button is held afterwards exactly
/// where it was before.
pub proof fn a_button_is_pressed_alone(held: Seq<u32>, button: u32, pressed: bool, other: u32)
    requires
        other != button,
    ensures
        pressing(held, button, pressed).contains(other) <==> held.contains(other),
        pressed ==> pressing(held, button, true).contains(button),
{
    let after = pressing(held, button, pressed);
    if pressed && !held.contains(button) {
        assert(after[held.len() as int] == button);
    }
    if !pressed && held.contains(button) {
        lemma_held_at(held, button);
        let at = held_at(held, button) as int;
        if held.contains(other) {
            let k = choose|k: int| 0 <= k < held.len() && held[k] == other;
            if k < at {
                assert(after[k] == other);
            } else {
                assert(after[k - 1] == other);
            }
        }
        if after.contains(other) {
            let k = choose|k: int| 0 <= k < after.len() && after[k] == other;
            if k < at {
                assert(held[k] == other);
            } else {
                assert(held[k + 1] == other);
            }
        }
    } else {
        if held.contains(other) {
            let k = choose|k: int| 0 <= k < held.len() && held[k] == other;
            assert(after[k] == other);
        }
        if after.contains(other) {
            let k = choose|k: int| 0 <= k < after.len() && after[k] == other;
            if k < held.len() {
                assert(held[k] == other);
            }
        }
    }
}

/// The menus that are told are those that can be, the last opened first.
pub proof fn the_last_menu_opened_goes_first(open: Seq<(u64, bool)>)
    ensures
        innermost_first(open) == open.filter(|m: (u64, bool)| m.1).map_values(
            |m: (u64, bool)| m.0,
        ).reverse(),
    decreases open.len(),
{
    reveal(Seq::filter);
    let can = |m: (u64, bool)| m.1;
    let menu = |m: (u64, bool)| m.0;
    if open.len() > 0 {
        the_last_menu_opened_goes_first(open.drop_last());
        let before = open.drop_last().filter(can);
        assert(before.push(open.last()).map_values(menu).reverse() =~= seq![open.last().0]
            + before.map_values(menu).reverse());
    } else {
        assert(open.filter(can).map_values(menu).reverse() =~= Seq::empty());
    }
}

} // verus!
