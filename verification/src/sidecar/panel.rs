//! What a finger on the panel means.
//!
//! The panel decides *what was meant* and its owner decides *how to do it*. Keeping the mixer and
//! the backlight out of here is what lets the whole interaction -- where a finger landed, what it
//! grabbed, what it chose -- be stated with no panel, no mixer and no backlight.

use vstd::prelude::*;
use crate::devices::{Audio, Direction, side};
use crate::sidecar::{
    CARD_GAP, HEADER_BUTTON_WIDTH, HEADER_HEIGHT, HOLD_TO_EXIT, Knob, Levels, MARGIN,
    MINIMUM_BRIGHTNESS, PAGE_BUTTON_HEIGHT, PIXEL, Page, Rect, Rows, Size, at_least, entry_at,
    laid_out, lay_out, track_in,
};
use crate::system::{WHOLE, clamped, floor_div};

verus! {

/// One finger on the digitiser, which reports where it is in millionths of the panel.
#[derive(Debug, Clone, Copy, PartialEq, Eq, Structural)]
pub struct Contact {
    pub slot: usize,
    pub x: i32,
    pub y: i32,
}

/// What the keyboard has under a finger: its sound toggle, or the key of a code.
#[derive(Debug, Clone, Copy, PartialEq, Eq, Structural)]
pub struct Under {
    pub toggle: bool,
    pub key: Option<u32>,
}

/// What the touchscreen reports.
#[derive(Debug, Clone, Copy, PartialEq, Eq, Structural)]
pub enum TouchEvent {
    Down(Contact, Under),
    Motion(Contact),
    Up { slot: usize },
}

/// What a touch asked the machine to do.
#[derive(Debug, Clone, Copy, PartialEq, Eq, Structural)]
pub enum Action {
    /// A slider is being dragged; ask [`Sidecar::knob_value`] where it is now.
    Moved(Knob),
    /// Make this node the default for its direction.
    ChooseDevice(Direction, u32),
    /// The key of this code, on the panel's keyboard, was touched.
    ///
    /// The key rather than the keystroke: latching and releasing modifiers is the keyboard's
    /// own business, and it is shared with the one hanging in the world. Deciding it twice
    /// would let shift be on in one place and off in the other.
    PressKey(u32),
    /// The speaker above the keys was tapped. Flip the click and remember the choice.
    ToggleKeyClick,
    /// The exit button was held long enough. End the session and go back to the desktop.
    LeaveSession,
}

/// One coordinate of clip space, as a line over the layout's own:
/// `(per_x * x + per_y * y + constant) / over`.
#[derive(Debug, Clone, Copy, PartialEq, Eq, Structural)]
pub struct Line {
    pub per_x: i64,
    pub per_y: i64,
    pub constant: i64,
    pub over: i64,
}

impl Line {
    /// The line's value times what it is over.
    pub open spec fn at(self, x: int, y: int) -> int {
        self.per_x * x + self.per_y * y + self.constant
    }
}

/// From layout units to clip space.
#[derive(Debug, Clone, Copy, PartialEq, Eq, Structural)]
pub struct Projection {
    pub x: Line,
    pub y: Line,
}

/// The keyboard's own shape: so many units wide to so many tall.
#[derive(Debug, Clone, Copy, PartialEq, Eq, Structural)]
pub struct Aspect {
    pub wide: u32,
    pub tall: u32,
}

/// What the panel has going on.
pub struct Panel {
    pub held: Option<(usize, Knob)>,
    pub touches: Seq<(usize, i64, i64)>,
    pub page: Page,
    pub pressed: Seq<(usize, u32)>,
    pub exit_hold: Option<(usize, u64)>,
}

/// The Deck's own screen.
#[derive(Debug, Clone)]
pub struct Sidecar {
    /// The texture that solid fills are drawn with.
    pub white: u32,
    /// Landscape size, i.e. the panel's dimensions swapped if it is mounted portrait.
    pub size: Size,
    pub portrait: bool,
    /// Which finger is holding which knob.
    ///
    /// A slider has to keep following the finger that grabbed it even once that finger has
    /// wandered off the bar, which is how every other slider on every other machine behaves.
    pub held: Option<(usize, Knob)>,
    /// Live contacts, drawn so a touch is visibly registered.
    pub touches: Vec<(usize, i64, i64)>,
    pub page: Page,
    /// The key under each live finger, so a pressed key can be drawn as pressed.
    pub pressed: Vec<(usize, u32)>,
    /// Which finger is holding the exit button, and since when. Cleared the moment it lifts or
    /// slides off, so backing out is simply a matter of moving away before it fills.
    pub exit_hold: Option<(usize, u64)>,
}

/// Every contact but one finger's.
pub open spec fn other_touches(slot: usize) -> spec_fn((usize, i64, i64)) -> bool {
    |t: (usize, i64, i64)| t.0 != slot
}

/// Every key but one finger's.
pub open spec fn other_keys(slot: usize) -> spec_fn((usize, u32)) -> bool {
    |t: (usize, u32)| t.0 != slot
}

/// One finger's contact moved, and every other left alone.
pub open spec fn moved(touches: Seq<(usize, i64, i64)>, slot: usize, x: i64, y: i64) -> Seq<
    (usize, i64, i64),
> {
    Seq::new(
        touches.len(),
        |i: int|
            if touches[i].0 == slot {
                (slot, x, y)
            } else {
                touches[i]
            },
    )
}

/// Where a finger is, across the panel.
pub open spec fn finger(touches: Seq<(usize, i64, i64)>, slot: usize) -> Option<i64>
    decreases touches.len(),
{
    if touches.len() == 0 {
        None
    } else if touches[0].0 == slot {
        Some(touches[0].1)
    } else {
        finger(touches.skip(1), slot)
    }
}

/// Whether every finger is somewhere a digitiser can report.
pub open spec fn in_reach(touches: Seq<(usize, i64, i64)>) -> bool {
    forall|i: int|
        #![trigger touches[i]]
        0 <= i < touches.len() ==> -0x20_0000_0000_0000 < touches[i].1 < 0x20_0000_0000_0000
            && -0x20_0000_0000_0000 < touches[i].2 < 0x20_0000_0000_0000
}

proof fn lemma_others_in_reach(touches: Seq<(usize, i64, i64)>, slot: usize)
    requires
        in_reach(touches),
    ensures
        in_reach(touches.filter(other_touches(slot))),
    decreases touches.len(),
{
    reveal(Seq::filter);
    if touches.len() > 0 {
        assert(in_reach(touches.drop_last()));
        lemma_others_in_reach(touches.drop_last(), slot);
        assert(touches[touches.len() - 1] == touches.last());
    }
}

/// The width of a header button.
pub open spec fn button_width(size: Size) -> int {
    if size.full() * 21 / 50 < HEADER_BUTTON_WIDTH {
        size.full() * 21 / 50
    } else {
        HEADER_BUTTON_WIDTH as int
    }
}

/// The button that ends the session.
pub open spec fn exit_button_of(size: Size) -> Rect {
    Rect {
        x: MARGIN,
        y: (MARGIN + (HEADER_HEIGHT - PAGE_BUTTON_HEIGHT) / 2) as i64,
        w: button_width(size) as i64,
        h: PAGE_BUTTON_HEIGHT,
    }
}

/// The button that swaps pages.
pub open spec fn page_button_of(size: Size) -> Rect {
    Rect {
        x: (MARGIN + size.full() - button_width(size)) as i64,
        y: (MARGIN + (HEADER_HEIGHT - PAGE_BUTTON_HEIGHT) / 2) as i64,
        w: button_width(size) as i64,
        h: PAGE_BUTTON_HEIGHT,
    }
}

/// A point of the digitiser, on the layout.
///
/// The panel is mounted portrait and [`Sidecar::projection`] turns the image a quarter turn to
/// suit; a touch has to make the same turn or it lands somewhere plausible and wrong.
pub open spec fn touched(size: Size, portrait: bool, u: int, v: int) -> (int, int) {
    if portrait {
        (size.w * PIXEL * v / (WHOLE as int), size.h * PIXEL * (WHOLE - u) / (WHOLE as int))
    } else {
        (size.w * PIXEL * u / (WHOLE as int), size.h * PIXEL * v / (WHOLE as int))
    }
}

/// The first knob whose card is under a point.
pub open spec fn grabbed(size: Size, levels: Levels, x: int, y: int) -> Option<Knob> {
    if size.slider(levels, Knob::Glasses) matches Some(card) && card.has(x, y) {
        Some(Knob::Glasses)
    } else if size.slider(levels, Knob::Screen) matches Some(card) && card.has(x, y) {
        Some(Knob::Screen)
    } else if size.slider(levels, Knob::Volume) matches Some(card) && card.has(x, y) {
        Some(Knob::Volume)
    } else {
        None
    }
}

/// The device whose entry is under a point.
pub open spec fn chosen(size: Size, audio: Audio, x: int, y: int) -> Option<(Direction, u32)> {
    let outputs = side(audio, Direction::Output);
    let inputs = side(audio, Direction::Input);
    match entry_at(size.device_card(Direction::Output), outputs.len() as int, x, y) {
        Some(index) => Some((Direction::Output, outputs[index].id)),
        None => match entry_at(size.device_card(Direction::Input), inputs.len() as int, x, y) {
            Some(index) => Some((Direction::Input, inputs[index].id)),
            None => None,
        },
    }
}

impl Panel {
    /// What a finger landing does.
    pub open spec fn down(
        self,
        size: Size,
        portrait: bool,
        levels: Levels,
        audio: Audio,
        now: u64,
        c: Contact,
        under: Under,
    ) -> (Panel, Option<Action>) {
        let (x, y) = touched(size, portrait, c.x as int, c.y as int);
        let seen = Panel {
            touches: self.touches.filter(other_touches(c.slot)).push((c.slot, x as i64, y as i64)),
            ..self
        };
        if page_button_of(size).has(x, y) {
            (Panel { page: self.page.swapped(), ..seen }, None)
        } else if exit_button_of(size).has(x, y) {
            (Panel { exit_hold: Some((c.slot, now)), ..seen }, None)
        } else if self.page == Page::Keyboard {
            if under.toggle {
                (seen, Some(Action::ToggleKeyClick))
            } else if under.key is Some {
                (
                    Panel {
                        pressed: self.pressed.filter(other_keys(c.slot)).push(
                            (c.slot, under.key->0),
                        ),
                        ..seen
                    },
                    Some(Action::PressKey(under.key->0)),
                )
            } else {
                (seen, None)
            }
        } else if self.held is Some {
            (seen, None)
        } else {
            match grabbed(size, levels, x, y) {
                Some(knob) => (
                    Panel { held: Some((c.slot, knob)), ..seen },
                    Some(Action::Moved(knob)),
                ),
                None => (
                    seen,
                    match chosen(size, audio, x, y) {
                        Some((direction, id)) => Some(Action::ChooseDevice(direction, id)),
                        None => None,
                    },
                ),
            }
        }
    }

    /// What a finger moving does.
    pub open spec fn motion(self, size: Size, portrait: bool, c: Contact) -> (
        Panel,
        Option<Action>,
    ) {
        let (x, y) = touched(size, portrait, c.x as int, c.y as int);
        (
            Panel {
                touches: moved(self.touches, c.slot, x as i64, y as i64),
                exit_hold: if (self.exit_hold matches Some(hold) && hold.0 == c.slot)
                    && !exit_button_of(size).has(x, y) {
                    None
                } else {
                    self.exit_hold
                },
                ..self
            },
            match self.held {
                Some((slot, knob)) => if slot == c.slot {
                    Some(Action::Moved(knob))
                } else {
                    None
                },
                None => None,
            },
        )
    }

    /// What a finger lifting does.
    pub open spec fn up(self, slot: usize) -> Panel {
        Panel {
            touches: self.touches.filter(other_touches(slot)),
            pressed: self.pressed.filter(other_keys(slot)),
            exit_hold: if self.exit_hold matches Some(hold) && hold.0 == slot {
                None
            } else {
                self.exit_hold
            },
            held: if self.held matches Some(held) && held.0 == slot {
                None
            } else {
                self.held
            },
            ..self
        }
    }

    /// What one report of the touchscreen does.
    pub open spec fn step(
        self,
        size: Size,
        portrait: bool,
        levels: Levels,
        audio: Audio,
        now: u64,
        event: TouchEvent,
    ) -> (Panel, Option<Action>) {
        match event {
            TouchEvent::Down(c, under) => self.down(size, portrait, levels, audio, now, c, under),
            TouchEvent::Motion(c) => self.motion(size, portrait, c),
            TouchEvent::Up { slot } => (self.up(slot), None),
        }
    }

    /// What a run of reports does.
    pub open spec fn run(
        self,
        size: Size,
        portrait: bool,
        levels: Levels,
        audio: Audio,
        now: u64,
        events: Seq<TouchEvent>,
    ) -> (Panel, Seq<Action>)
        decreases events.len(),
    {
        if events.len() == 0 {
            (self, Seq::empty())
        } else {
            let (before, asked) = self.run(
                size,
                portrait,
                levels,
                audio,
                now,
                events.drop_last(),
            );
            let (after, more) = before.step(size, portrait, levels, audio, now, events.last());
            (
                after,
                match more {
                    Some(action) => asked.push(action),
                    None => asked,
                },
            )
        }
    }

    /// What a frame passing does: the hold completes on the clock, not on an event.
    pub open spec fn settled(self, now: u64) -> (Panel, Option<Action>) {
        match self.exit_hold {
            Some((_, since)) => if now - since >= HOLD_TO_EXIT {
                (Panel { exit_hold: None, ..self }, Some(Action::LeaveSession))
            } else {
                (self, None)
            },
            None => (self, None),
        }
    }
}

/// A list with each run of the same action left as one.
pub open spec fn deduped(actions: Seq<Action>) -> Seq<Action>
    decreases actions.len(),
{
    if actions.len() == 0 {
        actions
    } else if actions.len() >= 2 && actions.last() == actions[actions.len() - 2] {
        deduped(actions.drop_last())
    } else {
        deduped(actions.drop_last()).push(actions.last())
    }
}

proof fn lemma_deduped_ends_alike(actions: Seq<Action>)
    requires
        actions.len() > 0,
    ensures
        deduped(actions).len() > 0,
        deduped(actions).last() == actions.last(),
    decreases actions.len(),
{
    if actions.len() >= 2 && actions.last() == actions[actions.len() - 2] {
        lemma_deduped_ends_alike(actions.drop_last());
    }
}

fn note(out: &mut Vec<Action>, action: Action, Ghost(all): Ghost<Seq<Action>>)
    requires
        old(out)@ == deduped(all),
    ensures
        final(out)@ == deduped(all.push(action)),
{
    let n: usize = out.len();
    proof {
        assert(all.push(action).drop_last() =~= all);
        if all.len() > 0 {
            lemma_deduped_ends_alike(all);
        }
    }
    if n > 0 && out[n - 1] == action {
        return;
    }
    out.push(action);
}

/// Keep every contact but one finger's.
fn forget_touch(touches: &mut Vec<(usize, i64, i64)>, slot: usize)
    ensures
        final(touches)@ == old(touches)@.filter(other_touches(slot)),
{
    let ghost was = touches@;
    let mut kept: Vec<(usize, i64, i64)> = Vec::new();
    let mut i: usize = 0;
    while i < touches.len()
        invariant
            i <= touches.len(),
            touches@ == was,
            kept@ == was.take(i as int).filter(other_touches(slot)),
        decreases touches.len() - i,
    {
        proof {
            reveal(Seq::filter);
            assert(was.take(i + 1).drop_last() =~= was.take(i as int));
        }
        if touches[i].0 != slot {
            kept.push(touches[i]);
        }
        i = i + 1;
    }
    assert(was.take(i as int) =~= was);
    *touches = kept;
}

/// Keep every key but one finger's.
fn forget_key(pressed: &mut Vec<(usize, u32)>, slot: usize)
    ensures
        final(pressed)@ == old(pressed)@.filter(other_keys(slot)),
{
    let ghost was = pressed@;
    let mut kept: Vec<(usize, u32)> = Vec::new();
    let mut i: usize = 0;
    while i < pressed.len()
        invariant
            i <= pressed.len(),
            pressed@ == was,
            kept@ == was.take(i as int).filter(other_keys(slot)),
        decreases pressed.len() - i,
    {
        proof {
            reveal(Seq::filter);
            assert(was.take(i + 1).drop_last() =~= was.take(i as int));
        }
        if pressed[i].0 != slot {
            kept.push(pressed[i]);
        }
        i = i + 1;
    }
    assert(was.take(i as int) =~= was);
    *pressed = kept;
}

fn move_touch(touches: &mut Vec<(usize, i64, i64)>, slot: usize, x: i64, y: i64)
    ensures
        final(touches)@ == moved(old(touches)@, slot, x, y),
{
    let ghost was = touches@;
    let mut i: usize = 0;
    while i < touches.len()
        invariant
            i <= touches.len(),
            touches.len() == was.len(),
            forall|j: int| 0 <= j < i ==> touches@[j] == #[trigger] moved(was, slot, x, y)[j],
            forall|j: int| i <= j < was.len() ==> touches@[j] == was[j],
        decreases touches.len() - i,
    {
        if touches[i].0 == slot {
            touches.set(i, (slot, x, y));
        }
        i = i + 1;
    }
    assert(touches@ =~= moved(was, slot, x, y));
}

proof fn lemma_touched(size: Size, portrait: bool, u: i32, v: i32)
    ensures
        -0x20_0000_0000_0000 < touched(size, portrait, u as int, v as int).0 < 0x20_0000_0000_0000,
        -0x20_0000_0000_0000 < touched(size, portrait, u as int, v as int).1 < 0x20_0000_0000_0000,
        -0x1_0000_0000_0000_0000_0000 < size.w * PIXEL * u < 0x1_0000_0000_0000_0000_0000,
        -0x1_0000_0000_0000_0000_0000 < size.w * PIXEL * v < 0x1_0000_0000_0000_0000_0000,
        -0x1_0000_0000_0000_0000_0000 < size.h * PIXEL * v < 0x1_0000_0000_0000_0000_0000,
        -0x1_0000_0000_0000_0000_0000 < size.h * PIXEL * (WHOLE - u) < 0x1_0000_0000_0000_0000_0000,
{
    lemma_share(size.w * PIXEL, u as int);
    lemma_share(size.w * PIXEL, v as int);
    lemma_share(size.h * PIXEL, v as int);
    lemma_share(size.h * PIXEL, WHOLE - u);
}

proof fn lemma_share(length: int, share: int)
    requires
        0 <= length <= 1_288_490_188_500,
        -2_147_483_648 <= share <= 2_148_483_648,
    ensures
        -0x1_0000_0000_0000_0000_0000 < length * share < 0x1_0000_0000_0000_0000_0000,
        -0x20_0000_0000_0000 < length * share / 1_000_000 < 0x20_0000_0000_0000,
{
    assert(-2_769_000_000_000_000_000_000 < length * share < 2_769_000_000_000_000_000_000)
        by (nonlinear_arith)
        requires
            0 <= length <= 1_288_490_188_500,
            -2_147_483_648 <= share <= 2_148_483_648,
    ;
}

impl Sidecar {
    /// What the panel has going on.
    pub open spec fn view(self) -> Panel {
        Panel {
            held: self.held,
            touches: self.touches@,
            page: self.page,
            pressed: self.pressed@,
            exit_hold: self.exit_hold,
        }
    }

    /// Every finger is somewhere a digitiser can report.
    pub open spec fn wf(self) -> bool {
        in_reach(self.touches@)
    }

    /// A panel of a size, in its own pixels. Everything is laid out landscape and turned at the
    /// end, so the working size of a portrait panel is its dimensions the other way round.
    pub fn new(white: u32, panel: (u32, u32)) -> (out: Sidecar)
        ensures
            out.wf(),
            out.white == white,
            out.portrait == (panel.1 > panel.0),
            out.size == (if panel.1 > panel.0 {
                (Size { w: panel.1, h: panel.0 })
            } else {
                (Size { w: panel.0, h: panel.1 })
            }),
            out@ == (Panel {
                held: None,
                touches: Seq::empty(),
                page: Page::Dashboard,
                pressed: Seq::empty(),
                exit_hold: None,
            }),
    {
        let portrait: bool = panel.1 > panel.0;
        let size = if portrait {
            Size { w: panel.1, h: panel.0 }
        } else {
            Size { w: panel.0, h: panel.1 }
        };
        let out = Sidecar {
            white,
            size,
            portrait,
            held: None,
            touches: Vec::new(),
            page: Page::default(),
            pressed: Vec::new(),
            exit_hold: None,
        };
        assert(out.touches@ =~= Seq::empty());
        assert(out.pressed@ =~= Seq::empty());
        out
    }

    pub fn page(&self) -> (out: Page)
        ensures
            out == self.page,
    {
        self.page
    }

    pub fn show(&mut self, page: Page)
        ensures
            *final(self) == (Sidecar { page, ..*old(self) }),
    {
        self.page = page;
    }

    /// Where every row sits.
    pub fn rows(&self, levels: Levels) -> (out: Rows)
        ensures
            laid_out(self.size, levels, out),
    {
        lay_out(self.size, levels)
    }

    /// The button that swaps pages, at the right-hand end of the header.
    ///
    /// In the header rather than on a card of its own, because it is the one control that is
    /// not about a reading — putting it in the grid would make it look like a fourth setting.
    pub fn page_button(&self) -> (out: Rect)
        ensures
            out == page_button_of(self.size),
            out.fits(),
    {
        let w: i64 = button_wide(self.size);
        let full: i64 = self.size.w as i64 * PIXEL - 2 * MARGIN;
        Rect {
            x: MARGIN + full - w,
            y: MARGIN + (HEADER_HEIGHT - PAGE_BUTTON_HEIGHT) / 2,
            w,
            h: PAGE_BUTTON_HEIGHT,
        }
    }

    /// The button that ends the session, at the left-hand end of the header.
    ///
    /// The far end from the page button on purpose. These are the only two controls in the
    /// header, one is harmless and the other throws the session away, and putting them within
    /// a thumb's width of each other is how the harmless one gets mis-hit into the other.
    pub fn exit_button(&self) -> (out: Rect)
        ensures
            out == exit_button_of(self.size),
            out.fits(),
    {
        Rect {
            x: MARGIN,
            y: MARGIN + (HEADER_HEIGHT - PAGE_BUTTON_HEIGHT) / 2,
            w: button_wide(self.size),
            h: PAGE_BUTTON_HEIGHT,
        }
    }

    /// Where the clock starts: clear of the exit button.
    pub fn clock_x(&self) -> (out: i64)
        ensures
            out == exit_button_of(self.size).x + exit_button_of(self.size).w + CARD_GAP,
    {
        let button = self.exit_button();
        button.x + button.w + CARD_GAP
    }

    /// Pose the exit hold at a share of the whole, in millionths, for looking at the fill: state
    /// that only exists mid-gesture is state no still frame can otherwise show.
    pub fn pose_exit_hold(&mut self, progress: u32, now: u64)
        ensures
            *final(self) == (Sidecar {
                exit_hold: {
                    let elapsed = clamped(progress as int) * 1_200;
                    if now >= elapsed {
                        Some((0, (now - elapsed) as u64))
                    } else {
                        None
                    }
                },
                ..*old(self)
            }),
    {
        let share: u32 = if progress > WHOLE {
            WHOLE
        } else {
            progress
        };
        let elapsed: u64 = share as u64 * 1_200;
        self.exit_hold = if now >= elapsed {
            Some((0, now - elapsed))
        } else {
            None
        };
    }

    /// How far through the exit hold we are, in millionths. The button fills by this much.
    pub fn exit_progress(&self, now: u64) -> (out: u32)
        ensures
            out == (match self.exit_hold {
                Some((_, since)) => clamped((now - since) * WHOLE / (HOLD_TO_EXIT as int)),
                None => 0,
            }),
            out <= WHOLE,
    {
        match self.exit_hold {
            Some((_, since)) => {
                if now <= since {
                    proof {
                        lemma_at_most_zero((now - since) * WHOLE, HOLD_TO_EXIT as int);
                    }
                    0
                } else {
                    let share: u64 = (now - since) / 1_200;
                    assert(share == (now - since) * 1_000_000 / 1_200_000_000);
                    if share > WHOLE as u64 {
                        WHOLE
                    } else {
                        share as u32
                    }
                }
            },
            None => 0,
        }
    }

    /// Call once a frame, whether or not any touch arrived.
    ///
    /// The hold completes on the clock, not on an event: a finger resting perfectly still
    /// generates no motion, so waiting for one to notice would mean the button only fired if
    /// you wobbled.
    pub fn settle(&mut self, now: u64) -> (out: Option<Action>)
        ensures
            (final(self)@, out) == old(self)@.settled(now),
            old(self).wf() ==> final(self).wf(),
            final(self).white == old(self).white,
            final(self).size == old(self).size,
            final(self).portrait == old(self).portrait,
    {
        match self.exit_hold {
            Some((_, since)) => {
                if now >= since && now - since >= HOLD_TO_EXIT {
                    self.exit_hold = None;
                    return Some(Action::LeaveSession);
                }
                None
            },
            None => None,
        }
    }

    /// A touch, in the digitiser's millionths, as a point of the layout.
    pub fn touch_to_layout(&self, u: i32, v: i32) -> (out: (i64, i64))
        ensures
            (out.0 as int, out.1 as int) == touched(self.size, self.portrait, u as int, v as int),
    {
        proof {
            lemma_touched(self.size, self.portrait, u, v);
        }
        let w: i128 = self.size.w as i128 * PIXEL as i128;
        let h: i128 = self.size.h as i128 * PIXEL as i128;
        if self.portrait {
            let x: i128 = floor_div(w * v as i128, WHOLE as u64);
            let y: i128 = floor_div(h * (WHOLE as i128 - u as i128), WHOLE as u64);
            (x as i64, y as i64)
        } else {
            let x: i128 = floor_div(w * u as i128, WHOLE as u64);
            let y: i128 = floor_div(h * v as i128, WHOLE as u64);
            (x as i64, y as i64)
        }
    }

    fn lands(&mut self, levels: Levels, audio: &Audio, now: u64, c: Contact, under: Under) -> (out:
        Option<Action>)
        ensures
            (final(self)@, out) == old(self)@.down(
                old(self).size,
                old(self).portrait,
                levels,
                *audio,
                now,
                c,
                under,
            ),
            old(self).wf() ==> final(self).wf(),
            final(self).white == old(self).white,
            final(self).size == old(self).size,
            final(self).portrait == old(self).portrait,
    {
        let (x, y) = self.touch_to_layout(c.x, c.y);
        proof {
            lemma_touched(self.size, self.portrait, c.x, c.y);
            if self.wf() {
                lemma_others_in_reach(self.touches@, c.slot);
            }
        }
        forget_touch(&mut self.touches, c.slot);
        self.touches.push((c.slot, x, y));

        // The page button is tested before anything else and on either page, so there is always a
        // way back.
        if self.page_button().contains(x, y) {
            self.page = self.page.other();
            return None;
        }
        // Exit starts a hold rather than doing anything. Nothing is asked for here; `settle`
        // decides, once the finger has stayed put long enough.
        if self.exit_button().contains(x, y) {
            self.exit_hold = Some((c.slot, now));
            return None;
        }
        if self.page == Page::Keyboard {
            if under.toggle {
                return Some(Action::ToggleKeyClick);
            }
            // Typed on the way down, like every other touch keyboard. Waiting for the lift puts a
            // visible delay between the tap and the character.
            return match under.key {
                Some(key) => {
                    forget_key(&mut self.pressed, c.slot);
                    self.pressed.push((c.slot, key));
                    Some(Action::PressKey(key))
                },
                None => None,
            };
        }
        // First finger down on a knob owns it. A second one arriving on the same bar must not
        // steal it, or resting a palm mid-drag jumps the value.
        if self.held.is_some() {
            return None;
        }
        let rows = self.rows(levels);
        proof {
            self.size.lemma_placed(levels, rows);
        }
        match rows.knob_at(x, y) {
            Some((knob, _)) => {
                self.held = Some((c.slot, knob));
                Some(Action::Moved(knob))
            },
            // Chosen on the way down rather than on release. A device list is a set of buttons,
            // not a slider, so there is nothing to drag and waiting for the lift only adds a
            // delay before the sound moves.
            None => match rows.device_at(x, y, audio) {
                Some((direction, index)) => {
                    let device = &audio.list(direction)[index];
                    Some(Action::ChooseDevice(direction, device.id))
                },
                None => None,
            },
        }
    }

    fn step(&mut self, levels: Levels, audio: &Audio, now: u64, event: TouchEvent) -> (out: Option<
        Action,
    >)
        ensures
            (final(self)@, out) == old(self)@.step(
                old(self).size,
                old(self).portrait,
                levels,
                *audio,
                now,
                event,
            ),
            old(self).wf() ==> final(self).wf(),
            final(self).white == old(self).white,
            final(self).size == old(self).size,
            final(self).portrait == old(self).portrait,
    {
        match event {
            TouchEvent::Down(c, under) => self.lands(levels, audio, now, c, under),
            TouchEvent::Motion(c) => {
                let (x, y) = self.touch_to_layout(c.x, c.y);
                proof {
                    lemma_touched(self.size, self.portrait, c.x, c.y);
                }
                move_touch(&mut self.touches, c.slot, x, y);
                // Sliding off cancels. That is the way out of a hold begun by accident, and it is
                // the one every press-and-hold control on a phone already has.
                if let Some((slot, _)) = self.exit_hold {
                    if slot == c.slot && !self.exit_button().contains(x, y) {
                        self.exit_hold = None;
                    }
                }
                match self.held {
                    Some((slot, knob)) => if slot == c.slot {
                        Some(Action::Moved(knob))
                    } else {
                        None
                    },
                    None => None,
                }
            },
            TouchEvent::Up { slot } => {
                proof {
                    if self.wf() {
                        lemma_others_in_reach(self.touches@, slot);
                    }
                }
                forget_touch(&mut self.touches, slot);
                forget_key(&mut self.pressed, slot);
                if let Some((holding, _)) = self.exit_hold {
                    if holding == slot {
                        self.exit_hold = None;
                    }
                }
                if let Some((holding, _)) = self.held {
                    if holding == slot {
                        self.held = None;
                    }
                }
                None
            },
        }
    }

    /// Feed the touchscreen, and say what the machine should now do.
    pub fn touch(&mut self, events: &[TouchEvent], levels: Levels, audio: &Audio, now: u64) -> (out:
        Vec<Action>)
        ensures
            final(self)@ == old(self)@.run(
                old(self).size,
                old(self).portrait,
                levels,
                *audio,
                now,
                events@,
            ).0,
            out@ == deduped(
                old(self)@.run(
                    old(self).size,
                    old(self).portrait,
                    levels,
                    *audio,
                    now,
                    events@,
                ).1,
            ),
            old(self).wf() ==> final(self).wf(),
            final(self).white == old(self).white,
            final(self).size == old(self).size,
            final(self).portrait == old(self).portrait,
    {
        let mut out: Vec<Action> = Vec::new();
        let mut i: usize = 0;
        let ghost first = self@;
        while i < events.len()
            invariant
                i <= events.len(),
                first == old(self)@,
                old(self).wf() ==> self.wf(),
                self.white == old(self).white,
                self.size == old(self).size,
                self.portrait == old(self).portrait,
                self@ == first.run(
                    self.size,
                    self.portrait,
                    levels,
                    *audio,
                    now,
                    events@.take(i as int),
                ).0,
                out@ == deduped(
                    first.run(
                        self.size,
                        self.portrait,
                        levels,
                        *audio,
                        now,
                        events@.take(i as int),
                    ).1,
                ),
            decreases events.len() - i,
        {
            assert(events@.take(i + 1).drop_last() =~= events@.take(i as int));
            let ghost asked = first.run(
                self.size,
                self.portrait,
                levels,
                *audio,
                now,
                events@.take(i as int),
            ).1;
            if let Some(action) = self.step(levels, audio, now, events[i]) {
                note(&mut out, action, Ghost(asked));
            }
            i = i + 1;
        }
        assert(events@.take(i as int) =~= events@);
        out
    }

    /// The value a held knob should now take, in millionths, from where its finger is.
    ///
    /// Read from the finger's own position rather than passed along with the event, so that a
    /// drag which has wandered off the bar still tracks horizontally.
    pub fn knob_value(&self, knob: Knob, levels: Levels) -> (out: Option<u32>)
        ensures
            out == knob_reading(self@, self.size, levels, knob),
    {
        let (slot, held) = match self.held {
            Some(held) => held,
            None => {
                return None;
            },
        };
        if held != knob {
            return None;
        }
        let mut i: usize = 0;
        assert(self.touches@.skip(0) =~= self.touches@);
        while i < self.touches.len() && self.touches[i].0 != slot
            invariant
                i <= self.touches.len(),
                finger(self.touches@.skip(i as int), slot) == finger(self.touches@, slot),
            decreases self.touches.len() - i,
        {
            assert(self.touches@.skip(i as int).skip(1) =~= self.touches@.skip(i + 1));
            i = i + 1;
        }
        if i >= self.touches.len() {
            return None;
        }
        let x: i64 = self.touches[i].1;
        assert(finger(self.touches@.skip(i as int), slot) == Some(x));
        let rows = self.rows(levels);
        proof {
            self.size.lemma_placed(levels, rows);
        }
        match rows.slider(knob) {
            Some(card) => {
                let track = Rows::track(card);
                let share: u32 = crate::sidecar::along(track, x);
                // A backlight dragged to zero turns off the screen the slider is drawn on, and
                // there is then nothing to see in order to drag it back. The glasses get the same
                // floor for the same reason turned around.
                if knob != Knob::Volume && share < MINIMUM_BRIGHTNESS {
                    Some(MINIMUM_BRIGHTNESS)
                } else {
                    Some(share)
                }
            },
            None => None,
        }
    }

    /// Landscape units to clip space, with a quarter turn for a portrait panel.
    ///
    /// A quarter turn and nothing else: the panel's top edge runs along its long side, so the
    /// whole image turns to suit. The landscape layout reads top-down and clip space has its
    /// origin at the bottom, so that one flips.
    pub fn projection(&self) -> (out: Projection)
        ensures
            out == projection_of(self.size, self.portrait),
    {
        let w: i64 = self.size.w as i64 * PIXEL;
        let h: i64 = self.size.h as i64 * PIXEL;
        let across = Line { per_x: 2, per_y: 0, constant: -w, over: w };
        let upward = Line { per_x: 0, per_y: -2, constant: h, over: h };
        if self.portrait {
            Projection { x: upward, y: across }
        } else {
            Projection { x: across, y: upward }
        }
    }
}

/// Landscape units to clip space.
pub open spec fn projection_of(size: Size, portrait: bool) -> Projection {
    let w = (size.w * PIXEL) as i64;
    let h = (size.h * PIXEL) as i64;
    let across = Line { per_x: 2, per_y: 0, constant: (-w) as i64, over: w };
    let upward = Line { per_x: 0, per_y: -2i64, constant: h, over: h };
    if portrait {
        Projection { x: upward, y: across }
    } else {
        Projection { x: across, y: upward }
    }
}

/// What a knob should now read, where a finger has hold of it.
pub open spec fn knob_reading(panel: Panel, size: Size, levels: Levels, knob: Knob) -> Option<u32> {
    match panel.held {
        Some((slot, held)) => match finger(panel.touches, slot) {
            Some(x) => match size.slider(levels, knob) {
                Some(card) => if held == knob {
                    let share = track_in(card).across(x as int);
                    Some(
                        (if knob == Knob::Volume {
                            share
                        } else {
                            at_least(share, MINIMUM_BRIGHTNESS as int)
                        }) as u32,
                    )
                } else {
                    None
                },
                None => None,
            },
            None => None,
        },
        None => None,
    }
}

proof fn lemma_at_most_zero(n: int, d: int)
    requires
        n <= 0,
        d > 0,
    ensures
        clamped(n / d) == 0,
{
    assert(n / d <= 0) by (nonlinear_arith)
        requires
            n <= 0,
            d > 0,
    ;
}

fn button_wide(size: Size) -> (out: i64)
    ensures
        out == button_width(size),
        -10_080 <= out <= HEADER_BUTTON_WIDTH,
{
    assert(size.full() * 21 / 50 == 126 * size.w - 10_080) by {
        assert(size.full() == 300 * size.w - 24_000);
    }
    let share: i64 = 126 * size.w as i64 - 10_080;
    if share < HEADER_BUTTON_WIDTH {
        share
    } else {
        HEADER_BUTTON_WIDTH
    }
}

/// The two header buttons stand at opposite ends and do not touch: one is harmless and the other
/// throws the session away, and a thumb aiming at either must not be able to reach the other.
pub proof fn the_header_buttons_do_not_touch(size: Size)
    requires
        size.full() > 0,
    ensures
        exit_button_of(size).x == size.header().x,
        page_button_of(size).x + page_button_of(size).w == size.header().x + size.header().w,
        exit_button_of(size).x + exit_button_of(size).w < page_button_of(size).x,
{
    assert(size.full() == 300 * size.w - 24_000);
    assert(size.full() * 21 / 50 == 126 * size.w - 10_080);
}

/// A completed hold asks to leave exactly once: asking again, at any later moment, asks nothing.
pub proof fn a_completed_hold_asks_once(panel: Panel, now: u64, later: u64)
    requires
        panel.settled(now).1 is Some,
    ensures
        panel.settled(now).1 == Some(Action::LeaveSession),
        panel.settled(now).0.settled(later).1 is None,
{
}

/// No touch ends the session by itself: only a hold that has lasted does.
pub proof fn no_touch_leaves_the_session(
    panel: Panel,
    size: Size,
    portrait: bool,
    levels: Levels,
    audio: Audio,
    now: u64,
    events: Seq<TouchEvent>,
    i: int,
)
    requires
        0 <= i < panel.run(size, portrait, levels, audio, now, events).1.len(),
    ensures
        panel.run(size, portrait, levels, audio, now, events).1[i] != Action::LeaveSession,
    decreases events.len(),
{
    if events.len() > 0 {
        let before = panel.run(size, portrait, levels, audio, now, events.drop_last()).1;
        if i < before.len() {
            no_touch_leaves_the_session(
                panel,
                size,
                portrait,
                levels,
                audio,
                now,
                events.drop_last(),
                i,
            );
        }
    }
}

/// Tapping exit does not end the session: the finger that began a hold abandons it by lifting, and
/// then nothing is asked at any moment.
pub proof fn lifting_abandons_a_hold(panel: Panel, slot: usize, now: u64)
    requires
        panel.exit_hold matches Some(hold) && hold.0 == slot,
    ensures
        panel.up(slot).exit_hold is None,
        panel.up(slot).settled(now).1 is None,
{
}

/// Sliding off exit abandons the hold too.
pub proof fn sliding_off_abandons_a_hold(
    panel: Panel,
    size: Size,
    portrait: bool,
    c: Contact,
    now: u64,
)
    requires
        panel.exit_hold matches Some(hold) && hold.0 == c.slot,
        !exit_button_of(size).has(
            touched(size, portrait, c.x as int, c.y as int).0,
            touched(size, portrait, c.x as int, c.y as int).1,
        ),
    ensures
        panel.motion(size, portrait, c).0.exit_hold is None,
        panel.motion(size, portrait, c).0.settled(now).1 is None,
{
}

/// A second finger cannot steal a knob: while one has hold of it, another landing anywhere leaves
/// it where it was, and what it reads too.
pub proof fn a_second_finger_cannot_steal_a_knob(
    panel: Panel,
    size: Size,
    portrait: bool,
    levels: Levels,
    audio: Audio,
    now: u64,
    c: Contact,
    under: Under,
    knob: Knob,
)
    requires
        panel.held matches Some(held) && held.0 != c.slot,
    ensures
        panel.down(size, portrait, levels, audio, now, c, under).0.held == panel.held,
        knob_reading(
            panel.down(size, portrait, levels, audio, now, c, under).0,
            size,
            levels,
            knob,
        ) == knob_reading(panel, size, levels, knob),
{
    let (x, y) = touched(size, portrait, c.x as int, c.y as int);
    let holder = (panel.held->0).0;
    lemma_finger_kept(panel.touches, c.slot, holder);
    lemma_finger_added(
        panel.touches.filter(other_touches(c.slot)),
        (c.slot, x as i64, y as i64),
        holder,
    );
}

proof fn lemma_finger_added(touches: Seq<(usize, i64, i64)>, t: (usize, i64, i64), slot: usize)
    requires
        t.0 != slot,
    ensures
        finger(touches.push(t), slot) == finger(touches, slot),
    decreases touches.len(),
{
    reveal_with_fuel(finger, 2);
    if touches.len() > 0 {
        assert(touches.push(t).skip(1) =~= touches.skip(1).push(t));
        lemma_finger_added(touches.skip(1), t, slot);
    } else {
        assert(touches.push(t).skip(1) =~= Seq::empty());
    }
}

proof fn lemma_finger_kept(touches: Seq<(usize, i64, i64)>, gone: usize, slot: usize)
    requires
        gone != slot,
    ensures
        finger(touches.filter(other_touches(gone)), slot) == finger(touches, slot),
    decreases touches.len(),
{
    reveal(Seq::filter);
    if touches.len() > 0 {
        let rest = touches.drop_last();
        lemma_finger_kept(rest, gone, slot);
        assert(touches =~= rest.push(touches.last()));
        if touches.last().0 == slot {
            lemma_finger_last(rest, touches.last(), slot);
            lemma_finger_last(rest.filter(other_touches(gone)), touches.last(), slot);
        } else {
            lemma_finger_added(rest, touches.last(), slot);
            lemma_finger_added(rest.filter(other_touches(gone)), touches.last(), slot);
        }
    }
}

proof fn lemma_finger_last(touches: Seq<(usize, i64, i64)>, t: (usize, i64, i64), slot: usize)
    requires
        t.0 == slot,
    ensures
        finger(touches.push(t), slot) == (match finger(touches, slot) {
            Some(x) => Some(x),
            None => Some(t.1),
        }),
    decreases touches.len(),
{
    reveal_with_fuel(finger, 2);
    if touches.len() > 0 {
        assert(touches.push(t).skip(1) =~= touches.skip(1).push(t));
        lemma_finger_last(touches.skip(1), t, slot);
    }
}

/// A touch lands on what was drawn there. A point of the layout is drawn where the projection puts
/// it, the digitiser of a portrait panel reports that place with its own `y` reversed, and the
/// touch comes back to the point it started from. Stated of every point that falls on a whole
/// millionth of the panel.
pub proof fn a_touch_lands_on_what_was_drawn_there(size: Size, x: int, y: int, u: int, v: int)
    requires
        size.w > 0,
        size.h > 0,
        2 * u * projection_of(size, true).x.over == WHOLE * (projection_of(size, true).x.at(x, y)
            + projection_of(size, true).x.over),
        2 * v * projection_of(size, true).y.over == WHOLE * (projection_of(size, true).y.at(x, y)
            + projection_of(size, true).y.over),
    ensures
        touched(size, true, u, v) == (x, y),
{
    let w = size.w * PIXEL;
    let h = size.h * PIXEL;
    assert(2 * v * w == WHOLE * (2 * x));
    assert(2 * u * h == WHOLE * (-2 * y + h + h));
    assert(w * v == WHOLE * x) by (nonlinear_arith)
        requires
            2 * v * w == 1_000_000 * (2 * x),
            WHOLE == 1_000_000,
    ;
    assert(h * (WHOLE - u) == WHOLE * y) by (nonlinear_arith)
        requires
            2 * u * h == 1_000_000 * (-2 * y + h + h),
            WHOLE == 1_000_000,
    ;
    assert(1_000_000 * x / 1_000_000 == x);
    assert(1_000_000 * y / 1_000_000 == y);
}

/// The first row of the layout draws above the last: on a portrait panel the layout's vertical
/// runs along clip space's `x`, whose high end is the top.
pub proof fn the_layout_stacks_downward(size: Size, x: int, high: int, low: int)
    requires
        high < low,
    ensures
        projection_of(size, true).x.at(x, high) > projection_of(size, true).x.at(x, low),
        projection_of(size, false).y.at(x, high) > projection_of(size, false).y.at(x, low),
{
}

/// Brightness cannot be dragged to black: the slider needed in order to undo it is drawn on the
/// panel that would go dark.
pub proof fn brightness_stays_on(panel: Panel, size: Size, levels: Levels, knob: Knob)
    requires
        knob != Knob::Volume,
    ensures
        knob_reading(panel, size, levels, knob) matches Some(value) ==> MINIMUM_BRIGHTNESS <= value,
        knob_reading(panel, size, levels, knob) matches Some(value) ==> value <= WHOLE,
{
}

/// A held knob reads where its finger is. With the finger at the left end of the track or before it
/// the volume reads nothing and a brightness its least; at the right end or past it each reads the
/// whole; and between them the finger's share of the track, in millionths rounded down, except
/// that a brightness reads its least for any less. So the reading never falls as the finger moves
/// right.
pub proof fn a_held_knob_reads_its_finger(
    panel: Panel,
    size: Size,
    levels: Levels,
    knob: Knob,
    slot: usize,
    at: int,
    card: Rect,
)
    requires
        panel.held == Some((slot, knob)),
        0 <= at < panel.touches.len(),
        panel.touches[at].0 == slot,
        forall|i: int| 0 <= i < at ==> (#[trigger] panel.touches[i]).0 != slot,
        size.slider(levels, knob) == Some(card),
        card.fits(),
    ensures
        ({
            let x = panel.touches[at].1;
            let track = track_in(card);
            let least: u32 = if knob == Knob::Volume {
                0
            } else {
                50_000
            };
            &&& knob_reading(panel, size, levels, knob) is Some
            &&& knob_reading(panel, size, levels, knob) matches Some(value) ==> {
                &&& least <= value <= 1_000_000
                &&& x <= track.x ==> value == least
                &&& track.x + track.w <= x ==> value == 1_000_000
                &&& track.x <= x <= track.x + track.w && value > least ==> value * track.w <= (x
                    - track.x) * 1_000_000 < (value + 1) * track.w
                &&& track.x <= x && value == least ==> (x - track.x) * 1_000_000 < (least + 1)
                    * track.w
            }
        }),
{
    lemma_finger(panel.touches, slot, at);
    let track = track_in(card);
    crate::sidecar::a_share_is_in_proportion(track, panel.touches[at].1 as int, 0);
    let n = (panel.touches[at].1 - track.x) * 1_000_000;
    let share = track.across(panel.touches[at].1 as int);
    assert(share <= 50_000 ==> (share + 1) * track.w <= 50_001 * track.w) by (nonlinear_arith)
        requires
            track.w > 0,
    ;
}

proof fn lemma_finger(touches: Seq<(usize, i64, i64)>, slot: usize, at: int)
    requires
        0 <= at < touches.len(),
        touches[at].0 == slot,
        forall|i: int| 0 <= i < at ==> (#[trigger] touches[i]).0 != slot,
    ensures
        finger(touches, slot) == Some(touches[at].1),
    decreases touches.len(),
{
    if at > 0 {
        assert(touches[0].0 != slot);
        assert(touches.skip(1)[at - 1] == touches[at]);
        assert forall|i: int| 0 <= i < at - 1 implies (#[trigger] touches.skip(1)[i]).0 != slot by {
            assert(touches.skip(1)[i] == touches[i + 1]);
        }
        lemma_finger(touches.skip(1), slot, at - 1);
    }
}

/// The reading does not fall as the finger moves right, whichever knob it holds; and only the knob
/// that is held, by a finger that is down, reads anything.
pub proof fn a_knob_rises_with_its_finger(
    panel: Panel,
    moved_on: Panel,
    size: Size,
    levels: Levels,
    knob: Knob,
    slot: usize,
)
    requires
        panel.held == Some((slot, knob)),
        moved_on.held == panel.held,
        finger(panel.touches, slot) matches Some(x) && (finger(moved_on.touches, slot) matches Some(
            y,
        ) && x <= y),
        size.roomy(),
        levels.of(knob) is Some,
    ensures
        knob_reading(panel, size, levels, knob) is Some,
        knob_reading(moved_on, size, levels, knob) is Some,
        knob_reading(panel, size, levels, knob)->0 <= knob_reading(
            moved_on,
            size,
            levels,
            knob,
        )->0,
        forall|other: Knob|
            other != knob ==> (#[trigger] knob_reading(panel, size, levels, other)) is None,
        knob_reading(Panel { held: None, ..panel }, size, levels, knob) is None,
{
    let card = size.slider(levels, knob)->0;
    crate::sidecar::a_share_is_in_proportion(
        track_in(card),
        finger(panel.touches, slot)->0 as int,
        finger(moved_on.touches, slot)->0 as int,
    );
}

/// Where a finger is on the layout: across a landscape panel it is as far along as the digitiser
/// says, and down as far down; on a portrait one it is as far along as the digitiser says down, and
/// as far down as it says from its right.
pub proof fn a_finger_is_where_it_was_reported(size: Size, u: int, v: int)
    ensures
        ({
            let (x, y) = touched(size, false, u, v);
            &&& x * 1_000_000 <= u * (300 * size.w) < (x + 1) * 1_000_000
            &&& y * 1_000_000 <= v * (300 * size.h) < (y + 1) * 1_000_000
        }),
        ({
            let (x, y) = touched(size, true, u, v);
            &&& x * 1_000_000 <= v * (300 * size.w) < (x + 1) * 1_000_000
            &&& y * 1_000_000 <= (1_000_000 - u) * (300 * size.h) < (y + 1) * 1_000_000
        }),
{
    assert(size.w * PIXEL * u == u * (300 * size.w)) by (nonlinear_arith)
        requires
            PIXEL == 300,
    ;
    assert(size.w * PIXEL * v == v * (300 * size.w)) by (nonlinear_arith)
        requires
            PIXEL == 300,
    ;
    assert(size.h * PIXEL * v == v * (300 * size.h)) by (nonlinear_arith)
        requires
            PIXEL == 300,
    ;
    let up = 1_000_000 - u;
    assert(size.h * PIXEL * up == up * (300 * size.h)) by (nonlinear_arith)
        requires
            PIXEL == 300,
    ;
}

/// A finger that lands is on the panel where it landed and nowhere else, and every other finger
/// stays where it was.
pub proof fn a_finger_that_lands_is_seen(
    panel: Panel,
    size: Size,
    portrait: bool,
    levels: Levels,
    audio: Audio,
    now: u64,
    c: Contact,
    under: Under,
)
    ensures
        ({
            let after = panel.down(size, portrait, levels, audio, now, c, under).0;
            let (x, y) = touched(size, portrait, c.x as int, c.y as int);
            &&& after.touches.len() > 0
            &&& after.touches.last() == (c.slot, x as i64, y as i64)
            &&& after.touches.drop_last() == panel.touches.filter(
                |t: (usize, i64, i64)| t.0 != c.slot,
            )
        }),
{
    let after = panel.down(size, portrait, levels, audio, now, c, under).0;
    let rest = |t: (usize, i64, i64)| t.0 != c.slot;
    assert(other_touches(c.slot) =~= rest);
    assert(after.touches.drop_last() =~= panel.touches.filter(rest));
}

/// The two buttons of the header come first, whatever the page shows. Landing on the one swaps the
/// pages and asks for nothing; landing on the other starts a hold of it by that finger from that
/// moment, and asks for nothing yet. Neither takes hold of a knob, and neither presses a key.
pub proof fn the_header_comes_first(
    panel: Panel,
    size: Size,
    portrait: bool,
    levels: Levels,
    audio: Audio,
    now: u64,
    c: Contact,
    under: Under,
)
    ensures
        ({
            let (after, asked) = panel.down(size, portrait, levels, audio, now, c, under);
            let (x, y) = touched(size, portrait, c.x as int, c.y as int);
            let on_page = page_button_of(size).has(x, y);
            let on_exit = exit_button_of(size).has(x, y);
            &&& on_page ==> after.page != panel.page && after.exit_hold == panel.exit_hold
            &&& !on_page ==> after.page == panel.page
            &&& !on_page && on_exit ==> after.exit_hold == Some((c.slot, now))
            &&& !on_page && !on_exit ==> after.exit_hold == panel.exit_hold
            &&& on_page || on_exit ==> asked is None && after.held == panel.held && after.pressed
                == panel.pressed
        }),
{
}

/// On the keyboard's page a finger on a key presses that key, which is down under that finger, and
/// one on the speaker asks for the click to be flipped; a finger on neither asks for nothing. The
/// dashboard's knobs cannot be reached from there, nor the keys from the dashboard.
pub proof fn a_page_takes_its_own_touches(
    panel: Panel,
    size: Size,
    portrait: bool,
    levels: Levels,
    audio: Audio,
    now: u64,
    c: Contact,
    under: Under,
)
    requires
        ({
            let (x, y) = touched(size, portrait, c.x as int, c.y as int);
            !page_button_of(size).has(x, y) && !exit_button_of(size).has(x, y)
        }),
    ensures
        ({
            let (after, asked) = panel.down(size, portrait, levels, audio, now, c, under);
            let (x, y) = touched(size, portrait, c.x as int, c.y as int);
            &&& panel.page == Page::Keyboard ==> {
                &&& after.held == panel.held
                &&& under.toggle ==> asked == Some(Action::ToggleKeyClick) && after.pressed
                    == panel.pressed
                &&& !under.toggle && under.key is None ==> asked is None && after.pressed
                    == panel.pressed
                &&& !under.toggle && (under.key matches Some(key)) ==> asked == Some(
                    Action::PressKey(under.key->0),
                ) && after.pressed.len() > 0 && after.pressed.last() == (c.slot, under.key->0)
                    && after.pressed.drop_last() == panel.pressed.filter(
                    |t: (usize, u32)| t.0 != c.slot,
                )
            }
            &&& panel.page == Page::Dashboard ==> {
                &&& after.pressed == panel.pressed
                &&& panel.held is Some ==> asked is None && after.held == panel.held
                &&& panel.held is None ==> (after.held is Some <==> grabbed(
                    size,
                    levels,
                    x,
                    y,
                ) is Some)
                &&& panel.held is None && (grabbed(size, levels, x, y) is Some) ==> after.held
                    == Some((c.slot, grabbed(size, levels, x, y)->0)) && asked == Some(
                    Action::Moved(grabbed(size, levels, x, y)->0),
                )
                &&& panel.held is None && grabbed(size, levels, x, y) is None ==> (match asked {
                    Some(Action::ChooseDevice(direction, id)) => chosen(size, audio, x, y) == Some(
                        (direction, id),
                    ),
                    Some(_) => false,
                    None => chosen(size, audio, x, y) is None,
                })
            }
        }),
{
    let after = panel.down(size, portrait, levels, audio, now, c, under).0;
    let rest = |t: (usize, u32)| t.0 != c.slot;
    assert(other_keys(c.slot) =~= rest);
    if panel.page == Page::Keyboard && !under.toggle && under.key is Some {
        assert(after.pressed.drop_last() =~= panel.pressed.filter(rest));
    }
}

/// What a finger takes hold of is under it: a knob that is grabbed has its card there, and a point
/// on some knob's card grabs one. On a panel with room for them it is the only one there.
pub proof fn what_is_grabbed_is_under_the_finger(
    size: Size,
    levels: Levels,
    x: int,
    y: int,
    knob: Knob,
)
    ensures
        grabbed(size, levels, x, y) == Some(knob) ==> (size.slider(levels, knob) matches Some(card)
            && card.has(x, y)),
        (size.slider(levels, knob) matches Some(card) && card.has(x, y)) ==> grabbed(
            size,
            levels,
            x,
            y,
        ) is Some,
        size.roomy() && (size.slider(levels, knob) matches Some(card) && card.has(x, y))
            ==> grabbed(size, levels, x, y) == Some(knob),
{
    if size.roomy() {
        crate::sidecar::cards_do_not_overlap(size, levels, Knob::Glasses, Knob::Screen, 0, 1);
        crate::sidecar::cards_do_not_overlap(size, levels, Knob::Glasses, Knob::Volume, 0, 1);
        crate::sidecar::cards_do_not_overlap(size, levels, Knob::Screen, Knob::Volume, 0, 1);
    }
}

/// A device that is chosen is the one whose entry is drawn under the finger: an output of the
/// outputs' card, or an input of the inputs'.
pub proof fn what_is_chosen_is_under_the_finger(size: Size, audio: Audio, x: int, y: int)
    requires
        size.device_card(Direction::Output).fits(),
        size.device_card(Direction::Input).fits(),
    ensures
        chosen(size, audio, x, y) matches Some((direction, id)) ==> exists|index: int|
            #![trigger side(audio, direction)[index]]
            0 <= index < side(audio, direction).len() && side(audio, direction)[index].id == id
                && crate::sidecar::device_row(size.device_card(direction), index).has(x, y),
        chosen(size, audio, x, y) is None ==> forall|direction: Direction, index: int|
            0 <= index < side(audio, direction).len() && index < crate::sidecar::room_for(
                size.device_card(direction),
            ) ==> !(#[trigger] crate::sidecar::device_row(
                size.device_card(direction),
                index,
            )).has(x, y),
{
    let outputs = side(audio, Direction::Output);
    let inputs = side(audio, Direction::Input);
    let (first, second) = (
        size.device_card(Direction::Output),
        size.device_card(Direction::Input),
    );
    assert forall|index: int|
        entry_at(first, outputs.len() as int, x, y) == Some(index) <==> 0 <= index < outputs.len()
            && index < crate::sidecar::room_for(first) && #[trigger] crate::sidecar::device_row(
            first,
            index,
        ).has(x, y) by {
        crate::sidecar::an_entry_is_found_where_it_is_drawn(
            first,
            outputs.len() as int,
            x,
            y,
            index,
        );
    }
    assert forall|index: int|
        entry_at(second, inputs.len() as int, x, y) == Some(index) <==> 0 <= index < inputs.len()
            && index < crate::sidecar::room_for(second) && #[trigger] crate::sidecar::device_row(
            second,
            index,
        ).has(x, y) by {
        crate::sidecar::an_entry_is_found_where_it_is_drawn(
            second,
            inputs.len() as int,
            x,
            y,
            index,
        );
    }
    if let Some(index) = entry_at(first, outputs.len() as int, x, y) {
        assert(crate::sidecar::device_row(first, index).has(x, y));
        assert(side(audio, Direction::Output)[index].id == outputs[index].id);
    } else if let Some(index) = entry_at(second, inputs.len() as int, x, y) {
        assert(crate::sidecar::device_row(second, index).has(x, y));
        assert(side(audio, Direction::Input)[index].id == inputs[index].id);
    }
}

/// A finger that moves is followed and no other is: its contact is where it is now, and where it
/// holds a knob that knob is asked after. It neither takes hold of anything nor turns the page.
pub proof fn a_finger_that_moves_is_followed(
    panel: Panel,
    size: Size,
    portrait: bool,
    c: Contact,
    i: int,
)
    requires
        0 <= i < panel.touches.len(),
    ensures
        ({
            let (after, asked) = panel.motion(size, portrait, c);
            let (x, y) = touched(size, portrait, c.x as int, c.y as int);
            &&& after.touches.len() == panel.touches.len()
            &&& panel.touches[i].0 == c.slot ==> after.touches[i] == (c.slot, x as i64, y as i64)
            &&& panel.touches[i].0 != c.slot ==> after.touches[i] == panel.touches[i]
            &&& after.held == panel.held
            &&& after.page == panel.page
            &&& after.pressed == panel.pressed
            &&& asked is Some <==> (panel.held matches Some((slot, _)) && slot == c.slot)
            &&& panel.held matches Some((slot, knob)) ==> (slot == c.slot ==> asked == Some(
                Action::Moved(knob),
            ))
            &&& after.exit_hold == panel.exit_hold || after.exit_hold is None
            &&& after.exit_hold != panel.exit_hold ==> (panel.exit_hold matches Some((slot, _))
                && slot == c.slot && !exit_button_of(size).has(x, y))
        }),
{
}

/// A finger that lifts takes with it what was its own, and nothing else: its contact, the keys
/// under it, the knob it held and the hold it had begun.
pub proof fn a_finger_that_lifts_takes_its_own(panel: Panel, slot: usize)
    ensures
        panel.up(slot).touches == panel.touches.filter(|t: (usize, i64, i64)| t.0 != slot),
        panel.up(slot).pressed == panel.pressed.filter(|t: (usize, u32)| t.0 != slot),
        panel.up(slot).page == panel.page,
        (panel.held matches Some((by, _)) && by == slot) ==> panel.up(slot).held is None,
        !(panel.held matches Some((by, _)) && by == slot) ==> panel.up(slot).held == panel.held,
        (panel.exit_hold matches Some((by, _)) && by == slot) ==> panel.up(slot).exit_hold is None,
        !(panel.exit_hold matches Some((by, _)) && by == slot) ==> panel.up(slot).exit_hold
            == panel.exit_hold,
{
    assert(other_touches(slot) =~= |t: (usize, i64, i64)| t.0 != slot);
    assert(other_keys(slot) =~= |t: (usize, u32)| t.0 != slot);
}

/// A hold asks to leave once it has lasted a second and a fifth, and not a moment before; until
/// then, and without one, a frame passing changes nothing.
pub proof fn a_hold_has_to_last(panel: Panel, slot: usize, since: u64, now: u64)
    requires
        panel.exit_hold == Some((slot, since)),
    ensures
        panel.settled(now).1 is Some <==> since + 1_200_000_000 <= now,
        now < since + 1_200_000_000 ==> panel.settled(now).0 == panel,
        since + 1_200_000_000 <= now ==> panel.settled(now).0 == (Panel {
            exit_hold: None,
            ..panel
        }),
        (Panel { exit_hold: None, ..panel }).settled(now) == (
            Panel { exit_hold: None, ..panel },
            None::<Action>,
        ),
{
}

/// The touchscreen's reports are taken one at a time, in order: what a run of them comes to is
/// what the last does to what came before it, and what each asks for follows what was asked before.
pub proof fn reports_are_taken_in_order(
    panel: Panel,
    size: Size,
    portrait: bool,
    levels: Levels,
    audio: Audio,
    now: u64,
    events: Seq<TouchEvent>,
    slot: usize,
    c: Contact,
)
    ensures
        ({
            let (before, asked) = panel.run(size, portrait, levels, audio, now, events);
            let lifted = panel.run(
                size,
                portrait,
                levels,
                audio,
                now,
                events.push(TouchEvent::Up { slot }),
            );
            let moved_on = panel.run(
                size,
                portrait,
                levels,
                audio,
                now,
                events.push(TouchEvent::Motion(c)),
            );
            &&& lifted == (before.up(slot), asked)
            &&& moved_on.0 == before.motion(size, portrait, c).0
            &&& asked.is_prefix_of(moved_on.1)
            &&& (before.held matches Some((by, knob)) && by == c.slot) ==> moved_on.1 == asked.push(
                Action::Moved(before.held->Some_0.1),
            )
            &&& !(before.held matches Some((by, knob)) && by == c.slot) ==> moved_on.1 == asked
            &&& events.len() == 0 ==> before == panel && asked.len() == 0
        }),
{
    assert(events.push(TouchEvent::Up { slot }).drop_last() =~= events);
    assert(events.push(TouchEvent::Motion(c)).drop_last() =~= events);
}

/// Asking for the same thing several times in a row is asking once: no two that stand together are
/// the same, nothing that was asked for is lost, and nothing is asked for that was not.
pub proof fn nothing_is_asked_twice_running(actions: Seq<Action>)
    ensures
        forall|i: int|
            0 <= i < deduped(actions).len() - 1 ==> (#[trigger] deduped(actions)[i]) != deduped(
                actions,
            )[i + 1],
        forall|i: int|
            0 <= i < actions.len() ==> deduped(actions).contains(#[trigger] actions[i]),
        forall|i: int|
            0 <= i < deduped(actions).len() ==> actions.contains(#[trigger] deduped(actions)[i]),
        (forall|i: int| 0 <= i < actions.len() - 1 ==> (#[trigger] actions[i]) != actions[i + 1])
            ==> deduped(actions) == actions,
    decreases actions.len(),
{
    if actions.len() > 0 {
        let fewer = actions.drop_last();
        let last = actions.last();
        let before = deduped(fewer);
        let all = deduped(actions);
        nothing_is_asked_twice_running(fewer);
        lemma_deduped_ends_alike(actions);
        if fewer.len() > 0 {
            lemma_deduped_ends_alike(fewer);
        }
        assert forall|i: int| 0 <= i < actions.len() implies all.contains(
            #[trigger] actions[i],
        ) by {
            if i < actions.len() - 1 {
                assert(fewer[i] == actions[i]);
                let k = choose|k: int| 0 <= k < before.len() && before[k] == fewer[i];
                assert(all[k] == actions[i]);
            } else {
                assert(all[all.len() - 1] == last);
            }
        }
        assert forall|i: int| 0 <= i < all.len() implies actions.contains(#[trigger] all[i]) by {
            if i < before.len() {
                assert(all[i] == before[i]);
                let k = choose|k: int| 0 <= k < fewer.len() && fewer[k] == before[i];
                assert(actions[k] == all[i]);
            } else {
                assert(actions[actions.len() - 1] == all[i]);
            }
        }
        assert forall|i: int| 0 <= i < all.len() - 1 implies (#[trigger] all[i]) != all[i + 1] by {
            if i + 1 < before.len() {
                assert(all[i] == before[i] && all[i + 1] == before[i + 1]);
            } else if before.len() > 0 {
                assert(before[before.len() - 1] == fewer.last());
            }
        }
        if forall|i: int| 0 <= i < actions.len() - 1 ==> (#[trigger] actions[i]) != actions[i + 1] {
            assert forall|i: int| 0 <= i < fewer.len() - 1 implies (#[trigger] fewer[i]) != fewer[i
                + 1] by {
                assert(fewer[i] == actions[i]);
            }
            if actions.len() >= 2 {
                assert(actions[actions.len() - 2] != actions[actions.len() - 2 + 1]);
            }
            assert(all =~= actions);
        }
    }
}

} // verus!
