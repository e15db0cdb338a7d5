//! The Deck's own screen, while the glasses have the world.
//!
//! A spatial session leaves the built-in panel doing nothing, which is a waste of the one
//! display you can see without putting anything on your face. It shows what is awkward to
//! check *inside* the headset: how hard the machine is working, how much battery is left, and
//! the controls that are fiddly to reach through a laser pointer.
//!
//! Everything is laid out in landscape, in three-hundredths of a pixel: the thirds, halves and
//! tenths that the layout is made of are all a whole number of those. Drawing, laying out text
//! and hit testing read the same rectangles, because two copies of a layout do not stay equal.

pub mod keys;
pub mod panel;
pub mod picture;
pub mod shapes;

use vstd::prelude::*;
use crate::devices::{Audio, Direction, devices, side};
use crate::system::{WHOLE, clamped};

verus! {

/// One pixel.
pub const PIXEL: i64 = 300;

pub const MARGIN: i64 = 12_000;

pub const HEADER_HEIGHT: i64 = 28_800;

pub const HEADER_GAP: i64 = 8_400;

/// The gutter between two columns.
pub const COLUMN_GAP: i64 = 8_400;

/// Corner radius of a card. Cards are gently rounded; anything that takes a touch is a full
/// capsule, which is the difference the eye reads as "this one is a control".
pub const CARD_RADIUS: i64 = 5_400;

/// Padding inside a card, between its edge and its contents.
pub const CARD_PAD: i64 = 6_600;

pub const CARD_GAP: i64 = 5_400;

/// How tall a touchable bar is drawn.
pub const BAR_HEIGHT: i64 = 7_800;

/// Text sizes. A card's reading is deliberately about twice its name: at arm's length on an
/// 800-pixel panel the number is the only part anyone actually reads.
pub const HEADER_TEXT: i64 = 13_800;

pub const LABEL_TEXT: i64 = 6_600;

pub const VALUE_TEXT: i64 = 10_800;

/// One entry in a device list. Smaller than a reading, because there are several of them and
/// they are read once when choosing rather than glanced at continually.
pub const DEVICE_TEXT: i64 = 6_600;

/// How tall one device row is. A finger has to land on it, so this is the same order as a
/// slider card rather than the size the text needs.
pub const DEVICE_ROW: i64 = 16_200;

/// Where a device card's list begins, below the card's top.
pub const DEVICE_TOP: i64 = 17_160;

/// The page-swap button in the header.
pub const PAGE_BUTTON_HEIGHT: i64 = 19_200;

/// The header buttons carry a symbol rather than a word, so they are sized for the finger
/// rather than for the longest label.
pub const HEADER_BUTTON_WIDTH: i64 = 30_720;

/// How large to set each header symbol. A size per symbol rather than one for all of them: a font
/// size is the em box, and these glyphs fill very different fractions of theirs.
pub const POWER_SYMBOL: i64 = 23_040;

pub const KEYBOARD_SYMBOL: i64 = 16_320;

pub const DASHBOARD_SYMBOL: i64 = 15_360;

/// How long the exit button has to be held before the session ends, in nanoseconds.
///
/// A tap will not do it. Leaving closes every window in the session, and this control sits on
/// a bare touchscreen that spends the whole session face-up on a table with the wearer unable
/// to see it -- the one surface in the machine most likely to be brushed by accident.
pub const HOLD_TO_EXIT: u64 = 1_200_000_000;

/// The lowest the brightness slider will go, in millionths.
///
/// Not a taste decision. At zero the panel is dark, and the control you need in order to
/// undo that is drawn on it.
pub const MINIMUM_BRIGHTNESS: u32 = 50_000;

/// The size of a coordinate that anything on a panel can have.
pub const REACH: i64 = 4_000_000_000_000;

/// A rectangle, origin top left.
#[derive(Debug, Clone, Copy, PartialEq, Eq, Structural)]
pub struct Rect {
    pub x: i64,
    pub y: i64,
    pub w: i64,
    pub h: i64,
}

impl Rect {
    /// Whether it is anywhere a panel can be.
    pub open spec fn fits(self) -> bool {
        &&& -REACH <= self.x <= REACH
        &&& -REACH <= self.y <= REACH
        &&& -REACH <= self.w <= REACH
        &&& -REACH <= self.h <= REACH
    }

    /// Whether a point is in it.
    pub open spec fn has(self, x: int, y: int) -> bool {
        self.x <= x < self.x + self.w && self.y <= y < self.y + self.h
    }

    /// Whether no point is in both.
    pub open spec fn apart(self, other: Rect) -> bool {
        ||| self.x + self.w <= other.x
        ||| other.x + other.w <= self.x
        ||| self.y + self.h <= other.y
        ||| other.y + other.h <= self.y
    }

    /// Whether a point is in it.
    pub fn contains(&self, x: i64, y: i64) -> (out: bool)
        requires
            self.fits(),
        ensures
            out == self.has(x as int, y as int),
    {
        x >= self.x && x < self.x + self.w && y >= self.y && y < self.y + self.h
    }

    /// Where `x` sits across it, in millionths.
    pub open spec fn across(self, x: int) -> int {
        if self.w <= 0 {
            0
        } else {
            clamped((x - self.x) * WHOLE / (self.w as int))
        }
    }

    /// Where `x` sits across the rectangle, in millionths, kept between its two ends.
    pub fn fraction(&self, x: i64) -> (out: u32)
        requires
            self.fits(),
        ensures
            out == self.across(x as int),
    {
        if self.w <= 0 || x <= self.x {
            proof {
                if self.w > 0 {
                    lemma_not_above_zero((x - self.x) * WHOLE, self.w as int);
                }
            }
            return 0;
        }
        let q: i128 = (x as i128 - self.x as i128) * WHOLE as i128 / self.w as i128;
        if q > WHOLE as i128 {
            WHOLE
        } else {
            q as u32
        }
    }

    /// Its middle.
    pub fn centre(&self) -> (out: (i64, i64))
        requires
            self.fits(),
        ensures
            self.w >= 0 ==> out.0 == self.x + self.w as int / 2,
            self.h >= 0 ==> out.1 == self.y + self.h as int / 2,
    {
        (self.x + self.w / 2, self.y + self.h / 2)
    }
}

proof fn lemma_not_above_zero(n: int, d: int)
    requires
        n <= 0,
        d > 0,
    ensures
        n / d <= 0,
        clamped(n / d) == 0,
{
    assert(n / d <= 0) by (nonlinear_arith)
        requires
            n <= 0,
            d > 0,
    ;
}

/// What the panel is showing.
///
/// Two pages rather than one crowded screen. A keyboard needs the whole panel to have keys worth
/// hitting, so it replaces the readouts rather than squeezing in beside them.
#[derive(Debug, Clone, Copy, PartialEq, Eq, Structural)]
pub enum Page {
    Dashboard,
    Keyboard,
}

impl Default for Page {
    fn default() -> (out: Self)
        ensures
            out == Page::Dashboard,
    {
        Page::Dashboard
    }
}

impl Page {
    /// The page you are *not* on.
    pub open spec fn swapped(self) -> Page {
        match self {
            Page::Dashboard => Page::Keyboard,
            Page::Keyboard => Page::Dashboard,
        }
    }

    /// The symbol for the page you are *not* on.
    pub open spec fn symbol(self) -> (Seq<char>, int) {
        match self {
            Page::Dashboard => ("\u{2328}"@, KEYBOARD_SYMBOL as int),
            Page::Keyboard => ("\u{25A6}"@, DASHBOARD_SYMBOL as int),
        }
    }

    /// What the button offers, which is the page you are *not* on, and how large to set it.
    ///
    /// A symbol rather than the word, because the word was doing no work: there are exactly two
    /// pages and the button always shows the other one.
    pub fn button_label(self) -> (out: (&'static str, i64))
        ensures
            (out.0@, out.1 as int) == self.symbol(),
    {
        match self {
            Page::Dashboard => ("\u{2328}", KEYBOARD_SYMBOL),
            Page::Keyboard => ("\u{25A6}", DASHBOARD_SYMBOL),
        }
    }

    pub fn other(self) -> (out: Self)
        ensures
            out == self.swapped(),
    {
        match self {
            Page::Dashboard => Page::Keyboard,
            Page::Keyboard => Page::Dashboard,
        }
    }
}

/// Swapping pages twice is back where it began: a control that only exists on one of two pages
/// is a way to get stranded on the other.
pub proof fn swapping_pages_swaps_back(page: Page)
    ensures
        page.swapped().swapped() == page,
        page.swapped() != page,
{
}

/// Something on the sidecar a finger can change.
#[derive(Debug, Clone, Copy, PartialEq, Eq, Structural)]
pub enum Knob {
    /// The headset's panel. The glasses have their own temple buttons for this, but nobody
    /// can see a temple button while wearing them, whereas the Deck is right there to look
    /// down at.
    Glasses,
    /// The Deck's own backlight.
    Screen,
    Volume,
}

impl Knob {
    /// What it is called on the panel.
    pub open spec fn named(self) -> Seq<char> {
        match self {
            Knob::Glasses => "Glass Brightness"@,
            Knob::Screen => "Deck Brightness"@,
            Knob::Volume => "Volume"@,
        }
    }

    /// Where it comes in the column: the glasses first, because in a spatial session they are
    /// the display being looked *through*, and the Deck's panel is the one glanced down at.
    pub open spec fn place(self) -> int {
        match self {
            Knob::Glasses => 0,
            Knob::Screen => 1,
            Knob::Volume => 2,
        }
    }

    pub fn label(self) -> (out: &'static str)
        ensures
            out@ == self.named(),
    {
        match self {
            // Named for the thing, not for the setting. "Screen" and "Glasses" side by side
            // left it ambiguous which screen was which.
            Knob::Glasses => "Glass Brightness",
            Knob::Screen => "Deck Brightness",
            Knob::Volume => "Volume",
        }
    }
}

/// Every knob, in the order they are drawn.
pub fn knobs() -> (out: [Knob; 3])
    ensures
        out@ == seq![Knob::Glasses, Knob::Screen, Knob::Volume],
{
    let out: [Knob; 3] = [Knob::Glasses, Knob::Screen, Knob::Volume];
    assert(out@ =~= seq![Knob::Glasses, Knob::Screen, Knob::Volume]);
    out
}

/// Everything the sidecar can both show and change, as it stands right now, in millionths.
#[derive(Debug, Clone, Copy, PartialEq, Eq, Structural)]
pub struct Levels {
    pub screen: Option<u32>,
    pub glasses: Option<u32>,
    pub volume: Option<u32>,
}

impl Default for Levels {
    fn default() -> (out: Self)
        ensures
            out.screen is None && out.glasses is None && out.volume is None,
    {
        Levels { screen: None, glasses: None, volume: None }
    }
}

impl Levels {
    /// What a knob reads.
    pub open spec fn of(self, knob: Knob) -> Option<u32> {
        match knob {
            Knob::Screen => self.screen,
            Knob::Glasses => self.glasses,
            Knob::Volume => self.volume,
        }
    }

    pub fn get(&self, knob: Knob) -> (out: Option<u32>)
        ensures
            out == self.of(knob),
    {
        match knob {
            Knob::Screen => self.screen,
            Knob::Glasses => self.glasses,
            Knob::Volume => self.volume,
        }
    }
}

/// The larger of two lengths.
pub open spec fn at_least(a: int, b: int) -> int {
    if a < b {
        b
    } else {
        a
    }
}

/// Every row of the sidecar, worked out once.
#[derive(Debug, Clone, Copy)]
pub struct Rows {
    pub header: Rect,
    /// The left column, one card per measurement.
    pub graphs: [Rect; 3],
    /// The middle column, one card per knob, in the order of [`knobs`]. Nothing where the machine
    /// has no reading to show — a slider that moves nothing is worse than an absent one.
    pub sliders: [Option<Rect>; 3],
    /// The right column, one card per direction, outputs first.
    pub devices: [Rect; 2],
}

/// The shape of the panel, in pixels of landscape.
#[derive(Debug, Clone, Copy, PartialEq, Eq, Structural)]
pub struct Size {
    pub w: u32,
    pub h: u32,
}

impl Size {
    /// The width between the two margins.
    pub open spec fn full(self) -> int {
        self.w * PIXEL - 2 * MARGIN
    }

    /// The width of one of three columns.
    pub open spec fn column(self) -> int {
        (self.full() - 2 * COLUMN_GAP) / 3
    }

    /// Where the rows begin, below the header.
    pub open spec fn top() -> int {
        MARGIN + HEADER_HEIGHT + HEADER_GAP
    }

    /// The height left for them.
    pub open spec fn available(self) -> int {
        at_least(self.h * PIXEL - MARGIN - Self::top(), PIXEL as int)
    }

    /// The height of one of three cards.
    pub open spec fn card(self) -> int {
        at_least((self.available() - 2 * CARD_GAP) / 3, PIXEL as int)
    }

    /// The height of one of two.
    pub open spec fn tall(self) -> int {
        at_least((self.available() - CARD_GAP) / 2, PIXEL as int)
    }

    /// The header, along the top.
    pub open spec fn header(self) -> Rect {
        Rect { x: MARGIN, y: MARGIN, w: self.full() as i64, h: HEADER_HEIGHT }
    }

    /// Where a column begins.
    pub open spec fn left_of(self, column: int) -> int {
        MARGIN + column * (self.column() + COLUMN_GAP)
    }

    /// One of three cards in a column.
    pub open spec fn slot(self, column: int, index: int) -> Rect {
        Rect {
            x: self.left_of(column) as i64,
            y: (Self::top() + (self.card() + CARD_GAP) * index) as i64,
            w: self.column() as i64,
            h: self.card() as i64,
        }
    }

    /// One of the two device cards.
    pub open spec fn device_card(self, direction: Direction) -> Rect {
        Rect {
            x: self.left_of(2) as i64,
            y: (Self::top() + (if direction == Direction::Output {
                0
            } else {
                self.tall() + CARD_GAP
            })) as i64,
            w: self.column() as i64,
            h: self.tall() as i64,
        }
    }

    /// How many knobs before this one have a reading: absent readings close up rather than
    /// leaving their slot empty, which would read as something having failed to draw.
    pub open spec fn slot_of(levels: Levels, knob: Knob) -> int {
        let before = |k: Knob|
            if k.place() < knob.place() && levels.of(k) is Some {
                1int
            } else {
                0
            };
        before(Knob::Glasses) + before(Knob::Screen) + before(Knob::Volume)
    }

    /// A knob's card, where it has a reading.
    pub open spec fn slider(self, levels: Levels, knob: Knob) -> Option<Rect> {
        if levels.of(knob) is Some {
            Some(self.slot(1, Self::slot_of(levels, knob)))
        } else {
            None
        }
    }

    /// Everything about the layout that a product of two unknowns enters into.
    proof fn lemma_sizes(self)
        ensures
            0 <= self.w * PIXEL <= 1_288_490_188_500,
            0 <= self.h * PIXEL <= 1_288_490_188_500,
            -24_000 <= self.full() <= REACH,
            -13_600 <= self.column() <= 429_496_715_900,
            3 * self.column() == self.full() - 2 * COLUMN_GAP,
            300 <= self.available() <= 1_288_490_188_500,
            300 <= self.card() <= 429_496_729_500,
            300 <= self.tall() <= 644_245_094_250,
            self.slot(0, 0).fits() && self.slot(0, 1).fits() && self.slot(0, 2).fits(),
            self.slot(1, 0).fits() && self.slot(1, 1).fits() && self.slot(1, 2).fits(),
            self.device_card(Direction::Output).fits(),
            self.device_card(Direction::Input).fits(),
            self.header().fits(),
            self.left_of(0) == MARGIN,
            self.left_of(1) == MARGIN + self.column() + COLUMN_GAP,
            self.left_of(2) == MARGIN + 2 * (self.column() + COLUMN_GAP),
    {
        let w = self.w as int;
        assert(self.full() == 300 * w - 24_000);
        assert((300 * w - 40_800) / 3 == 100 * w - 13_600);
        let pitch = self.card() + CARD_GAP;
        assert(pitch * 0 == 0 && pitch * 1 == pitch && pitch * 2 == pitch + pitch);
        let step = self.column() + COLUMN_GAP;
        assert(0 * step == 0 && 1 * step == step && 2 * step == step + step);
    }
}

/// Where every row sits.
pub open spec fn laid_out(size: Size, levels: Levels, rows: Rows) -> bool {
    &&& rows.header == size.header()
    &&& rows.graphs@ == seq![size.slot(0, 0), size.slot(0, 1), size.slot(0, 2)]
    &&& rows.sliders@ == seq![
        size.slider(levels, Knob::Glasses),
        size.slider(levels, Knob::Screen),
        size.slider(levels, Knob::Volume),
    ]
    &&& rows.devices@ == seq![
        size.device_card(Direction::Output),
        size.device_card(Direction::Input),
    ]
}

fn make_slot(size: Size, column: u32, index: u32) -> (out: Rect)
    requires
        column <= 1,
        index <= 2,
    ensures
        out == size.slot(column as int, index as int),
{
    proof {
        size.lemma_sizes();
    }
    let full: i64 = size.w as i64 * PIXEL - 2 * MARGIN;
    let column_w: i64 = column_width(size);
    let card: i64 = card_height(size);
    let top: i64 = MARGIN + HEADER_HEIGHT + HEADER_GAP;
    let x: i64 = if column == 0 {
        MARGIN
    } else {
        MARGIN + column_w + COLUMN_GAP
    };
    let pitch: i64 = card + CARD_GAP;
    let down: i64 = if index == 0 {
        0
    } else if index == 1 {
        pitch
    } else {
        pitch + pitch
    };
    assert(down == (size.card() + CARD_GAP) * index) by {
        let p = size.card() + CARD_GAP;
        assert(p * 0 == 0 && p * 1 == p && p * 2 == p + p);
    }
    Rect { x, y: top + down, w: column_w, h: card }
}

fn column_width(size: Size) -> (out: i64)
    ensures
        out == size.column(),
{
    proof {
        size.lemma_sizes();
    }
    100 * size.w as i64 - 13_600
}

fn available_height(size: Size) -> (out: i64)
    ensures
        out == size.available(),
{
    proof {
        size.lemma_sizes();
    }
    let left: i64 = size.h as i64 * PIXEL - MARGIN - (MARGIN + HEADER_HEIGHT + HEADER_GAP);
    if left < PIXEL {
        PIXEL
    } else {
        left
    }
}

fn card_height(size: Size) -> (out: i64)
    ensures
        out == size.card(),
{
    proof {
        size.lemma_sizes();
    }
    let room: i64 = available_height(size) - 2 * CARD_GAP;
    if room < 3 * PIXEL {
        PIXEL
    } else {
        room / 3
    }
}

fn tall_height(size: Size) -> (out: i64)
    ensures
        out == size.tall(),
{
    proof {
        size.lemma_sizes();
    }
    let room: i64 = available_height(size) - CARD_GAP;
    if room < 2 * PIXEL {
        PIXEL
    } else {
        room / 2
    }
}

/// Where every row sits.
///
/// Three columns under a full-width header: what the machine is doing, what the wearer can
/// change, and where the sound goes. The first two take the same three rows, so they line up
/// across the gutter; the device lists get the same height split two ways instead of three,
/// because a list needs height and there are only two of them.
pub fn lay_out(size: Size, levels: Levels) -> (out: Rows)
    ensures
        laid_out(size, levels, out),
{
    proof {
        size.lemma_sizes();
    }
    let header = Rect {
        x: MARGIN,
        y: MARGIN,
        w: size.w as i64 * PIXEL - 2 * MARGIN,
        h: HEADER_HEIGHT,
    };
    let graphs: [Rect; 3] = [make_slot(size, 0, 0), make_slot(size, 0, 1), make_slot(size, 0, 2)];
    let mut next: u32 = 0;
    let glasses = if levels.glasses.is_some() {
        next = next + 1;
        Some(make_slot(size, 1, 0))
    } else {
        None
    };
    let screen = if levels.screen.is_some() {
        next = next + 1;
        Some(make_slot(size, 1, next - 1))
    } else {
        None
    };
    let volume = if levels.volume.is_some() {
        Some(make_slot(size, 1, next))
    } else {
        None
    };
    let sliders: [Option<Rect>; 3] = [glasses, screen, volume];
    let column_w: i64 = column_width(size);
    let tall: i64 = tall_height(size);
    let top: i64 = MARGIN + HEADER_HEIGHT + HEADER_GAP;
    let right: i64 = MARGIN + 2 * (column_w + COLUMN_GAP);
    let outputs = Rect { x: right, y: top, w: column_w, h: tall };
    let inputs = Rect { x: right, y: top + tall + CARD_GAP, w: column_w, h: tall };
    let cards: [Rect; 2] = [outputs, inputs];
    assert(graphs@ =~= seq![size.slot(0, 0), size.slot(0, 1), size.slot(0, 2)]);
    assert(sliders@ =~= seq![
        size.slider(levels, Knob::Glasses),
        size.slider(levels, Knob::Screen),
        size.slider(levels, Knob::Volume),
    ]);
    assert(cards@ =~= seq![
        size.device_card(Direction::Output),
        size.device_card(Direction::Input),
    ]);
    Rows { header, graphs, sliders, devices: cards }
}

/// The capsule inside a slider card that shows the value.
pub open spec fn track_in(card: Rect) -> Rect {
    Rect {
        x: (card.x + CARD_PAD) as i64,
        y: (card.y + card.h - CARD_PAD - BAR_HEIGHT) as i64,
        w: at_least(card.w - 2 * CARD_PAD, PIXEL as int) as i64,
        h: BAR_HEIGHT,
    }
}

/// How many whole entries a device card has room for.
pub open spec fn room_for(card: Rect) -> int {
    at_least((card.h - CARD_PAD / 2 - DEVICE_TOP) / (DEVICE_ROW as int), 0)
}

/// Where one entry of a device card is drawn.
pub open spec fn device_row(card: Rect, index: int) -> Rect {
    Rect {
        x: (card.x + CARD_PAD / 2) as i64,
        y: (card.y + DEVICE_TOP + DEVICE_ROW * index) as i64,
        w: at_least(card.w - CARD_PAD, PIXEL as int) as i64,
        h: DEVICE_ROW,
    }
}

/// How many entries of a list are drawn.
pub open spec fn shown(card: Rect, count: int) -> int {
    if count <= room_for(card) {
        count
    } else {
        room_for(card)
    }
}

/// Which entry of one device card is under a point.
pub open spec fn entry_at(card: Rect, count: int, x: int, y: int) -> Option<int>
    decreases count,
{
    if count <= 0 {
        None
    } else {
        match entry_at(card, count - 1, x, y) {
            Some(index) => Some(index),
            None => if count <= room_for(card) && device_row(card, count - 1).has(x, y) {
                Some(count - 1)
            } else {
                None
            },
        }
    }
}

/// Every entry a device card draws stands inside the card, and below the one before it: a row
/// bleeding into the card beneath would change the microphone when a speaker was asked for.
pub proof fn device_rows_stay_in_their_card(card: Rect, i: int, j: int)
    requires
        card.fits(),
        0 <= i < j,
        j < room_for(card),
    ensures
        card.y <= device_row(card, i).y,
        device_row(card, i).y + device_row(card, i).h <= device_row(card, j).y,
        device_row(card, j).y + device_row(card, j).h <= card.y + card.h,
        device_row(card, i).apart(device_row(card, j)),
{
    lemma_row(card, i);
    lemma_row(card, j);
}

pub proof fn lemma_row(card: Rect, i: int)
    requires
        card.fits(),
        0 <= i < room_for(card),
    ensures
        device_row(card, i).y == card.y + DEVICE_TOP + DEVICE_ROW * i,
        device_row(card, i).y + DEVICE_ROW <= card.y + card.h,
        card.y + DEVICE_TOP <= device_row(card, i).y,
{
    let room = card.h - CARD_PAD / 2 - DEVICE_TOP;
    assert(room_for(card) == room / 16_200);
    assert(16_200 * (i + 1) <= room);
}

impl Rows {
    /// The capsule inside a slider card that shows the value.
    ///
    /// Smaller than the card it sits in, and deliberately so: the *card* is the touch target,
    /// which makes the thing a finger has to hit about four times the height of the thing the
    /// eye has to read.
    pub fn track(card: Rect) -> (out: Rect)
        requires
            card.fits(),
        ensures
            out == track_in(card),
    {
        let w: i64 = card.w - 2 * CARD_PAD;
        Rect {
            x: card.x + CARD_PAD,
            y: card.y + card.h - CARD_PAD - BAR_HEIGHT,
            w: if w < PIXEL {
                PIXEL
            } else {
                w
            },
            h: BAR_HEIGHT,
        }
    }

    /// How many entries a device card has room for.
    pub fn device_capacity(card: Rect) -> (out: usize)
        requires
            card.fits(),
        ensures
            out == room_for(card),
    {
        let room: i64 = card.h - CARD_PAD / 2 - DEVICE_TOP;
        if room < DEVICE_ROW {
            0
        } else {
            (room / DEVICE_ROW) as usize
        }
    }

    /// Where one entry is drawn.
    fn device_row(card: Rect, index: usize) -> (out: Rect)
        requires
            card.fits(),
            index < room_for(card),
        ensures
            out == device_row(card, index as int),
    {
        proof {
            lemma_row(card, index as int);
        }
        let w: i64 = card.w - CARD_PAD;
        Rect {
            x: card.x + CARD_PAD / 2,
            y: card.y + DEVICE_TOP + DEVICE_ROW * index as i64,
            w: if w < PIXEL {
                PIXEL
            } else {
                w
            },
            h: DEVICE_ROW,
        }
    }

    /// Where each entry in a device card is drawn, top to bottom.
    ///
    /// Only as many as fit. A list that overflowed its card would draw over the one below and
    /// take touches meant for it, so the overflow is dropped rather than clipped — and
    /// [`Rows::device_capacity`] is what the caller uses to say so out loud.
    pub fn device_rows(card: Rect, count: usize) -> (out: Vec<Rect>)
        requires
            card.fits(),
        ensures
            out@ == Seq::new(
                shown(card, count as int) as nat,
                |i: int| device_row(card, i),
            ),
    {
        let capacity: usize = Self::device_capacity(card);
        let total: usize = if count <= capacity {
            count
        } else {
            capacity
        };
        let mut out: Vec<Rect> = Vec::new();
        let mut i: usize = 0;
        while i < total
            invariant
                card.fits(),
                total == shown(card, count as int),
                total <= room_for(card),
                i <= total,
                out@ == Seq::new(i as nat, |i: int| device_row(card, i)),
            decreases total - i,
        {
            out.push(Self::device_row(card, i));
            i = i + 1;
            assert(out@ =~= Seq::new(i as nat, |i: int| device_row(card, i)));
        }
        out
    }

    /// The card of one direction.
    pub fn device_card(&self, direction: Direction) -> (out: Rect)
        ensures
            out == (match direction {
                Direction::Output => self.devices@[0],
                Direction::Input => self.devices@[1],
            }),
    {
        match direction {
            Direction::Output => self.devices[0],
            Direction::Input => self.devices[1],
        }
    }

    /// Whether every card is somewhere a panel can be.
    pub open spec fn placed(self) -> bool {
        &&& self.devices@[0].fits()
        &&& self.devices@[1].fits()
        &&& forall|i: int|
            0 <= i < 3 ==> ((#[trigger] self.sliders@[i]) matches Some(card) ==> card.fits())
    }

    /// Which device entry is under a point, outputs first.
    pub open spec fn entry(self, outputs: int, inputs: int, x: int, y: int) -> Option<
        (Direction, int),
    > {
        match entry_at(self.devices@[0], outputs, x, y) {
            Some(index) => Some((Direction::Output, index)),
            None => match entry_at(self.devices@[1], inputs, x, y) {
                Some(index) => Some((Direction::Input, index)),
                None => None,
            },
        }
    }

    fn entry_of(card: Rect, count: usize, x: i64, y: i64) -> (out: Option<usize>)
        requires
            card.fits(),
        ensures
            match out {
                Some(index) => entry_at(card, count as int, x as int, y as int) == Some(
                    index as int,
                ) && index < count,
                None => entry_at(card, count as int, x as int, y as int) is None,
            },
    {
        let capacity: usize = Self::device_capacity(card);
        let mut i: usize = 0;
        while i < count && i < capacity
            invariant
                card.fits(),
                capacity == room_for(card),
                i <= count,
                i <= capacity,
                entry_at(card, i as int, x as int, y as int) is None,
            decreases count - i,
        {
            proof {
                lemma_row(card, i as int);
            }
            let row = Self::device_row(card, i);
            let inside: bool = x >= row.x && x < row.x + row.w && y >= row.y && y < row.y + row.h;
            if inside {
                proof {
                    lemma_entry_stays(card, i + 1, count as int, x as int, y as int);
                }
                return Some(i);
            }
            i = i + 1;
        }
        proof {
            lemma_entry_absent(card, i as int, count as int, x as int, y as int);
        }
        None
    }

    /// Which device entry is under a point.
    pub fn device_at(&self, x: i64, y: i64, audio: &Audio) -> (out: Option<(Direction, usize)>)
        requires
            self.placed(),
        ensures
            match out {
                Some((direction, index)) => self.entry(
                    audio.outputs@.len() as int,
                    audio.inputs@.len() as int,
                    x as int,
                    y as int,
                ) == Some((direction, index as int)) && index < side(*audio, direction).len(),
                None => self.entry(
                    audio.outputs@.len() as int,
                    audio.inputs@.len() as int,
                    x as int,
                    y as int,
                ) is None,
            },
    {
        match Self::entry_of(self.devices[0], audio.outputs.len(), x, y) {
            Some(index) => Some((Direction::Output, index)),
            None => match Self::entry_of(self.devices[1], audio.inputs.len(), x, y) {
                Some(index) => Some((Direction::Input, index)),
                None => None,
            },
        }
    }

    /// A knob's card, where it has one.
    pub fn slider(&self, knob: Knob) -> (out: Option<Rect>)
        ensures
            out == self.sliders@[knob.place()],
    {
        match knob {
            Knob::Glasses => self.sliders[0],
            Knob::Screen => self.sliders[1],
            Knob::Volume => self.sliders[2],
        }
    }

    /// Whether a knob's card is under a point.
    pub open spec fn under(self, knob: Knob, x: int, y: int) -> bool {
        self.sliders@[knob.place()] matches Some(card) && card.has(x, y)
    }

    /// The first knob whose card is under a point.
    pub open spec fn grabbed(self, x: int, y: int) -> Option<Knob> {
        if self.under(Knob::Glasses, x, y) {
            Some(Knob::Glasses)
        } else if self.under(Knob::Screen, x, y) {
            Some(Knob::Screen)
        } else if self.under(Knob::Volume, x, y) {
            Some(Knob::Volume)
        } else {
            None
        }
    }

    fn on(&self, knob: Knob, x: i64, y: i64) -> (out: bool)
        requires
            self.placed(),
        ensures
            out == self.under(knob, x as int, y as int),
    {
        match self.slider(knob) {
            Some(card) => card.contains(x, y),
            None => false,
        }
    }

    /// Which knob is under a point, and where along it, in millionths.
    pub fn knob_at(&self, x: i64, y: i64) -> (out: Option<(Knob, u32)>)
        requires
            self.placed(),
        ensures
            match out {
                Some((knob, share)) => {
                    &&& self.grabbed(x as int, y as int) == Some(knob)
                    &&& share == track_in(self.sliders@[knob.place()]->0).across(x as int)
                },
                None => self.grabbed(x as int, y as int) is None,
            },
    {
        let knob = if self.on(Knob::Glasses, x, y) {
            Knob::Glasses
        } else if self.on(Knob::Screen, x, y) {
            Knob::Screen
        } else if self.on(Knob::Volume, x, y) {
            Knob::Volume
        } else {
            return None;
        };
        match self.slider(knob) {
            Some(card) => {
                let track = Self::track(card);
                Some((knob, along(track, x)))
            },
            None => None,
        }
    }
}

/// Where `x` sits across a track, whose ends may lie a little past where its card does.
pub(crate) fn along(track: Rect, x: i64) -> (out: u32)
    requires
        -2 * REACH <= track.x <= 2 * REACH,
        0 < track.w <= REACH,
    ensures
        out == track.across(x as int),
{
    if x <= track.x {
        proof {
            lemma_not_above_zero((x - track.x) * WHOLE, track.w as int);
        }
        return 0;
    }
    let q: i128 = (x as i128 - track.x as i128) * WHOLE as i128 / track.w as i128;
    if q > WHOLE as i128 {
        WHOLE
    } else {
        q as u32
    }
}

proof fn lemma_entry_stays(card: Rect, from: int, to: int, x: int, y: int)
    requires
        from <= to,
        entry_at(card, from, x, y) is Some,
    ensures
        entry_at(card, to, x, y) == entry_at(card, from, x, y),
    decreases to - from,
{
    if from < to {
        lemma_entry_stays(card, from, to - 1, x, y);
    }
}

proof fn lemma_entry_absent(card: Rect, from: int, to: int, x: int, y: int)
    requires
        from <= to,
        from == to || from >= room_for(card),
        entry_at(card, from, x, y) is None,
    ensures
        entry_at(card, to, x, y) is None,
    decreases to - from,
{
    if from < to {
        lemma_entry_absent(card, from, to - 1, x, y);
    }
}

/// The layout's promises for any panel with room for it.
impl Size {
    /// Whether the panel is large enough that no card had to be given a size it has not.
    pub open spec fn roomy(self) -> bool {
        self.w > 136 && self.h > 242
    }
}

/// No card overlaps another, whatever is on the panel: the first card under a finger is the only
/// one, so no control is unreachable and no touch is two things at once.
pub proof fn cards_do_not_overlap(size: Size, levels: Levels, a: Knob, b: Knob, i: int, j: int)
    requires
        size.roomy(),
        0 <= i < j < 3,
    ensures
        size.slot(0, i).apart(size.slot(0, j)),
        a != b ==> (size.slider(levels, a) matches Some(x) ==> (size.slider(levels, b) matches Some(
            y,
        ) ==> x.apart(y))),
        size.slider(levels, a) matches Some(x) ==> size.slot(0, i).apart(x) && size.slot(
            0,
            j,
        ).apart(x),
        size.device_card(Direction::Output).apart(size.device_card(Direction::Input)),
        size.slider(levels, a) matches Some(x) ==> x.apart(size.device_card(Direction::Output))
            && x.apart(size.device_card(Direction::Input)),
        size.slot(0, i).apart(size.device_card(Direction::Output)),
        size.slot(0, i).apart(size.device_card(Direction::Input)),
{
    size.lemma_sizes();
    size.lemma_slots();
}

impl Size {
    /// Every card that was laid out is somewhere a panel can be.
    pub proof fn lemma_placed(self, levels: Levels, rows: Rows)
        requires
            laid_out(self, levels, rows),
        ensures
            rows.placed(),
    {
        self.lemma_sizes();
        assert forall|i: int| 0 <= i < 3 implies ((#[trigger] rows.sliders@[i]) matches Some(card)
            ==> card.fits()) by {
            assert(i == 0 || i == 1 || i == 2);
        }
    }

    /// Every graph's card is somewhere a panel can be.
    pub proof fn lemma_graphs(self)
        ensures
            self.slot(0, 0).fits() && self.slot(0, 0).h >= 0,
            self.slot(0, 1).fits() && self.slot(0, 1).h >= 0,
            self.slot(0, 2).fits() && self.slot(0, 2).h >= 0,
    {
        self.lemma_sizes();
    }

    proof fn lemma_slots(self)
        ensures
            self.slot(0, 0).y == Self::top(),
            self.slot(0, 1).y == Self::top() + self.card() + CARD_GAP,
            self.slot(0, 2).y == Self::top() + 2 * (self.card() + CARD_GAP),
            self.slot(1, 0).y == Self::top(),
            self.slot(1, 1).y == Self::top() + self.card() + CARD_GAP,
            self.slot(1, 2).y == Self::top() + 2 * (self.card() + CARD_GAP),
            forall|c: int, i: int|
                #![trigger self.slot(c, i)]
                0 <= c <= 1 && 0 <= i <= 2 ==> self.slot(c, i).h == self.card() && self.slot(
                    c,
                    i,
                ).w == self.column() && self.slot(c, i).x == self.left_of(c),
    {
        self.lemma_sizes();
        let p = self.card() + CARD_GAP;
        assert(p * 0 == 0 && p * 1 == p && p * 2 == p + p);
    }
}

/// Every card stands inside the panel's margins: there is no scrolling, so a card past the bottom
/// edge is simply invisible. The columns fill the width between the margins exactly, and the rows
/// the height.
#[verifier::spinoff_prover]
#[verifier::rlimit(50)]
pub proof fn every_card_fits_on_the_panel(size: Size, levels: Levels, knob: Knob)
    requires
        size.roomy(),
    ensures
        size.slot(0, 2).y + size.slot(0, 2).h == size.h * PIXEL - MARGIN,
        size.slider(levels, knob) matches Some(card) ==> card.y + card.h <= size.h * PIXEL - MARGIN
            && card.x + card.w <= size.w * PIXEL - MARGIN,
        size.device_card(Direction::Input).y + size.device_card(Direction::Input).h == size.h
            * PIXEL - MARGIN,
        size.device_card(Direction::Output).x + size.device_card(Direction::Output).w == size.w
            * PIXEL - MARGIN,
{
    size.lemma_sizes();
    size.lemma_slots();
}

/// The graphs and the sliders share three rows, so the two line up across the gutter.
pub proof fn the_columns_line_up(size: Size, i: int)
    requires
        size.roomy(),
        0 <= i < 3,
    ensures
        size.slot(0, i).y == size.slot(1, i).y,
        size.slot(0, i).h == size.slot(1, i).h,
        size.slot(0, i).x + size.slot(0, i).w < size.slot(1, i).x,
{
    size.lemma_sizes();
    size.lemma_slots();
}

/// A reading that is absent leaves no hole: what comes below it moves up one place.
pub proof fn an_absent_reading_closes_up(size: Size, levels: Levels)
    requires
        levels.glasses is None,
    ensures
        size.slider(levels, Knob::Glasses) is None,
        levels.screen is Some ==> size.slider(levels, Knob::Screen) == Some(size.slot(1, 0)),
        levels.screen is Some && levels.volume is Some ==> size.slider(levels, Knob::Volume)
            == Some(size.slot(1, 1)),
        levels.screen is None && levels.volume is Some ==> size.slider(levels, Knob::Volume)
            == Some(size.slot(1, 0)),
{
}

/// A share is where a point is along a rectangle: nothing at its left end and before, the whole at
/// its right end and past it, and between them in proportion, in millionths rounded down. It never
/// falls as the point moves right.
pub proof fn a_share_is_in_proportion(rect: Rect, x: int, further: int)
    requires
        rect.w > 0,
    ensures
        x <= rect.x ==> rect.across(x) == 0,
        rect.x + rect.w <= x ==> rect.across(x) == 1_000_000,
        rect.x <= x <= rect.x + rect.w ==> rect.across(x) * rect.w <= (x - rect.x) * 1_000_000 < (
        rect.across(x) + 1) * rect.w,
        x <= further ==> rect.across(x) <= rect.across(further),
{
    lemma_share_of(rect, x);
    lemma_share_of(rect, further);
    let w = rect.w as int;
    if x <= further {
        let (n, m) = ((x - rect.x) * WHOLE, (further - rect.x) * WHOLE);
        assert(n / w <= m / w) by (nonlinear_arith)
            requires
                n <= m,
                w > 0,
        ;
    }
}

proof fn lemma_share_of(rect: Rect, x: int)
    requires
        rect.w > 0,
    ensures
        x <= rect.x ==> rect.across(x) == 0,
        rect.x + rect.w <= x ==> rect.across(x) == 1_000_000,
        rect.x <= x <= rect.x + rect.w ==> rect.across(x) * rect.w <= (x - rect.x) * 1_000_000 < (
        rect.across(x) + 1) * rect.w,
{
    let w = rect.w as int;
    let n = (x - rect.x) * 1_000_000;
    let q = n / w;
    assert(q * w <= n < (q + 1) * w) by (nonlinear_arith)
        requires
            q == n / w,
            w > 0,
    ;
    assert(n <= 0 ==> q <= 0) by (nonlinear_arith)
        requires
            q * w <= n,
            w > 0,
    ;
    assert(0 <= n ==> 0 <= q) by (nonlinear_arith)
        requires
            n < (q + 1) * w,
            w > 0,
    ;
    assert(w * 1_000_000 <= n ==> 1_000_000 <= q) by (nonlinear_arith)
        requires
            n < (q + 1) * w,
            w > 0,
    ;
    assert(n <= w * 1_000_000 ==> q <= 1_000_000) by (nonlinear_arith)
        requires
            q * w <= n,
            w > 0,
    ;
}

/// A slider's track is inside its card: as far from its left side as from its right and from its
/// bottom, and as tall as a bar.
pub proof fn a_track_is_inside_its_card(card: Rect)
    requires
        card.fits(),
        card.w > 2 * CARD_PAD,
    ensures
        ({
            let track = track_in(card);
            &&& track.w > 0
            &&& track.x - card.x == CARD_PAD
            &&& (card.x + card.w) - (track.x + track.w) == CARD_PAD || track.w == PIXEL
            &&& (card.y + card.h) - (track.y + track.h) == CARD_PAD
            &&& track.h == BAR_HEIGHT
        }),
{
}

/// The entry under a point is one that is drawn, and is the one drawn there; where none is drawn
/// there, there is none.
pub proof fn an_entry_is_found_where_it_is_drawn(
    card: Rect,
    count: int,
    x: int,
    y: int,
    index: int,
)
    requires
        card.fits(),
        0 <= count,
    ensures
        entry_at(card, count, x, y) == Some(index) <==> 0 <= index < count && index < room_for(card)
            && device_row(card, index).has(x, y),
    decreases count,
{
    if count > 0 {
        an_entry_is_found_where_it_is_drawn(card, count - 1, x, y, index);
        match entry_at(card, count - 1, x, y) {
            Some(found) => {
                an_entry_is_found_where_it_is_drawn(card, count - 1, x, y, found);
                if index == count - 1 && index < room_for(card) {
                    device_rows_stay_in_their_card(card, found, index);
                }
            },
            None => {},
        }
    }
}

/// A device card has room for as many whole entries as there is height for, under its heading and
/// clear of its bottom: not one more would fit, and an entry is a row of the card's width.
pub proof fn a_card_holds_what_fits(card: Rect, index: int)
    requires
        card.fits(),
        0 <= index < room_for(card),
    ensures
        DEVICE_TOP + room_for(card) * DEVICE_ROW <= card.h - CARD_PAD / 2,
        card.h - CARD_PAD / 2 < DEVICE_TOP + (room_for(card) + 1) * DEVICE_ROW,
        device_row(card, 0).y == card.y + DEVICE_TOP,
        device_row(card, index).y == device_row(card, 0).y + index * DEVICE_ROW,
        device_row(card, index).h == DEVICE_ROW,
        device_row(card, index).x == card.x + CARD_PAD / 2,
        card.w > CARD_PAD + PIXEL ==> device_row(card, index).x + device_row(card, index).w
            == card.x + card.w - CARD_PAD / 2,
{
    lemma_row(card, index);
    lemma_row(card, 0);
}

/// The knobs stand under each other in the middle column, the glasses above the screen and the
/// screen above the volume, each only where it has a reading of its own, and the topmost level
/// with the first graph.
pub proof fn the_knobs_stand_in_order(size: Size, levels: Levels, knob: Knob)
    requires
        size.roomy(),
    ensures
        size.slider(levels, Knob::Glasses) is Some <==> levels.glasses is Some,
        size.slider(levels, Knob::Screen) is Some <==> levels.screen is Some,
        size.slider(levels, Knob::Volume) is Some <==> levels.volume is Some,
        size.slider(levels, Knob::Glasses) matches Some(first) ==> {
            &&& first.y == size.slot(0, 0).y
            &&& size.slider(levels, Knob::Screen) matches Some(next) ==> next.y == first.y + first.h
                + CARD_GAP
        },
        size.slider(levels, Knob::Screen) matches Some(first) ==> {
            size.slider(levels, Knob::Volume) matches Some(next) ==> next.y == first.y + first.h
                + CARD_GAP
        },
        size.slider(levels, knob) matches Some(card) ==> card.x == size.slot(1, 0).x && card.w
            == size.slot(0, 0).w && card.h == size.slot(0, 0).h,
{
    size.lemma_sizes();
    size.lemma_slots();
}

/// A layout is three columns under the header. The graphs stand in the first, under each other; the
/// knobs in the second, each in its own place in the list; and the outputs over the inputs in the
/// third, which ends where the header does.
pub proof fn a_layout_is_three_columns(size: Size, levels: Levels, rows: Rows)
    requires
        laid_out(size, levels, rows),
        size.roomy(),
    ensures
        ({
            let (g, d) = (rows.graphs@, rows.devices@);
            let header = rows.header;
            &&& header.x == MARGIN && header.y == MARGIN && header.h == HEADER_HEIGHT
            &&& header.x + header.w == 300 * size.w - MARGIN
            &&& g[0].x == MARGIN && g[1].x == MARGIN && g[2].x == MARGIN
            &&& g[0].y == header.y + header.h + HEADER_GAP
            &&& g[1].y == g[0].y + g[0].h + CARD_GAP && g[2].y == g[1].y + g[1].h + CARD_GAP
            &&& rows.sliders@[0] == size.slider(levels, Knob::Glasses)
            &&& rows.sliders@[1] == size.slider(levels, Knob::Screen)
            &&& rows.sliders@[2] == size.slider(levels, Knob::Volume)
            &&& forall|i: int|
                0 <= i < 3 ==> ((#[trigger] rows.sliders@[i]) matches Some(card) ==> card.x
                    == g[0].x + g[0].w + COLUMN_GAP && card.w == g[0].w)
            &&& d[0].x == g[0].x + 2 * (g[0].w + COLUMN_GAP) && d[1].x == d[0].x
            &&& d[0].y == g[0].y && d[1].y == d[0].y + d[0].h + CARD_GAP && d[0].h == d[1].h
            &&& d[0].x + d[0].w == header.x + header.w
        }),
{
    size.lemma_sizes();
    size.lemma_slots();
    assert forall|i: int| 0 <= i < 3 implies ((#[trigger] rows.sliders@[i]) matches Some(card)
        ==> card.x == rows.graphs@[0].x + rows.graphs@[0].w + COLUMN_GAP && card.w
        == rows.graphs@[0].w) by {
        assert(i == 0 || i == 1 || i == 2);
    }
}

} // verus!
