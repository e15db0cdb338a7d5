//! What the panel shows: its text, and the shapes behind it.
//!
//! A near-black ground with cards lifted off it by a few percent of white, one accent, and two
//! weights of text. Every card reads the same way: what it is on the left, what it says on the
//! right, the reading about twice the size of its name. The eye learns one shape and then only has
//! to find the numbers.

use vstd::prelude::*;
use crate::devices::{Audio, AudioDevice, DeviceView, Direction, devices, side};
use crate::sidecar::keys::{KeyRect, MOST_CAP, cap_of, is_keyboard, keyboard_on};
use crate::sidecar::panel::{Aspect, Sidecar, exit_button_of, page_button_of};
use crate::sidecar::{
    CARD_GAP, CARD_PAD, DEVICE_TEXT, HEADER_HEIGHT, HEADER_TEXT, Knob, LABEL_TEXT, Levels, MARGIN,
    PAGE_BUTTON_HEIGHT, POWER_SYMBOL, Page, Rect, Rows, Size, VALUE_TEXT, device_row,
    laid_out, shown,
};
use crate::system::{Monitors, Series, WHOLE, floor_div, round, rounded};
use crate::text::{decimal, string, to_decimal};

verus! {

/// The panel's colours.
#[derive(Debug, Clone, Copy, PartialEq, Eq, Structural)]
pub enum Colour {
    /// Text that says something.
    Ink,
    /// Text that names something.
    Dim,
    Ground,
    /// Cards. Barely there on purpose — enough to say where a thing begins and ends, not enough to
    /// compete with its contents.
    Card,
    /// The unfilled part of a slider, and a button's plate.
    Track,
    Accent,
    /// The graph fill.
    Graph,
    /// The exit button while it is filling. Red, because this is the one control on the panel that
    /// throws work away.
    Danger,
    /// The plate behind the device in use.
    Chosen,
    /// A key with a finger on it. Brighter than a latch, because it lasts only as long as the
    /// finger does and has to be visible in that time.
    Held,
    /// A latched key.
    Latched,
    /// The dot under a finger.
    Finger,
}

impl Colour {
    /// Red, green, blue and opacity, in thousandths.
    pub open spec fn parts(self) -> Seq<u16> {
        match self {
            Colour::Ink => seq![940, 960, 1000, 1000],
            Colour::Dim => seq![620, 670, 780, 1000],
            Colour::Ground => seq![35, 40, 55, 1000],
            Colour::Card => seq![1000, 1000, 1000, 55],
            Colour::Track => seq![1000, 1000, 1000, 130],
            Colour::Accent => seq![420, 680, 1000, 1000],
            Colour::Graph => seq![420, 680, 1000, 850],
            Colour::Danger => seq![900, 320, 300, 1000],
            Colour::Chosen => seq![420, 680, 1000, 220],
            Colour::Held => seq![1000, 1000, 1000, 550],
            Colour::Latched => seq![420, 680, 1000, 850],
            Colour::Finger => seq![1000, 1000, 1000, 220],
        }
    }

    /// Red, green, blue and opacity, in thousandths.
    pub fn rgba(self) -> (out: [u16; 4])
        ensures
            out@ == self.parts(),
    {
        let out: [u16; 4] = match self {
            Colour::Ink => [940, 960, 1000, 1000],
            Colour::Dim => [620, 670, 780, 1000],
            Colour::Ground => [35, 40, 55, 1000],
            Colour::Card => [1000, 1000, 1000, 55],
            Colour::Track => [1000, 1000, 1000, 130],
            Colour::Accent => [420, 680, 1000, 1000],
            Colour::Graph => [420, 680, 1000, 850],
            Colour::Danger => [900, 320, 300, 1000],
            Colour::Chosen => [420, 680, 1000, 220],
            Colour::Held => [1000, 1000, 1000, 550],
            Colour::Latched => [420, 680, 1000, 850],
            Colour::Finger => [1000, 1000, 1000, 220],
        };
        assert(out@ =~= self.parts());
        out
    }
}

/// Which way a piece of text runs from its `x`. The width of a piece of text is not known until it
/// has been rasterised, so only then can it be placed.
#[derive(Debug, Clone, Copy, PartialEq, Eq, Structural)]
pub enum Align {
    /// `x` is the left edge.
    Left,
    /// `x` is the right edge.
    Right,
    /// Centred in a box of this width, whose left edge is `x`.
    Within(i64),
}

/// One piece of text on the panel.
#[derive(Debug, Clone)]
pub struct Caption {
    pub text: String,
    pub x: i64,
    pub y: i64,
    pub height: i64,
    pub align: Align,
    pub colour: Colour,
}

/// A caption and the characters it is made of.
pub struct CaptionView {
    pub text: Seq<char>,
    pub x: int,
    pub y: int,
    pub height: int,
    pub align: Align,
    pub colour: Colour,
}

impl View for Caption {
    type V = CaptionView;

    open spec fn view(&self) -> CaptionView {
        CaptionView {
            text: self.text@,
            x: self.x as int,
            y: self.y as int,
            height: self.height as int,
            align: self.align,
            colour: self.colour,
        }
    }
}

/// A list of captions, each as what it says.
pub open spec fn captions(v: Seq<Caption>) -> Seq<CaptionView> {
    v.map_values(|c: Caption| c@)
}

fn caption(
    out: &mut Vec<Caption>,
    text: String,
    x: i64,
    y: i64,
    height: i64,
    align: Align,
    colour: Colour,
)
    ensures
        captions(final(out)@) == captions(old(out)@).push(
            (CaptionView {
                text: text@,
                x: x as int,
                y: y as int,
                height: height as int,
                align,
                colour,
            }),
        ),
{
    let ghost was = out@;
    out.push(Caption { text, x, y, height, align, colour });
    assert(captions(out@) =~= captions(was).push(out@.last()@));
}

impl Caption {
    /// Where the text goes, once rasterising it has told how wide it is: `aspect` is its width over
    /// its height, in millionths. A caption too narrow to have a shape still takes a hundredth.
    pub open spec fn spot(self, aspect: int) -> Rect {
        Rect {
            x: self.starts(aspect) as i64,
            y: self.y,
            w: self.runs(aspect) as i64,
            h: self.height,
        }
    }

    /// How wide the text is.
    pub open spec fn runs(self, aspect: int) -> int {
        self.height * (if aspect < 10_000 {
            10_000
        } else {
            aspect
        }) / (WHOLE as int)
    }

    /// Where the text begins.
    pub open spec fn starts(self, aspect: int) -> int {
        match self.align {
            Align::Left => self.x as int,
            Align::Right => self.x - self.runs(aspect),
            Align::Within(room) => self.x + (room - self.runs(aspect)) / 2,
        }
    }

    /// Where the text goes, once rasterising it has told how wide it is.
    pub fn placed(&self, aspect: u32) -> (out: Rect)
        requires
            i64::MIN <= self.runs(aspect as int) <= i64::MAX,
            i64::MIN <= self.starts(aspect as int) <= i64::MAX,
        ensures
            out == self.spot(aspect as int),
    {
        let share: u32 = if aspect < 10_000 {
            10_000
        } else {
            aspect
        };
        assert(-0x8000_0000_0000_0000 * 4_294_967_295 <= self.height * share
            <= 0x8000_0000_0000_0000 * 4_294_967_295) by (nonlinear_arith)
            requires
                -0x8000_0000_0000_0000 <= self.height <= 0x8000_0000_0000_0000,
                0 <= share <= 4_294_967_295,
        ;
        let w: i128 = floor_div(self.height as i128 * share as i128, WHOLE as u64);
        let x: i128 = match self.align {
            Align::Left => self.x as i128,
            Align::Right => self.x as i128 - w,
            Align::Within(room) => self.x as i128 + floor_div(room as i128 - w, 2),
        };
        Rect { x: x as i64, y: self.y, w: w as i64, h: self.height }
    }

    /// The pixel size to rasterise the text at: a little over a third again as large as it is
    /// drawn, to the nearest pixel.
    pub fn raster_size(&self) -> (out: u64)
        requires
            0 <= self.height,
        ensures
            out == rounded((self.height * 9) as nat, 2_000),
    {
        let large: u128 = self.height as u128 * 9;
        let out: u128 = round(large, 2_000);
        assert(large / 2_000 <= 0x8000_0000_0000_0000);
        out as u64
    }
}

/// A share as a whole percentage.
pub open spec fn percent(value: nat) -> Seq<char> {
    decimal(rounded(value, 10_000)).push('%')
}

fn percent_text(value: u32) -> (out: String)
    ensures
        out@ == percent(value as nat),
{
    let n: u128 = round(value as u128, 10_000);
    let mut digits: Vec<char> = to_decimal(n as u64);
    digits.push('%');
    string(digits.as_slice())
}

/// A card's heading: its name, and twice the size, what it says.
pub open spec fn heading(card: Rect, name: Seq<char>, reading: Seq<char>) -> Seq<CaptionView> {
    seq![
        CaptionView {
            text: name,
            x: card.x + CARD_PAD,
            y: card.y + CARD_PAD,
            height: LABEL_TEXT as int,
            align: Align::Left,
            colour: Colour::Dim,
        },
        CaptionView {
            text: reading,
            x: card.x + card.w - CARD_PAD,
            y: card.y + CARD_PAD - (VALUE_TEXT - LABEL_TEXT) / 2,
            height: VALUE_TEXT as int,
            align: Align::Right,
            colour: Colour::Ink,
        },
    ]
}

fn card_heading(out: &mut Vec<Caption>, card: Rect, name: &str, reading: String)
    requires
        card.fits(),
    ensures
        captions(final(out)@) == captions(old(out)@) + heading(card, name@, reading@),
{
    let ghost was = captions(out@);
    let ghost said = reading@;
    caption(
        out,
        name.to_owned(),
        card.x + CARD_PAD,
        card.y + CARD_PAD,
        LABEL_TEXT,
        Align::Left,
        Colour::Dim,
    );
    caption(
        out,
        reading,
        card.x + card.w - CARD_PAD,
        card.y + CARD_PAD - (VALUE_TEXT - LABEL_TEXT) / 2,
        VALUE_TEXT,
        Align::Right,
        Colour::Ink,
    );
    assert(captions(out@) =~= was + heading(card, name@, said));
}

/// A header button's symbol, centred in its capsule.
pub open spec fn symbol(button: Rect, text: Seq<char>, size: int) -> CaptionView {
    CaptionView {
        text,
        x: button.x as int,
        y: button.y + (button.h - size) / 2,
        height: size,
        align: Align::Within(button.w),
        colour: Colour::Ink,
    }
}

/// The power symbol, which everyone already reads without being taught.
pub open spec fn power() -> Seq<char> {
    "\u{23FB}"@
}

/// The header: a symbol in each button, and the clock, large, on the ground rather than on a plate.
pub open spec fn header_captions(size: Size, page: Page, status: Seq<char>) -> Seq<CaptionView> {
    let exit = exit_button_of(size);
    seq![
        symbol(page_button_of(size), page.symbol().0, page.symbol().1),
        symbol(exit, power(), POWER_SYMBOL as int),
        CaptionView {
            text: status,
            x: exit.x + exit.w + CARD_GAP,
            y: MARGIN + (HEADER_HEIGHT - HEADER_TEXT) / 2,
            height: HEADER_TEXT as int,
            align: Align::Left,
            colour: Colour::Ink,
        },
    ]
}

/// A measurement's latest reading.
pub open spec fn newest(series: Series) -> nat {
    if series.history().len() == 0 {
        0
    } else {
        series.history().last() as nat
    }
}

/// The left column's text.
pub open spec fn graph_captions(size: Size, monitors: Monitors) -> Seq<CaptionView> {
    heading(size.slot(0, 0), monitors.cpu.label@, percent(newest(monitors.cpu))) + heading(
        size.slot(0, 1),
        monitors.gpu.label@,
        percent(newest(monitors.gpu)),
    ) + heading(size.slot(0, 2), monitors.memory.label@, percent(newest(monitors.memory)))
}

/// One slider's text, where it has a reading.
pub open spec fn slider_captions(size: Size, levels: Levels, knob: Knob) -> Seq<CaptionView> {
    match (size.slider(levels, knob), levels.of(knob)) {
        (Some(card), Some(value)) => heading(card, knob.named(), percent(value as nat)),
        _ => Seq::empty(),
    }
}

/// One device's name. Clear of the dot that marks the current one, and by the same amount whether
/// or not this row has one, so the list does not step sideways.
pub open spec fn device_caption(card: Rect, device: DeviceView, index: int) -> CaptionView {
    let row = device_row(card, index);
    CaptionView {
        text: device.name,
        x: row.x + CARD_PAD / 2 + DEVICE_TEXT + CARD_PAD / 2,
        y: row.y + (row.h - DEVICE_TEXT) / 2,
        height: DEVICE_TEXT as int,
        align: Align::Left,
        colour: if device.is_default {
            Colour::Ink
        } else {
            Colour::Dim
        },
    }
}

/// What an empty device list says, rather than leaving an empty card, which reads as something
/// still loading.
pub open spec fn none_found() -> Seq<char> {
    "None found"@
}

/// The names in one device list.
pub open spec fn entry_captions(card: Rect, list: Seq<DeviceView>) -> Seq<CaptionView> {
    if list.len() == 0 {
        seq![
            CaptionView {
                text: none_found(),
                x: card.x + CARD_PAD,
                y: card.y + 2 * CARD_PAD + LABEL_TEXT,
                height: DEVICE_TEXT as int,
                align: Align::Left,
                colour: Colour::Dim,
            },
        ]
    } else {
        Seq::new(
            shown(card, list.len() as int) as nat,
            |i: int| device_caption(card, list[i], i),
        )
    }
}

/// One device card's text.
pub open spec fn device_captions(card: Rect, direction: Direction, list: Seq<DeviceView>) -> Seq<
    CaptionView,
> {
    seq![
        CaptionView {
            text: direction.named(),
            x: card.x + CARD_PAD,
            y: card.y + CARD_PAD,
            height: LABEL_TEXT as int,
            align: Align::Left,
            colour: Colour::Dim,
        },
    ] + entry_captions(card, list)
}

/// Everything the dashboard says.
pub open spec fn dashboard_captions(
    size: Size,
    monitors: Monitors,
    levels: Levels,
    audio: Audio,
) -> Seq<CaptionView> {
    graph_captions(size, monitors) + slider_captions(size, levels, Knob::Glasses)
        + slider_captions(size, levels, Knob::Screen) + slider_captions(size, levels, Knob::Volume)
        + device_captions(
        size.device_card(Direction::Output),
        Direction::Output,
        side(audio, Direction::Output),
    ) + device_captions(
        size.device_card(Direction::Input),
        Direction::Input,
        side(audio, Direction::Input),
    )
}

/// A key as the panel draws it.
#[derive(Debug, Clone)]
pub struct Keycap {
    pub rect: KeyRect,
    pub code: u32,
    /// What it types with nothing latched.
    pub name: String,
    /// What it would type now.
    pub label: String,
    pub modifier: bool,
    pub latched: bool,
}

/// The keyboard as the panel draws it.
#[derive(Debug, Clone)]
pub struct Keyboard {
    pub aspect: Aspect,
    pub keys: Vec<Keycap>,
    pub toggle: KeyRect,
    /// Whether the click is on.
    pub click: bool,
    /// The speaker, which says which way the click is.
    pub speaker: String,
}

impl Keyboard {
    /// A keyboard has a shape.
    pub open spec fn wf(self) -> bool {
        self.aspect.wide > 0 && self.aspect.tall > 0
    }
}

/// Text centred in a cap.
pub open spec fn centred(cap: Rect, text: Seq<char>, size: int, colour: Colour) -> CaptionView {
    CaptionView {
        text,
        x: cap.x as int,
        y: cap.y + (cap.h - size) / 2,
        height: size,
        align: Align::Within(cap.w),
        colour,
    }
}

/// One key's label. Words are set smaller than letters, so "space" fits its cap without the letters
/// shrinking to match the longest label on the board; a latched key is drawn on a bright plate, so
/// its label goes dark to stay readable.
pub open spec fn key_caption(area: Rect, key: Keycap) -> CaptionView {
    let cap = cap_of(area, key.rect);
    centred(
        cap,
        key.label@,
        if key.label@.len() > 1 {
            cap.h * 34 / 100
        } else {
            cap.h * 48 / 100
        },
        if key.latched {
            Colour::Ground
        } else {
            Colour::Ink
        },
    )
}

/// The speaker's label, dimmed when off, so the control reads as inactive at a glance rather than
/// only once the crossed-out speaker has been made out.
pub open spec fn toggle_caption(area: Rect, keyboard: Keyboard) -> CaptionView {
    let cap = cap_of(area, keyboard.toggle);
    centred(
        cap,
        keyboard.speaker@,
        cap.h * 105 / 100,
        if keyboard.click {
            Colour::Ink
        } else {
            Colour::Dim
        },
    )
}

/// Everything the keyboard says.
pub open spec fn keyboard_captions(area: Rect, keyboard: Keyboard) -> Seq<CaptionView> {
    Seq::new(keyboard.keys@.len(), |i: int| key_caption(area, keyboard.keys@[i])).push(
        toggle_caption(area, keyboard),
    )
}

fn headings(panel: &Sidecar, status: &str) -> (out: Vec<Caption>)
    ensures
        captions(out@) == header_captions(panel.size, panel.page, status@),
{
    let mut out: Vec<Caption> = Vec::new();
    assert(captions(out@) =~= Seq::empty());
    let (text, size) = panel.page.button_label();
    let button = panel.page_button();
    caption(
        &mut out,
        text.to_owned(),
        button.x,
        button.y + (PAGE_BUTTON_HEIGHT - size) / 2,
        size,
        Align::Within(button.w),
        Colour::Ink,
    );
    let exit = panel.exit_button();
    // Half of what is left over, which is less than nothing: the symbol's box overhangs its button.
    let above: i64 = 0 - (POWER_SYMBOL - PAGE_BUTTON_HEIGHT) / 2;
    caption(
        &mut out,
        "\u{23FB}".to_owned(),
        exit.x,
        exit.y + above,
        POWER_SYMBOL,
        Align::Within(exit.w),
        Colour::Ink,
    );
    caption(
        &mut out,
        status.to_owned(),
        panel.clock_x(),
        MARGIN + (HEADER_HEIGHT - HEADER_TEXT) / 2,
        HEADER_TEXT,
        Align::Left,
        Colour::Ink,
    );
    assert(captions(out@) =~= header_captions(panel.size, panel.page, status@));
    out
}

fn say_graphs(
    out: &mut Vec<Caption>,
    size: Size,
    rows: &Rows,
    levels: Levels,
    monitors: &Monitors,
)
    requires
        laid_out(size, levels, *rows),
    ensures
        captions(final(out)@) == captions(old(out)@) + graph_captions(size, *monitors),
{
    proof {
        size.lemma_graphs();
    }
    let ghost was = captions(out@);
    card_heading(out, rows.graphs[0], monitors.cpu.label, percent_text(monitors.cpu.latest()));
    card_heading(out, rows.graphs[1], monitors.gpu.label, percent_text(monitors.gpu.latest()));
    card_heading(out, rows.graphs[2], monitors.memory.label, percent_text(monitors.memory.latest()));
    assert(captions(out@) =~= was + graph_captions(size, *monitors));
}

proof fn lemma_regroup<T>(
    a: Seq<T>,
    b: Seq<T>,
    c: Seq<T>,
    d: Seq<T>,
    e: Seq<T>,
    f: Seq<T>,
    g: Seq<T>,
)
    ensures
        a + b + c + d + e + f + g == a + (b + c + d + e + f + g),
{
    assert(a + b + c + d + e + f + g =~= a + (b + c + d + e + f + g));
}

fn say_slider(out: &mut Vec<Caption>, size: Size, rows: &Rows, levels: Levels, knob: Knob)
    requires
        laid_out(size, levels, *rows),
    ensures
        captions(final(out)@) == captions(old(out)@) + slider_captions(size, levels, knob),
{
    proof {
        size.lemma_placed(levels, *rows);
    }
    let ghost was = captions(out@);
    if let Some(card) = rows.slider(knob) {
        if let Some(value) = levels.get(knob) {
            card_heading(out, card, knob.label(), percent_text(value));
            return;
        }
    }
    assert(was + Seq::<CaptionView>::empty() =~= was);
}

fn say_devices(out: &mut Vec<Caption>, card: Rect, direction: Direction, list: &[AudioDevice])
    requires
        card.fits(),
    ensures
        captions(final(out)@) == captions(old(out)@) + device_captions(
            card,
            direction,
            devices(list@),
        ),
{
    let ghost was = captions(out@);
    caption(
        out,
        direction.label().to_owned(),
        card.x + CARD_PAD,
        card.y + CARD_PAD,
        LABEL_TEXT,
        Align::Left,
        Colour::Dim,
    );
    if list.len() == 0 {
        caption(
            out,
            "None found".to_owned(),
            card.x + CARD_PAD,
            card.y + 2 * CARD_PAD + LABEL_TEXT,
            DEVICE_TEXT,
            Align::Left,
            Colour::Dim,
        );
        assert(captions(out@) =~= was + device_captions(card, direction, devices(list@)));
        return;
    }
    let ghost named = captions(out@);
    let rows = Rows::device_rows(card, list.len());
    let mut i: usize = 0;
    while i < rows.len()
        invariant
            card.fits(),
            i <= rows.len(),
            list@.len() > 0,
            rows@ == Seq::new(
                shown(card, list@.len() as int) as nat,
                |i: int| device_row(card, i),
            ),
            captions(out@) == named + Seq::new(
                i as nat,
                |i: int| device_caption(card, devices(list@)[i], i),
            ),
        decreases rows.len() - i,
    {
        let row = rows[i];
        proof {
            crate::sidecar::lemma_row(card, i as int);
        }
        let ghost before = captions(out@);
        caption(
            out,
            list[i].name.clone(),
            row.x + CARD_PAD / 2 + DEVICE_TEXT + CARD_PAD / 2,
            row.y + (row.h - DEVICE_TEXT) / 2,
            DEVICE_TEXT,
            Align::Left,
            if list[i].is_default {
                Colour::Ink
            } else {
                Colour::Dim
            },
        );
        assert(captions(out@) =~= named + Seq::new(
            (i + 1) as nat,
            |i: int| device_caption(card, devices(list@)[i], i),
        ));
        i = i + 1;
    }
    assert(captions(out@) =~= was + device_captions(card, direction, devices(list@)));
}

fn part_of(length: i64, hundredths: i64) -> (out: i64)
    requires
        0 <= length <= MOST_CAP,
        0 <= hundredths <= 105,
    ensures
        out == length * hundredths / 100,
        0 <= out <= 2 * MOST_CAP,
{
    assert(0 <= length * hundredths <= 200_000_000_000_000_000 * 105) by (nonlinear_arith)
        requires
            0 <= length <= 200_000_000_000_000_000,
            0 <= hundredths <= 105,
    ;
    (length as i128 * hundredths as i128 / 100) as i64
}

fn say_keys(out: &mut Vec<Caption>, panel: &Sidecar, area: Rect, keyboard: &Keyboard)
    requires
        is_keyboard(area),
    ensures
        captions(final(out)@) == captions(old(out)@) + keyboard_captions(area, *keyboard),
{
    let ghost was = captions(out@);
    let mut i: usize = 0;
    assert(was =~= was + Seq::new(0, |i: int| key_caption(area, keyboard.keys@[i])));
    while i < keyboard.keys.len()
        invariant
            is_keyboard(area),
            i <= keyboard.keys.len(),
            captions(out@) == was + Seq::new(
                i as nat,
                |i: int| key_caption(area, keyboard.keys@[i]),
            ),
        decreases keyboard.keys.len() - i,
    {
        let key = &keyboard.keys[i];
        let cap = panel.cap_rect(area, key.rect);
        proof {
            crate::sidecar::keys::lemma_cap(area, key.rect);
        }
        let size: i64 = if key.label.as_str().unicode_len() > 1 {
            part_of(cap.h, 34)
        } else {
            part_of(cap.h, 48)
        };
        caption(
            out,
            key.label.clone(),
            cap.x,
            cap.y + (cap.h - size) / 2,
            size,
            Align::Within(cap.w),
            if key.latched {
                Colour::Ground
            } else {
                Colour::Ink
            },
        );
        assert(captions(out@) =~= was + Seq::new(
            (i + 1) as nat,
            |i: int| key_caption(area, keyboard.keys@[i]),
        ));
        i = i + 1;
    }
    let cap = panel.cap_rect(area, keyboard.toggle);
    proof {
        crate::sidecar::keys::lemma_cap(area, keyboard.toggle);
    }
    let size: i64 = part_of(cap.h, 105);
    // Half of what is left over, rounded down; the speaker is set taller than its cap.
    let above: i64 = 0 - (size - cap.h + 1) / 2;
    caption(
        out,
        keyboard.speaker.clone(),
        cap.x,
        cap.y + above,
        size,
        Align::Within(cap.w),
        if keyboard.click {
            Colour::Ink
        } else {
            Colour::Dim
        },
    );
    assert(captions(out@) =~= was + keyboard_captions(area, *keyboard));
}

impl Sidecar {
    /// Everything the panel says.
    pub open spec fn says(
        self,
        monitors: Monitors,
        status: Seq<char>,
        levels: Levels,
        audio: Audio,
        keyboard: Keyboard,
    ) -> Seq<CaptionView> {
        header_captions(self.size, self.page, status) + (match self.page {
            Page::Keyboard => keyboard_captions(
                keyboard_on(self.size, keyboard.aspect),
                keyboard,
            ),
            Page::Dashboard => dashboard_captions(self.size, monitors, levels, audio),
        })
    }

    /// Work out the text to draw.
    pub fn prepare(
        &self,
        monitors: &Monitors,
        status: &str,
        levels: Levels,
        audio: &Audio,
        keyboard: &Keyboard,
    ) -> (out: Vec<Caption>)
        requires
            keyboard.wf(),
        ensures
            captions(out@) == self.says(*monitors, status@, levels, *audio, *keyboard),
    {
        let mut out = headings(self, status);
        if self.page == Page::Keyboard {
            let area = self.keyboard_area(keyboard.aspect);
            say_keys(&mut out, self, area, keyboard);
            return out;
        }
        let rows = self.rows(levels);
        proof {
            self.size.lemma_placed(levels, rows);
        }
        say_graphs(&mut out, self.size, &rows, levels, monitors);
        say_slider(&mut out, self.size, &rows, levels, Knob::Glasses);
        say_slider(&mut out, self.size, &rows, levels, Knob::Screen);
        say_slider(&mut out, self.size, &rows, levels, Knob::Volume);
        say_devices(
            &mut out,
            rows.device_card(Direction::Output),
            Direction::Output,
            audio.list(Direction::Output),
        );
        say_devices(
            &mut out,
            rows.device_card(Direction::Input),
            Direction::Input,
            audio.list(Direction::Input),
        );
        proof {
            lemma_regroup(
                header_captions(self.size, self.page, status@),
                graph_captions(self.size, *monitors),
                slider_captions(self.size, levels, Knob::Glasses),
                slider_captions(self.size, levels, Knob::Screen),
                slider_captions(self.size, levels, Knob::Volume),
                device_captions(
                    self.size.device_card(Direction::Output),
                    Direction::Output,
                    side(*audio, Direction::Output),
                ),
                device_captions(
                    self.size.device_card(Direction::Input),
                    Direction::Input,
                    side(*audio, Direction::Input),
                ),
            );
        }
        out
    }
}

/// A caption goes where it is aligned: from its place to the right, from its place to the left, or
/// as far from one end of its room as from the other; and it keeps the shape of its text.
pub proof fn a_caption_goes_where_it_is_aligned(caption: Caption, aspect: int)
    requires
        10_000 <= aspect,
        0 <= caption.height,
    ensures
        ({
            let (start, run) = (caption.starts(aspect), caption.runs(aspect));
            &&& caption.align is Left ==> start == caption.x
            &&& caption.align is Right ==> start + run == caption.x
            &&& caption.align matches Align::Within(room) ==> 2 * (start - caption.x) <= room - run
                <= 2 * (start - caption.x) + 1
            &&& run * 1_000_000 <= caption.height * aspect < (run + 1) * 1_000_000
        }),
{
}

/// A share reads as its nearest whole percentage, with the sign for it at the end.
pub proof fn a_share_reads_as_a_percentage(value: nat)
    ensures
        percent(value).last() == '%',
        crate::text::number(percent(value).drop_last()) == Some(rounded(value, 10_000)),
        2 * (rounded(value, 10_000) * 10_000) <= 2 * value + 10_000,
        2 * value <= 2 * (rounded(value, 10_000) * 10_000) + 10_000,
{
    let digits = decimal(rounded(value, 10_000));
    crate::text::decimal_reads_back(rounded(value, 10_000));
    crate::system::rounding_is_to_the_nearest(value, 10_000);
    assert(digits.push('%').drop_last() =~= digits);
}

/// A card's heading is its name at its left and what it says at its right, both inside the card and
/// level with each other, the second the larger.
pub proof fn a_heading_stands_in_its_card(card: Rect, name: Seq<char>, reading: Seq<char>)
    ensures
        ({
            let said = heading(card, name, reading);
            &&& said.len() == 2
            &&& said[0].text == name && said[1].text == reading
            &&& said[0].align is Left && said[1].align is Right
            &&& said[0].x - card.x == CARD_PAD
            &&& (card.x + card.w) - said[1].x == CARD_PAD
            &&& said[0].height < said[1].height
            &&& 2 * said[0].y + said[0].height == 2 * said[1].y + said[1].height
        }),
{
}

/// Each graph says its own newest reading, and each slider its own; a slider with no reading says
/// nothing.
pub proof fn each_card_says_its_own_reading(size: Size, monitors: Monitors, levels: Levels)
    ensures
        ({
            let said = graph_captions(size, monitors);
            &&& said.len() == 6
            &&& said[0].text == monitors.cpu.label@ && said[1].text == percent(newest(monitors.cpu))
            &&& said[2].text == monitors.gpu.label@ && said[3].text == percent(newest(monitors.gpu))
            &&& said[4].text == monitors.memory.label@ && said[5].text == percent(
                newest(monitors.memory),
            )
            &&& monitors.cpu.history().len() > 0 ==> newest(monitors.cpu)
                == monitors.cpu.history().last()
            &&& said[0].x == size.slot(0, 0).x + CARD_PAD && said[0].y == size.slot(0, 0).y
                + CARD_PAD
            &&& said[2].x == size.slot(0, 1).x + CARD_PAD && said[2].y == size.slot(0, 1).y
                + CARD_PAD
            &&& said[4].x == size.slot(0, 2).x + CARD_PAD && said[4].y == size.slot(0, 2).y
                + CARD_PAD
        }),
        levels.glasses matches Some(value) ==> slider_captions(size, levels, Knob::Glasses)[1].text
            == percent(value as nat),
        levels.screen matches Some(value) ==> slider_captions(size, levels, Knob::Screen)[1].text
            == percent(value as nat),
        levels.volume matches Some(value) ==> slider_captions(size, levels, Knob::Volume)[1].text
            == percent(value as nat),
        levels.glasses is None ==> slider_captions(size, levels, Knob::Glasses).len() == 0,
        levels.screen is None ==> slider_captions(size, levels, Knob::Screen).len() == 0,
        levels.volume is None ==> slider_captions(size, levels, Knob::Volume).len() == 0,
{
}

/// A device's name is written on its own row, bright where it is the one in use and dim where it is
/// not, and no further along for being so. A list of none says so rather than nothing.
pub proof fn a_device_is_named_on_its_row(card: Rect, list: Seq<DeviceView>, i: int)
    requires
        0 <= i < list.len(),
        i < crate::sidecar::room_for(card),
    ensures
        ({
            let said = entry_captions(card, list);
            let row = device_row(card, i);
            &&& said.len() <= list.len()
            &&& said[i].text == list[i].name
            &&& list[i].is_default <==> said[i].colour == Colour::Ink
            &&& said[i].x == device_caption(
                card,
                DeviceView { is_default: !list[i].is_default, ..list[i] },
                i,
            ).x
            &&& said[i].x > row.x
            &&& 2 * (said[i].y - row.y) <= row.h - said[i].height <= 2 * (said[i].y - row.y) + 1
            &&& entry_captions(card, Seq::empty()).len() == 1
        }),
{
}

/// Every key says what it would type, in the middle of its own cap, dark on a latched one; and after
/// them the speaker, dimmed while it is off.
pub proof fn a_key_says_what_it_would_type(area: Rect, keyboard: Keyboard, i: int)
    requires
        0 <= i < keyboard.keys@.len(),
    ensures
        ({
            let said = keyboard_captions(area, keyboard);
            let cap = cap_of(area, keyboard.keys@[i].rect);
            &&& said.len() == keyboard.keys@.len() + 1
            &&& said[i].text == keyboard.keys@[i].label@
            &&& said[i].x == cap.x && said[i].align == Align::Within(cap.w)
            &&& 2 * (said[i].y - cap.y) <= cap.h - said[i].height <= 2 * (said[i].y - cap.y) + 1
            &&& keyboard.keys@[i].latched <==> said[i].colour == Colour::Ground
            &&& said.last().text == keyboard.speaker@
            &&& keyboard.click <==> said.last().colour == Colour::Ink
        }),
{
}

} // verus!
