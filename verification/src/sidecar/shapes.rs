//! The shapes the panel draws, back to front. Text goes over all of them.

use vstd::prelude::*;
use crate::devices::{Audio, AudioDevice, DeviceView, Direction, devices, side};
use crate::sidecar::keys::{MOST_CAP, cap_of, is_keyboard, keyboard_on, lemma_cap};
use crate::sidecar::panel::{Sidecar, exit_button_of, in_reach, page_button_of};
use crate::sidecar::picture::{Colour, Keyboard, Keycap};
use crate::sidecar::{
    BAR_HEIGHT, CARD_PAD, CARD_RADIUS, DEVICE_ROW, DEVICE_TEXT, HOLD_TO_EXIT, Knob, Levels,
    PAGE_BUTTON_HEIGHT, PIXEL, Page, Rect, Rows, Size, at_least, device_row, laid_out, lemma_row,
    shown, track_in,
};
use crate::system::{HISTORY, Monitors, Series, WHOLE, clamped, floor_div};
use crate::text::chars;

verus! {

/// A fill, rounded by a radius or plain.
#[derive(Debug, Clone, Copy, PartialEq, Eq, Structural)]
pub struct Shape {
    pub rect: Rect,
    pub colour: Colour,
    pub radius: Option<i64>,
}

/// A rounded fill.
pub open spec fn rounded_fill(rect: Rect, colour: Colour, radius: int) -> Shape {
    Shape { rect, colour, radius: Some(radius as i64) }
}

/// How far in the exit button's fill stands from its capsule.
pub const INSET: i64 = 1_500;

/// A slider's handle: a little larger than the bar it rides on.
pub const HANDLE: i64 = 13_260;

/// The dot under a finger.
pub const FINGER: i64 = 16_800;

/// The shortest bar a graph draws.
pub const SHORTEST: i64 = 450;

/// The exit button's fill: round while it is narrower than it is tall, so it begins as a dot and
/// becomes a pill rather than starting as a full-height hairline that pokes out through the
/// capsule's rounded end.
pub open spec fn exit_fill(exit: Rect, progress: int) -> Seq<Shape> {
    let w = at_least(exit.w - 2 * INSET, 0) * progress / (WHOLE as int);
    if w >= PIXEL {
        let full = at_least(exit.h - 2 * INSET, PIXEL as int);
        let h = if full < w {
            full
        } else {
            w
        };
        seq![
            rounded_fill(
                Rect {
                    x: (exit.x + INSET) as i64,
                    y: (exit.y + (exit.h - h) / 2) as i64,
                    w: w as i64,
                    h: h as i64,
                },
                Colour::Danger,
                h / 2,
            ),
        ]
    } else {
        Seq::empty()
    }
}

/// The ground and the two header buttons, on both pages.
pub open spec fn header_shapes(size: Size, progress: int) -> Seq<Shape> {
    seq![
        Shape {
            rect: Rect { x: 0, y: 0, w: (size.w * PIXEL) as i64, h: (size.h * PIXEL) as i64 },
            colour: Colour::Ground,
            radius: None,
        },
        rounded_fill(page_button_of(size), Colour::Track, PAGE_BUTTON_HEIGHT as int / 2),
        rounded_fill(exit_button_of(size), Colour::Track, PAGE_BUTTON_HEIGHT as int / 2),
    ] + exit_fill(exit_button_of(size), progress)
}

/// Where a card's graph goes: the upper part of the card is for the label and the reading.
pub open spec fn plot_in(card: Rect) -> Rect {
    Rect {
        x: (card.x + CARD_PAD) as i64,
        y: (card.y + card.h * 42 / 100) as i64,
        w: (card.w - 2 * CARD_PAD) as i64,
        h: (card.h * 58 / 100 - CARD_PAD) as i64,
    }
}

/// How tall a reading's bar is.
pub open spec fn bar_height(plot: Rect, value: int) -> int {
    at_least(clamped(value) * plot.h / (WHOLE as int), SHORTEST as int)
}

/// How wide every bar is: a hairline short of its column, so a flat reading is a texture rather
/// than a solid block, and never under six tenths of it.
pub open spec fn bar_width(plot: Rect) -> int {
    at_least(plot.w as int / 90 - PIXEL, plot.w as int / 150)
}

/// One sample's bar. Right-aligned, so the newest sample is always at the same edge even before
/// the history has filled up: a left-aligned graph appears to scroll while filling and then stops,
/// which looks like it has frozen.
pub open spec fn bar(plot: Rect, count: int, index: int, value: int) -> Shape {
    let h = bar_height(plot, value);
    Shape {
        rect: Rect {
            x: (plot.x + (HISTORY - count + index) * plot.w / 90) as i64,
            y: (plot.y + plot.h - h) as i64,
            w: bar_width(plot) as i64,
            h: h as i64,
        },
        colour: Colour::Graph,
        radius: None,
    }
}

/// A filled area graph, oldest sample on the left.
pub open spec fn bars(plot: Rect, history: Seq<u32>) -> Seq<Shape> {
    Seq::new(
        history.len(),
        |i: int| bar(plot, history.len() as int, i, history[i] as int),
    )
}

/// One measurement's card.
pub open spec fn graph_shapes(card: Rect, history: Seq<u32>) -> Seq<Shape> {
    seq![rounded_fill(card, Colour::Card, CARD_RADIUS as int)] + bars(plot_in(card), history)
}

/// The filled part of a slider: never narrower than a full circle, so that zero still shows a
/// handle to grab rather than nothing at all.
pub open spec fn filled(track: Rect, value: int) -> Rect {
    Rect {
        w: at_least(track.w * clamped(value) / (WHOLE as int), track.h as int) as i64,
        ..track
    }
}

/// One slider's card: its track, how much of it is filled, and a handle, because a filled bar
/// alone says how loud it is where a handle says that it may be moved.
pub open spec fn slider_shapes(card: Rect, value: int) -> Seq<Shape> {
    let track = track_in(card);
    let fill = filled(track, value);
    seq![
        rounded_fill(card, Colour::Card, CARD_RADIUS as int),
        rounded_fill(track, Colour::Track, BAR_HEIGHT as int / 2),
        rounded_fill(fill, Colour::Accent, BAR_HEIGHT as int / 2),
        rounded_fill(
            Rect {
                x: (fill.x + fill.w - HANDLE as int / 2) as i64,
                y: (track.y + BAR_HEIGHT as int / 2 - HANDLE as int / 2) as i64,
                w: HANDLE,
                h: HANDLE,
            },
            Colour::Ink,
            HANDLE as int / 2,
        ),
    ]
}

/// One knob's card, where it has a reading.
pub open spec fn knob_shapes(size: Size, levels: Levels, knob: Knob) -> Seq<Shape> {
    match (size.slider(levels, knob), levels.of(knob)) {
        (Some(card), Some(value)) => slider_shapes(card, value as int),
        _ => Seq::empty(),
    }
}

/// What marks the device in use: the eye finds it by looking for the one thing on the card that is
/// lit rather than by comparing five similar rows.
pub open spec fn mark(card: Rect, index: int) -> Seq<Shape> {
    let row = device_row(card, index);
    let dot = DEVICE_TEXT as int / 2;
    seq![
        rounded_fill(row, Colour::Chosen, DEVICE_ROW as int / 2),
        rounded_fill(
            Rect {
                x: (row.x + CARD_PAD / 2) as i64,
                y: (row.y + (DEVICE_ROW - dot) / 2) as i64,
                w: dot as i64,
                h: dot as i64,
            },
            Colour::Accent,
            dot / 2,
        ),
    ]
}

/// The marks of the first so many entries.
pub open spec fn marks(card: Rect, list: Seq<DeviceView>, count: int) -> Seq<Shape>
    decreases count,
{
    if count <= 0 {
        Seq::empty()
    } else {
        marks(card, list, count - 1) + (if list[count - 1].is_default {
            mark(card, count - 1)
        } else {
            Seq::empty()
        })
    }
}

/// One device card.
pub open spec fn device_shapes(card: Rect, list: Seq<DeviceView>) -> Seq<Shape> {
    seq![rounded_fill(card, Colour::Card, CARD_RADIUS as int)] + marks(
        card,
        list,
        shown(card, list.len() as int),
    )
}

/// A dot under every finger. This is the only confirmation the panel gives that a touch arrived at
/// all.
pub open spec fn finger_shapes(touches: Seq<(usize, i64, i64)>) -> Seq<Shape> {
    Seq::new(
        touches.len(),
        |i: int|
            rounded_fill(
                Rect {
                    x: (touches[i].1 - FINGER / 2) as i64,
                    y: (touches[i].2 - FINGER / 2) as i64,
                    w: FINGER,
                    h: FINGER,
                },
                Colour::Finger,
                FINGER as int / 2,
            ),
    )
}

/// Whether a name takes more than one byte to write.
pub open spec fn long(name: Seq<char>) -> bool {
    name.len() > 1 || (name.len() == 1 && name[0] as u32 >= 0x80)
}

/// Whether any finger is on a key.
pub open spec fn is_pressed(pressed: Seq<(usize, u32)>, code: u32) -> bool {
    exists|i: int| 0 <= i < pressed.len() && (#[trigger] pressed[i]).1 == code
}

/// A key's plate.
pub open spec fn key_colour(pressed: Seq<(usize, u32)>, key: Keycap) -> Colour {
    if is_pressed(pressed, key.code) {
        Colour::Held
    } else if key.latched {
        Colour::Latched
    } else if key.modifier || long(key.name@) {
        Colour::Card
    } else {
        Colour::Track
    }
}

/// A cap, rounded by part of its shorter side.
pub open spec fn cap_shape(cap: Rect, colour: Colour) -> Shape {
    rounded_fill(
        cap,
        colour,
        (if cap.h < cap.w {
            cap.h
        } else {
            cap.w
        }) * 22 / 100,
    )
}

/// Every key, and the sound toggle above them: drawn as a cap, because it is something to press,
/// and held back rather than accented, so that on a keyboard whose default is on it is not the
/// brightest thing on the panel.
pub open spec fn key_shapes(area: Rect, pressed: Seq<(usize, u32)>, keyboard: Keyboard) -> Seq<
    Shape,
> {
    Seq::new(
        keyboard.keys@.len(),
        |i: int|
            cap_shape(
                cap_of(area, keyboard.keys@[i].rect),
                key_colour(pressed, keyboard.keys@[i]),
            ),
    ).push(
        cap_shape(
            cap_of(area, keyboard.toggle),
            if keyboard.click {
                Colour::Track
            } else {
                Colour::Card
            },
        ),
    )
}

/// The three columns.
pub open spec fn dashboard_shapes(
    size: Size,
    monitors: Monitors,
    levels: Levels,
    audio: Audio,
) -> Seq<Shape> {
    graph_shapes(size.slot(0, 0), monitors.cpu.history()) + graph_shapes(
        size.slot(0, 1),
        monitors.gpu.history(),
    ) + graph_shapes(size.slot(0, 2), monitors.memory.history()) + knob_shapes(
        size,
        levels,
        Knob::Glasses,
    ) + knob_shapes(size, levels, Knob::Screen) + knob_shapes(size, levels, Knob::Volume)
        + device_shapes(size.device_card(Direction::Output), side(audio, Direction::Output))
        + device_shapes(size.device_card(Direction::Input), side(audio, Direction::Input))
}

fn fill(out: &mut Vec<Shape>, rect: Rect, colour: Colour, radius: i64)
    ensures
        final(out)@ == old(out)@.push(rounded_fill(rect, colour, radius as int)),
{
    out.push(Shape { rect, colour, radius: Some(radius) });
}

/// A length's share, rounded down.
fn portion(share: u32, length: i64) -> (out: i64)
    requires
        share <= WHOLE,
        -0x10_0000_0000_0000 <= length <= 0x10_0000_0000_0000,
    ensures
        out == share * length / (WHOLE as int),
        -0x10_0000_0000_0000 <= out <= 0x10_0000_0000_0000,
{
    proof {
        lemma_portion(share as int, length as int);
    }
    floor_div(share as i128 * length as i128, WHOLE as u64) as i64
}

proof fn lemma_portion(share: int, length: int)
    requires
        0 <= share <= 1_000_000,
        -0x10_0000_0000_0000 <= length <= 0x10_0000_0000_0000,
    ensures
        -0x10_0000_0000_0000 * 1_000_000 <= share * length <= 0x10_0000_0000_0000 * 1_000_000,
        -0x10_0000_0000_0000 <= share * length / 1_000_000 <= 0x10_0000_0000_0000,
{
    assert(-0x10_0000_0000_0000 * 1_000_000 <= share * length <= 0x10_0000_0000_0000 * 1_000_000)
        by (nonlinear_arith)
        requires
            0 <= share <= 1_000_000,
            -0x10_0000_0000_0000 <= length <= 0x10_0000_0000_0000,
    ;
}

fn header(panel: &Sidecar, progress: u32) -> (out: Vec<Shape>)
    requires
        progress <= WHOLE,
    ensures
        out@ == header_shapes(panel.size, progress as int),
{
    let mut out: Vec<Shape> = Vec::new();
    let ground = Rect {
        x: 0,
        y: 0,
        w: panel.size.w as i64 * PIXEL,
        h: panel.size.h as i64 * PIXEL,
    };
    out.push(Shape { rect: ground, colour: Colour::Ground, radius: None });
    fill(&mut out, panel.page_button(), Colour::Track, PAGE_BUTTON_HEIGHT / 2);
    let exit = panel.exit_button();
    fill(&mut out, exit, Colour::Track, PAGE_BUTTON_HEIGHT / 2);
    let room: i64 = if exit.w - 2 * INSET < 0 {
        0
    } else {
        exit.w - 2 * INSET
    };
    let w: i64 = portion(progress, room);
    assert(room * progress == progress * room) by (nonlinear_arith);
    assert(w >= 0) by (nonlinear_arith)
        requires
            room >= 0,
            progress >= 0,
            w == (progress * room) / 1_000_000,
    ;
    if w >= PIXEL {
        let full: i64 = PAGE_BUTTON_HEIGHT - 2 * INSET;
        let h: i64 = if full < w {
            full
        } else {
            w
        };
        fill(
            &mut out,
            Rect { x: exit.x + INSET, y: exit.y + (exit.h - h) / 2, w, h },
            Colour::Danger,
            h / 2,
        );
    }
    assert(out@ =~= header_shapes(panel.size, progress as int));
    out
}

/// Whether everything about a plot can be worked out.
pub open spec fn plottable(plot: Rect) -> bool {
    &&& -0x8_0000_0000_0000 <= plot.x <= 0x8_0000_0000_0000
    &&& -0x8_0000_0000_0000 <= plot.y <= 0x8_0000_0000_0000
    &&& -0x8_0000_0000_0000 <= plot.w <= 0x8_0000_0000_0000
    &&& -0x8_0000_0000_0000 <= plot.h <= 0x8_0000_0000_0000
}

fn draw_series(out: &mut Vec<Shape>, plot: Rect, series: &Series)
    requires
        plottable(plot),
        series.wf(),
    ensures
        final(out)@ == old(out)@ + bars(plot, series.history()),
{
    let samples = series.samples();
    let count: usize = samples.len();
    let ghost was = out@;
    let column: i64 = floor_div(plot.w as i128, 90) as i64;
    let least: i64 = floor_div(plot.w as i128, 150) as i64;
    let width: i64 = if column - PIXEL < least {
        least
    } else {
        column - PIXEL
    };
    let mut i: usize = 0;
    assert(was =~= was + bars(plot, series.history()).take(0));
    while i < count
        invariant
            i <= count,
            count == samples.len(),
            count <= HISTORY,
            plottable(plot),
            samples@ == series.history(),
            series.wf(),
            width == bar_width(plot),
            out@ == was + bars(plot, series.history()).take(i as int),
        decreases count - i,
    {
        let place: i64 = (HISTORY - count + i) as i64;
        assert(-90 * 0x8_0000_0000_0000 <= place * plot.w <= 90 * 0x8_0000_0000_0000)
            by (nonlinear_arith)
            requires
                0 <= place <= 90,
                -0x8_0000_0000_0000 <= plot.w <= 0x8_0000_0000_0000,
        ;
        let x: i64 = floor_div(place as i128 * plot.w as i128, 90) as i64;
        let tall: i64 = portion(samples[i], plot.h);
        let h: i64 = if tall < SHORTEST {
            SHORTEST
        } else {
            tall
        };
        let rect = Rect { x: plot.x + x, y: plot.y + plot.h - h, w: width, h };
        out.push(Shape { rect, colour: Colour::Graph, radius: None });
        assert(bars(plot, series.history()).take(i + 1) =~= bars(plot, series.history()).take(
            i as int,
        ).push(bar(plot, count as int, i as int, samples@[i as int] as int)));
        assert(out@ =~= was + bars(plot, series.history()).take(i + 1));
        i = i + 1;
    }
    assert(bars(plot, series.history()).take(i as int) =~= bars(plot, series.history()));
}

fn draw_graph(out: &mut Vec<Shape>, card: Rect, series: &Series)
    requires
        card.fits(),
        card.h >= 0,
        series.wf(),
    ensures
        final(out)@ == old(out)@ + graph_shapes(card, series.history()),
{
    let ghost was = out@;
    fill(out, card, Colour::Card, CARD_RADIUS);
    let plot = Rect {
        x: card.x + CARD_PAD,
        y: card.y + card.h * 42 / 100,
        w: card.w - 2 * CARD_PAD,
        h: card.h * 58 / 100 - CARD_PAD,
    };
    draw_series(out, plot, series);
    assert(out@ =~= was + graph_shapes(card, series.history()));
}

fn draw_slider(out: &mut Vec<Shape>, card: Rect, value: u32)
    requires
        card.fits(),
    ensures
        final(out)@ == old(out)@ + slider_shapes(card, value as int),
{
    let ghost was = out@;
    let track = Rows::track(card);
    fill(out, card, Colour::Card, CARD_RADIUS);
    fill(out, track, Colour::Track, BAR_HEIGHT / 2);
    let share: u32 = if value > WHOLE {
        WHOLE
    } else {
        value
    };
    let w: i64 = portion(share, track.w);
    assert(track.w * share == share * track.w) by (nonlinear_arith);
    let fill_w: i64 = if w < BAR_HEIGHT {
        BAR_HEIGHT
    } else {
        w
    };
    fill(
        out,
        Rect { x: track.x, y: track.y, w: fill_w, h: track.h },
        Colour::Accent,
        BAR_HEIGHT / 2,
    );
    fill(
        out,
        Rect {
            x: track.x + fill_w - HANDLE / 2,
            y: track.y + BAR_HEIGHT / 2 - HANDLE / 2,
            w: HANDLE,
            h: HANDLE,
        },
        Colour::Ink,
        HANDLE / 2,
    );
    assert(out@ =~= was + slider_shapes(card, value as int));
}

fn draw_knob(out: &mut Vec<Shape>, size: Size, rows: &Rows, levels: Levels, knob: Knob)
    requires
        laid_out(size, levels, *rows),
    ensures
        final(out)@ == old(out)@ + knob_shapes(size, levels, knob),
{
    proof {
        size.lemma_placed(levels, *rows);
    }
    let ghost was = out@;
    if let Some(card) = rows.slider(knob) {
        if let Some(value) = levels.get(knob) {
            draw_slider(out, card, value);
            return;
        }
    }
    assert(was + Seq::<Shape>::empty() =~= was);
}

fn draw_devices(out: &mut Vec<Shape>, card: Rect, list: &[AudioDevice])
    requires
        card.fits(),
    ensures
        final(out)@ == old(out)@ + device_shapes(card, devices(list@)),
{
    let ghost was = out@;
    fill(out, card, Colour::Card, CARD_RADIUS);
    let ghost carded = out@;
    let rows = Rows::device_rows(card, list.len());
    let ghost all = devices(list@);
    let mut i: usize = 0;
    assert(carded =~= carded + marks(card, all, 0));
    while i < rows.len()
        invariant
            card.fits(),
            i <= rows.len(),
            all == devices(list@),
            rows@ == Seq::new(
                shown(card, list@.len() as int) as nat,
                |i: int| device_row(card, i),
            ),
            out@ == carded + marks(card, all, i as int),
        decreases rows.len() - i,
    {
        let row = rows[i];
        proof {
            lemma_row(card, i as int);
        }
        let ghost before = out@;
        if list[i].is_default {
            fill(out, row, Colour::Chosen, DEVICE_ROW / 2);
            let dot: i64 = DEVICE_TEXT / 2;
            fill(
                out,
                Rect {
                    x: row.x + CARD_PAD / 2,
                    y: row.y + (DEVICE_ROW - dot) / 2,
                    w: dot,
                    h: dot,
                },
                Colour::Accent,
                dot / 2,
            );
            assert(out@ =~= before + mark(card, i as int));
        }
        assert(out@ =~= carded + marks(card, all, i + 1));
        i = i + 1;
    }
    assert(out@ =~= was + device_shapes(card, all));
}

fn draw_touches(out: &mut Vec<Shape>, touches: &Vec<(usize, i64, i64)>)
    requires
        in_reach(touches@),
    ensures
        final(out)@ == old(out)@ + finger_shapes(touches@),
{
    let ghost was = out@;
    let mut i: usize = 0;
    assert(was =~= was + finger_shapes(touches@).take(0));
    while i < touches.len()
        invariant
            i <= touches.len(),
            in_reach(touches@),
            out@ == was + finger_shapes(touches@).take(i as int),
        decreases touches.len() - i,
    {
        let (_, x, y) = touches[i];
        fill(
            out,
            Rect { x: x - FINGER / 2, y: y - FINGER / 2, w: FINGER, h: FINGER },
            Colour::Finger,
            FINGER / 2,
        );
        assert(out@ =~= was + finger_shapes(touches@).take(i + 1));
        i = i + 1;
    }
    assert(finger_shapes(touches@).take(i as int) =~= finger_shapes(touches@));
}

fn any_finger_on(pressed: &Vec<(usize, u32)>, code: u32) -> (out: bool)
    ensures
        out == is_pressed(pressed@, code),
{
    let mut i: usize = 0;
    while i < pressed.len()
        invariant
            i <= pressed.len(),
            forall|j: int| 0 <= j < i ==> (#[trigger] pressed@[j]).1 != code,
        decreases pressed.len() - i,
    {
        if pressed[i].1 == code {
            assert(pressed@[i as int].1 == code);
            return true;
        }
        i = i + 1;
    }
    false
}

fn is_long(name: &str) -> (out: bool)
    ensures
        out == long(name@),
{
    let letters = chars(name);
    letters.len() > 1 || (letters.len() == 1 && letters[0] as u32 >= 0x80)
}

fn draw_cap(out: &mut Vec<Shape>, cap: Rect, colour: Colour)
    requires
        0 <= cap.w <= MOST_CAP,
        0 <= cap.h <= MOST_CAP,
    ensures
        final(out)@ == old(out)@.push(cap_shape(cap, colour)),
{
    let shorter: i64 = if cap.h < cap.w {
        cap.h
    } else {
        cap.w
    };
    fill(out, cap, colour, shorter * 22 / 100);
}

fn draw_keys(out: &mut Vec<Shape>, panel: &Sidecar, area: Rect, keyboard: &Keyboard)
    requires
        is_keyboard(area),
    ensures
        final(out)@ == old(out)@ + key_shapes(area, panel.pressed@, *keyboard),
{
    let ghost was = out@;
    let ghost whole = key_shapes(area, panel.pressed@, *keyboard);
    let mut i: usize = 0;
    assert(was =~= was + whole.take(0));
    while i < keyboard.keys.len()
        invariant
            is_keyboard(area),
            i <= keyboard.keys.len(),
            whole == key_shapes(area, panel.pressed@, *keyboard),
            out@ == was + whole.take(i as int),
        decreases keyboard.keys.len() - i,
    {
        let key = &keyboard.keys[i];
        let cap = panel.cap_rect(area, key.rect);
        proof {
            lemma_cap(area, key.rect);
        }
        let colour = if any_finger_on(&panel.pressed, key.code) {
            Colour::Held
        } else if key.latched {
            Colour::Latched
        } else if key.modifier || is_long(key.name.as_str()) {
            Colour::Card
        } else {
            Colour::Track
        };
        draw_cap(out, cap, colour);
        assert(whole.take(i + 1) =~= whole.take(i as int).push(cap_shape(cap, colour)));
        assert(out@ =~= was + whole.take(i + 1));
        i = i + 1;
    }
    let cap = panel.cap_rect(area, keyboard.toggle);
    proof {
        lemma_cap(area, keyboard.toggle);
    }
    draw_cap(
        out,
        cap,
        if keyboard.click {
            Colour::Track
        } else {
            Colour::Card
        },
    );
    assert(out@ =~= was + whole);
}

impl Sidecar {
    /// Everything the panel draws, but for text.
    pub open spec fn shows(
        self,
        monitors: Monitors,
        levels: Levels,
        audio: Audio,
        keyboard: Keyboard,
        progress: int,
    ) -> Seq<Shape> {
        header_shapes(self.size, progress) + (match self.page {
            Page::Keyboard => key_shapes(
                keyboard_on(self.size, keyboard.aspect),
                self.pressed@,
                keyboard,
            ),
            Page::Dashboard => dashboard_shapes(self.size, monitors, levels, audio),
        }) + finger_shapes(self.touches@)
    }

    /// Work out the shapes to draw, back to front.
    pub fn draw(
        &self,
        monitors: &Monitors,
        levels: Levels,
        audio: &Audio,
        keyboard: &Keyboard,
        now: u64,
    ) -> (out: Vec<Shape>)
        requires
            monitors.wf(),
            keyboard.wf(),
            self.wf(),
        ensures
            out@ == self.shows(
                *monitors,
                levels,
                *audio,
                *keyboard,
                match self.exit_hold {
                    Some((_, since)) => clamped((now - since) * WHOLE / (HOLD_TO_EXIT as int)),
                    None => 0,
                },
            ),
    {
        let progress: u32 = self.exit_progress(now);
        let mut out = header(self, progress);
        if self.page == Page::Keyboard {
            let area = self.keyboard_area(keyboard.aspect);
            draw_keys(&mut out, self, area, keyboard);
        } else {
            draw_dashboard(&mut out, self.size, monitors, levels, audio);
        }
        draw_touches(&mut out, &self.touches);
        out
    }
}

fn draw_graphs(out: &mut Vec<Shape>, size: Size, rows: &Rows, levels: Levels, monitors: &Monitors)
    requires
        laid_out(size, levels, *rows),
        monitors.wf(),
    ensures
        final(out)@ == old(out)@ + graph_shapes(size.slot(0, 0), monitors.cpu.history())
            + graph_shapes(size.slot(0, 1), monitors.gpu.history()) + graph_shapes(
            size.slot(0, 2),
            monitors.memory.history(),
        ),
{
    proof {
        size.lemma_graphs();
    }
    draw_graph(out, rows.graphs[0], &monitors.cpu);
    draw_graph(out, rows.graphs[1], &monitors.gpu);
    draw_graph(out, rows.graphs[2], &monitors.memory);
}

fn draw_dashboard(
    out: &mut Vec<Shape>,
    size: Size,
    monitors: &Monitors,
    levels: Levels,
    audio: &Audio,
)
    requires
        monitors.wf(),
    ensures
        final(out)@ == old(out)@ + dashboard_shapes(size, *monitors, levels, *audio),
{
    let ghost was = out@;
    let rows = crate::sidecar::lay_out(size, levels);
    proof {
        size.lemma_placed(levels, rows);
    }
    draw_graphs(out, size, &rows, levels, monitors);
    draw_knob(out, size, &rows, levels, Knob::Glasses);
    draw_knob(out, size, &rows, levels, Knob::Screen);
    draw_knob(out, size, &rows, levels, Knob::Volume);
    draw_devices(out, rows.device_card(Direction::Output), audio.list(Direction::Output));
    draw_devices(out, rows.device_card(Direction::Input), audio.list(Direction::Input));
    proof {
        lemma_together(
            was,
            graph_shapes(size.slot(0, 0), monitors.cpu.history()),
            graph_shapes(size.slot(0, 1), monitors.gpu.history()),
            graph_shapes(size.slot(0, 2), monitors.memory.history()),
            knob_shapes(size, levels, Knob::Glasses),
            knob_shapes(size, levels, Knob::Screen),
            knob_shapes(size, levels, Knob::Volume),
            device_shapes(size.device_card(Direction::Output), side(*audio, Direction::Output)),
            device_shapes(size.device_card(Direction::Input), side(*audio, Direction::Input)),
        );
    }
}

proof fn lemma_together(
    a: Seq<Shape>,
    b: Seq<Shape>,
    c: Seq<Shape>,
    d: Seq<Shape>,
    e: Seq<Shape>,
    f: Seq<Shape>,
    g: Seq<Shape>,
    h: Seq<Shape>,
    i: Seq<Shape>,
)
    ensures
        a + b + c + d + e + f + g + h + i == a + (b + c + d + e + f + g + h + i),
{
    assert(a + b + c + d + e + f + g + h + i =~= a + (b + c + d + e + f + g + h + i));
}

/// A graph's bars all stand on its floor, and a larger reading reaches at least as far up from it.
pub proof fn a_bar_grows_up_from_the_floor(plot: Rect, count: int, i: int, j: int, a: int, b: int)
    requires
        plottable(plot),
        plot.h >= 0,
        0 <= a <= b <= WHOLE,
        0 <= i < count <= HISTORY,
        0 <= j < count,
    ensures
        bar(plot, count, i, a).rect.y + bar(plot, count, i, a).rect.h == plot.y + plot.h,
        bar(plot, count, j, b).rect.y <= bar(plot, count, i, a).rect.y,
        bar_height(plot, WHOLE as int) == at_least(plot.h as int, SHORTEST as int),
{
    lemma_portion(a, plot.h as int);
    lemma_portion(b, plot.h as int);
    assert(a * plot.h <= b * plot.h) by (nonlinear_arith)
        requires
            a <= b,
            plot.h >= 0,
    ;
    assert(1_000_000 * plot.h / 1_000_000 == plot.h);
}

/// The newest sample is drawn in the same place however many came before it.
pub proof fn the_newest_bar_stays_put(plot: Rect, count: int, value: int)
    requires
        1 <= count <= HISTORY,
    ensures
        bar(plot, count, count - 1, value) == bar(plot, 1, 0, value),
{
}

/// A slider at zero still shows something to grab, and a full one fills its track.
pub proof fn a_slider_always_shows_a_handle(card: Rect, value: int)
    requires
        card.fits(),
    ensures
        filled(track_in(card), value).w >= track_in(card).h,
        value >= WHOLE ==> filled(track_in(card), value).w == at_least(
            track_in(card).w as int,
            BAR_HEIGHT as int,
        ),
{
    let track = track_in(card);
    let share = clamped(value);
    lemma_portion(share, track.w as int);
    assert(track.w * share == share * track.w) by (nonlinear_arith);
    assert(1_000_000 * track.w / 1_000_000 == track.w);
}

/// The exit button fills from its left as it is held: nothing at first, in proportion to how long it
/// has been held, and the whole of it but its inset when the hold is done. It is never taller than
/// it is wide, nor than the button.
pub proof fn the_exit_button_fills_from_its_left(exit: Rect, progress: int)
    requires
        exit.fits(),
        exit.w >= 2 * INSET + PIXEL,
        exit.h >= 2 * INSET + PIXEL,
        0 <= progress <= 1_000_000,
    ensures
        exit_fill(exit, 0).len() == 0,
        exit_fill(exit, progress).len() <= 1,
        exit_fill(exit, progress).len() == 1 ==> {
            let fill = exit_fill(exit, progress)[0].rect;
            &&& fill.x == exit.x + INSET
            &&& fill.w * 1_000_000 <= (exit.w - 2 * INSET) * progress < (fill.w + 1) * 1_000_000
            &&& fill.h <= fill.w
            &&& fill.h <= exit.h - 2 * INSET
            &&& fill.h == fill.w || fill.h == exit.h - 2 * INSET
        },
        exit_fill(exit, 1_000_000).len() == 1,
        exit_fill(exit, 1_000_000)[0].rect.w == exit.w - 2 * INSET,
{
    let room = exit.w - 2 * INSET;
    assert(room * 0 == 0);
    assert(room * 1_000_000 / 1_000_000 == room);
    assert(0 <= room * progress <= room * 1_000_000) by (nonlinear_arith)
        requires
            0 <= room,
            0 <= progress <= 1_000_000,
    ;
}

/// The buttons are drawn where they are pressed, over a ground that covers the whole panel.
pub proof fn the_buttons_are_drawn_where_they_are_pressed(size: Size, progress: int)
    ensures
        header_shapes(size, progress).len() >= 3,
        header_shapes(size, progress)[0].rect == (Rect {
            x: 0,
            y: 0,
            w: (300 * size.w) as i64,
            h: (300 * size.h) as i64,
        }),
        header_shapes(size, progress)[1].rect == page_button_of(size),
        header_shapes(size, progress)[2].rect == exit_button_of(size),
        header_shapes(size, progress).skip(3) == exit_fill(exit_button_of(size), progress),
{
    assert(header_shapes(size, progress).skip(3) =~= exit_fill(exit_button_of(size), progress));
}

/// A graph is inside its card, under its label, and draws one bar for each sample in the order they
/// were taken: each later one further right, by a ninetieth of the graph, and the newest in the
/// last place there is.
pub proof fn a_graph_runs_from_left_to_right(plot: Rect, history: Seq<u32>, i: int)
    requires
        plottable(plot),
        plot.w >= 0,
        plot.h >= 0,
        0 <= i < history.len() <= HISTORY,
    ensures
        bars(plot, history).len() == history.len(),
        bars(plot, history)[i] == bar(plot, history.len() as int, i, history[i] as int),
        ({
            let rect = bar(plot, history.len() as int, i, history[i] as int).rect;
            let places = HISTORY - history.len() + i;
            (rect.x - plot.x) * 90 <= places * plot.w < (rect.x - plot.x + 1) * 90
        }),
        history[i] <= 1_000_000 && bar_height(plot, history[i] as int) > SHORTEST ==> bar_height(
            plot,
            history[i] as int,
        ) * 1_000_000 <= history[i] * plot.h < (bar_height(plot, history[i] as int) + 1)
            * 1_000_000,
{
    let places = HISTORY - history.len() + i;
    assert(0 <= places * plot.w <= 90 * plot.w) by (nonlinear_arith)
        requires
            0 <= places <= 90,
            plot.w >= 0,
    ;
    assert(places * plot.w / 90 <= plot.w);
}

/// A slider is filled in proportion to what it reads, from its left end, and its handle is round the
/// end of what is filled and level with it.
pub proof fn a_slider_is_filled_as_it_reads(card: Rect, value: int)
    requires
        card.fits(),
        0 <= value <= 1_000_000,
    ensures
        ({
            let track = track_in(card);
            let shapes = slider_shapes(card, value);
            let fill = shapes[2].rect;
            let handle = shapes[3].rect;
            &&& shapes.len() == 4
            &&& shapes[0].rect == card
            &&& shapes[1].rect == track
            &&& fill.x == track.x && fill.y == track.y && fill.h == track.h
            &&& fill.w > track.h ==> fill.w * 1_000_000 <= track.w * value < (fill.w + 1)
                * 1_000_000
            &&& handle.w == handle.h
            &&& 2 * handle.x + handle.w == 2 * (fill.x + fill.w)
            &&& 2 * handle.y + handle.h == 2 * track.y + track.h
        }),
{
    let track = track_in(card);
    assert(0 <= track.w * value <= track.w * 1_000_000) by (nonlinear_arith)
        requires
            track.w >= 0,
            0 <= value <= 1_000_000,
    ;
}

/// A knob is drawn at its own reading, and not at all where it has none.
pub proof fn a_knob_is_drawn_as_it_reads(size: Size, levels: Levels)
    ensures
        levels.glasses matches Some(value) ==> knob_shapes(size, levels, Knob::Glasses)
            == slider_shapes(size.slider(levels, Knob::Glasses)->0, value as int),
        levels.screen matches Some(value) ==> knob_shapes(size, levels, Knob::Screen)
            == slider_shapes(size.slider(levels, Knob::Screen)->0, value as int),
        levels.volume matches Some(value) ==> knob_shapes(size, levels, Knob::Volume)
            == slider_shapes(size.slider(levels, Knob::Volume)->0, value as int),
        levels.glasses is None ==> knob_shapes(size, levels, Knob::Glasses).len() == 0,
        levels.screen is None ==> knob_shapes(size, levels, Knob::Screen).len() == 0,
        levels.volume is None ==> knob_shapes(size, levels, Knob::Volume).len() == 0,
{
}

/// A device in use is marked on its own row, and no other is: one more entry adds its mark where it
/// is the one in use, and nothing where it is not.
pub proof fn the_device_in_use_is_marked(card: Rect, list: Seq<DeviceView>, count: int)
    requires
        0 <= count < list.len(),
    ensures
        list[count].is_default ==> marks(card, list, count + 1) == marks(card, list, count) + mark(
            card,
            count,
        ),
        !list[count].is_default ==> marks(card, list, count + 1) == marks(card, list, count),
        marks(card, list, 0).len() == 0,
        mark(card, count).len() == 2,
        mark(card, count)[0].rect == device_row(card, count),
{
    assert(marks(card, list, count) + Seq::<Shape>::empty() =~= marks(card, list, count));
}

/// Every finger has its dot, in the middle of where it is.
pub proof fn a_dot_is_under_its_finger(touches: Seq<(usize, i64, i64)>, i: int)
    requires
        0 <= i < touches.len(),
        -0x20_0000_0000_0000 < touches[i].1 < 0x20_0000_0000_0000,
        -0x20_0000_0000_0000 < touches[i].2 < 0x20_0000_0000_0000,
    ensures
        ({
            let dot = finger_shapes(touches)[i].rect;
            &&& finger_shapes(touches).len() == touches.len()
            &&& 2 * dot.x + dot.w == 2 * touches[i].1
            &&& 2 * dot.y + dot.h == 2 * touches[i].2
            &&& dot.w == dot.h
        }),
{
}

/// A key looks as it is: held while a finger is on it, whatever else it is; latched while it is
/// latched and no finger is; and otherwise as the kind of key it is.
pub proof fn a_key_looks_as_it_is(pressed: Seq<(usize, u32)>, key: Keycap, i: int)
    ensures
        0 <= i < pressed.len() && pressed[i].1 == key.code ==> key_colour(pressed, key)
            == Colour::Held,
        (forall|j: int| 0 <= j < pressed.len() ==> (#[trigger] pressed[j]).1 != key.code) ==> (
        key.latched <==> key_colour(pressed, key) == Colour::Latched) && (!key.latched ==> (
        key.modifier || key.name@.len() > 1 ==> key_colour(pressed, key) == Colour::Card) && (
        !key.modifier && key.name@.len() == 0 ==> key_colour(pressed, key) == Colour::Track)),
{
}

/// Every key is drawn on its own cap, and after them the sound toggle on its own.
pub proof fn every_key_is_drawn_on_its_cap(
    area: Rect,
    pressed: Seq<(usize, u32)>,
    keyboard: Keyboard,
    i: int,
)
    requires
        0 <= i < keyboard.keys@.len(),
    ensures
        key_shapes(area, pressed, keyboard).len() == keyboard.keys@.len() + 1,
        key_shapes(area, pressed, keyboard)[i].rect == cap_of(area, keyboard.keys@[i].rect),
        key_shapes(area, pressed, keyboard)[i].colour == key_colour(pressed, keyboard.keys@[i]),
        key_shapes(area, pressed, keyboard).last().rect == cap_of(area, keyboard.toggle),
{
}

/// A graph stands in its card, as far from its sides and from its bottom as anything in a card does,
/// and under the two fifths of it that its label takes; to within what rounding down leaves.
pub proof fn a_graph_stands_in_its_card(card: Rect)
    requires
        card.fits(),
        0 <= card.h,
    ensures
        ({
            let plot = plot_in(card);
            &&& plot.x - card.x == CARD_PAD
            &&& (card.x + card.w) - (plot.x + plot.w) == CARD_PAD
            &&& CARD_PAD <= (card.y + card.h) - (plot.y + plot.h) <= CARD_PAD + 1
            &&& 40 * card.h <= 100 * (plot.y - card.y) + 100
            &&& 100 * (plot.y - card.y) <= 43 * card.h
        }),
{
}

} // verus!
