//! The keyboard, on the panel.
//!
//! The largest rectangle of the keyboard's own shape that fits under the header, with every key's
//! cap drawn where the key is pressed.

use vstd::prelude::*;
use crate::sidecar::panel::{Aspect, Sidecar};
use crate::sidecar::{
    HEADER_GAP, HEADER_HEIGHT, MARGIN, PIXEL, REACH, Rect, Size, at_least,
};
use crate::system::{WHOLE, floor_div};

verus! {

/// A key's place on the keyboard's face, in millionths: its middle, and how far it reaches each
/// way.
#[derive(Debug, Clone, Copy, PartialEq, Eq, Structural)]
pub struct KeyRect {
    pub u: u32,
    pub v: u32,
    pub half_u: u32,
    pub half_v: u32,
}

/// Where the keyboard is drawn.
pub open spec fn keyboard_on(size: Size, aspect: Aspect) -> Rect {
    let room_w = size.full();
    let room_h = size.available();
    let fitted = room_h * aspect.wide / (aspect.tall as int);
    let w = if room_w < fitted {
        room_w
    } else {
        fitted
    };
    let h = w * aspect.tall / (aspect.wide as int);
    Rect {
        x: (MARGIN + (room_w - w) / 2) as i64,
        y: (Size::top() + (room_h - h) / 2) as i64,
        w: w as i64,
        h: h as i64,
    }
}

proof fn lemma_keyboard(size: Size, aspect: Aspect)
    requires
        aspect.wide > 0,
        aspect.tall > 0,
    ensures
        ({
            let room_w = size.full();
            let room_h = size.available();
            let fitted = room_h * aspect.wide / (aspect.tall as int);
            let w = if room_w < fitted {
                room_w
            } else {
                fitted
            };
            let h = w * aspect.tall / (aspect.wide as int);
            &&& -24_000 <= room_w <= 1_288_490_188_500
            &&& 300 <= room_h <= 1_288_490_188_500
            &&& 0 <= room_h * aspect.wide <= 0x1_0000_0000_0000_0000_0000
            &&& 0 <= fitted <= 0x1_0000_0000_0000_0000_0000
            &&& -24_000 <= w <= room_w
            &&& -0x1_0000_0000_0000_0000_0000 < w * aspect.tall < 0x1_0000_0000_0000_0000_0000
            &&& h <= room_h
            &&& -103_079_215_200_000 <= h
            &&& w >= 0 ==> h >= 0
        }),
{
    let room_w = size.full();
    let room_h = size.available();
    let wide = aspect.wide as int;
    let tall = aspect.tall as int;
    let fitted = room_h * wide / tall;
    let w = if room_w < fitted {
        room_w
    } else {
        fitted
    };
    let h = w * tall / wide;
    assert(0 <= room_h * wide <= 1_288_490_188_500 * 4_294_967_295) by (nonlinear_arith)
        requires
            300 <= room_h <= 1_288_490_188_500,
            0 < wide <= 4_294_967_295,
    ;
    assert(0 <= fitted <= room_h * wide && fitted * tall <= room_h * wide) by (nonlinear_arith)
        requires
            fitted == (room_h * wide) / tall,
            room_h * wide >= 0,
            tall > 0,
    ;
    assert(w * tall <= room_h * wide) by (nonlinear_arith)
        requires
            w <= fitted,
            fitted * tall <= room_h * wide,
            tall > 0,
    ;
    assert(-24_000 * 4_294_967_295 <= w * tall) by (nonlinear_arith)
        requires
            -24_000 <= w,
            0 < tall <= 4_294_967_295,
    ;
    assert(h <= room_h) by (nonlinear_arith)
        requires
            h == (w * tall) / wide,
            w * tall <= room_h * wide,
            wide > 0,
    ;
    assert(-24_000 * 4_294_967_295 <= h) by (nonlinear_arith)
        requires
            h == (w * tall) / wide,
            -24_000 * 4_294_967_295 <= w * tall,
            wide > 0,
    ;
    if w >= 0 {
        assert(h >= 0) by (nonlinear_arith)
            requires
                h == (w * tall) / wide,
                w >= 0,
                tall > 0,
                wide > 0,
        ;
    }
}

/// A point in the keyboard face's own millionths.
pub open spec fn on_face(area: Rect, x: int, y: int) -> Option<(int, int)> {
    if area.has(x, y) {
        Some(
            (
                (x - area.x) * WHOLE / (area.w as int),
                (y - area.y) * WHOLE / (area.h as int),
            ),
        )
    } else {
        None
    }
}

/// The size of a key's cell, one way.
pub open spec fn cell(half: u32, length: int) -> int {
    2 * half * length / (WHOLE as int)
}

/// The gap round a key: part of its cell's shorter side.
///
/// Larger than the keyboard in the world has, because this one is hit with a fingertip rather than
/// with a ray: the gaps are what stop a thumb landing on two keys at once from looking like the
/// wrong one was chosen.
pub open spec fn gap(area: Rect, key: KeyRect) -> int {
    let w = cell(key.half_u, area.w as int);
    let h = cell(key.half_v, area.h as int);
    (if w < h {
        w
    } else {
        h
    }) * 8 / 100
}

/// The most that a cap can measure.
pub const MOST_CAP: i64 = 200_000_000_000_000_000;

/// A key's drawn cap: its cell inset by the gap, and never less than a pixel each way.
pub open spec fn cap_of(area: Rect, key: KeyRect) -> Rect {
    let w = cell(key.half_u, area.w as int);
    let h = cell(key.half_v, area.h as int);
    let inset = gap(area, key);
    Rect {
        x: (area.x + key.u * area.w / (WHOLE as int) - w / 2 + inset) as i64,
        y: (area.y + key.v * area.h / (WHOLE as int) - h / 2 + inset) as i64,
        w: at_least(w - 2 * inset, PIXEL as int) as i64,
        h: at_least(h - 2 * inset, PIXEL as int) as i64,
    }
}

/// How far a keyboard can reach beyond its panel, on one too narrow for its margins: it turns inside
/// out, and as much taller as its shape is taller than wide.
pub const STRETCH: i64 = 110_000_000_000_000;

/// Whether a keyboard is drawn anywhere that one can be.
pub open spec fn is_keyboard(area: Rect) -> bool {
    &&& -STRETCH <= area.x <= STRETCH
    &&& -STRETCH <= area.y <= STRETCH
    &&& -STRETCH <= area.w <= REACH
    &&& -STRETCH <= area.h <= REACH
}

proof fn lemma_cell(part: u32, length: int)
    requires
        -STRETCH <= length <= REACH,
    ensures
        -0x1_0000_0000_0000_0000_0000 < part * length < 0x1_0000_0000_0000_0000_0000,
        -480_000_000_000_000_000 <= part * length / 1_000_000 <= 20_000_000_000_000_000,
        -960_000_000_000_000_000 <= cell(part, length) <= 40_000_000_000_000_000,
        length >= 0 ==> part * length >= 0,
        2 * part * length == 2 * (part * length),
{
    assert(-110_000_000_000_000 * 4_294_967_295 <= part * length <= 4_294_967_295
        * 4_000_000_000_000) by (nonlinear_arith)
        requires
            -110_000_000_000_000 <= length <= 4_000_000_000_000,
            0 <= part <= 4_294_967_295,
    ;
    assert(length >= 0 ==> part * length >= 0) by (nonlinear_arith)
        requires
            0 <= part,
    ;
    assert(2 * part * length == 2 * (part * length)) by (nonlinear_arith);
}

/// A cap is somewhere near the keyboard it is on, and never less than a pixel each way.
pub proof fn lemma_cap(area: Rect, key: KeyRect)
    requires
        is_keyboard(area),
    ensures
        -2_000_000_000_000_000_000 <= cap_of(area, key).x <= 2_000_000_000_000_000_000,
        -2_000_000_000_000_000_000 <= cap_of(area, key).y <= 2_000_000_000_000_000_000,
        PIXEL <= cap_of(area, key).w <= MOST_CAP,
        PIXEL <= cap_of(area, key).h <= MOST_CAP,
{
    lemma_cell(key.u, area.w as int);
    lemma_cell(key.v, area.h as int);
    lemma_cell(key.half_u, area.w as int);
    lemma_cell(key.half_v, area.h as int);
}

fn shared(part: u32, length: i64) -> (out: i64)
    requires
        -STRETCH <= length <= REACH,
    ensures
        out == part * length / (WHOLE as int),
        -480_000_000_000_000_000 <= out <= 20_000_000_000_000_000,
{
    proof {
        lemma_cell(part, length as int);
    }
    floor_div(part as i128 * length as i128, WHOLE as u64) as i64
}

fn cell_size(half: u32, length: i64) -> (out: i64)
    requires
        -STRETCH <= length <= REACH,
    ensures
        out == cell(half, length as int),
        -960_000_000_000_000_000 <= out <= 40_000_000_000_000_000,
{
    proof {
        lemma_cell(half, length as int);
    }
    floor_div(2 * (half as i128 * length as i128), WHOLE as u64) as i64
}

impl Sidecar {
    /// Where the keyboard is drawn: the largest rectangle of the keyboard's own shape that fits
    /// under the header, centred in what is left.
    pub fn keyboard_area(&self, aspect: Aspect) -> (out: Rect)
        requires
            aspect.wide > 0,
            aspect.tall > 0,
        ensures
            out == keyboard_on(self.size, aspect),
            is_keyboard(out),
            self.size.full() >= 0 ==> out.fits() && out.w >= 0 && out.h >= 0,
    {
        proof {
            lemma_keyboard(self.size, aspect);
        }
        let room_w: i64 = self.size.w as i64 * PIXEL - 2 * MARGIN;
        let top: i64 = MARGIN + HEADER_HEIGHT + HEADER_GAP;
        let left: i64 = self.size.h as i64 * PIXEL - MARGIN - top;
        let room_h: i64 = if left < PIXEL {
            PIXEL
        } else {
            left
        };
        let fitted: i128 = room_h as i128 * aspect.wide as i128 / aspect.tall as i128;
        let w: i64 = if (room_w as i128) < fitted {
            room_w
        } else {
            fitted as i64
        };
        let h: i64 = floor_div(w as i128 * aspect.tall as i128, aspect.wide as u64) as i64;
        Rect { x: MARGIN + (room_w - w) / 2, y: top + (room_h - h) / 2, w, h }
    }

    /// A point of the layout, in the keyboard face's own millionths.
    ///
    /// Straight into the face: the panel draws the face alone, with no resize border, because
    /// there is nothing to resize — it fills the screen it is on.
    pub fn face_at(&self, x: i64, y: i64, aspect: Aspect) -> (out: Option<(u32, u32)>)
        requires
            aspect.wide > 0,
            aspect.tall > 0,
        ensures
            match out {
                Some((u, v)) => on_face(keyboard_on(self.size, aspect), x as int, y as int)
                    == Some((u as int, v as int)),
                None => on_face(keyboard_on(self.size, aspect), x as int, y as int) is None,
            },
    {
        let area = self.keyboard_area(aspect);
        if area.w <= 0 {
            return None;
        }
        assert(self.size.full() >= 0) by {
            lemma_keyboard(self.size, aspect);
        }
        if !area.contains(x, y) {
            return None;
        }
        let across: i128 = (x as i128 - area.x as i128) * WHOLE as i128;
        let down: i128 = (y as i128 - area.y as i128) * WHOLE as i128;
        let u: i128 = across / area.w as i128;
        let v: i128 = down / area.h as i128;
        proof {
            lemma_share_of(x - area.x, area.w as int);
            lemma_share_of(y - area.y, area.h as int);
        }
        Some((u as u32, v as u32))
    }

    /// A key's drawn cap: its cell inset by the gap.
    pub fn cap_rect(&self, area: Rect, key: KeyRect) -> (out: Rect)
        requires
            is_keyboard(area),
        ensures
            out == cap_of(area, key),
    {
        let cell_w: i64 = cell_size(key.half_u, area.w);
        let cell_h: i64 = cell_size(key.half_v, area.h);
        let shorter: i64 = if cell_w < cell_h {
            cell_w
        } else {
            cell_h
        };
        let inset: i64 = floor_div(shorter as i128 * 8, 100) as i64;
        let half_w: i64 = floor_div(cell_w as i128, 2) as i64;
        let half_h: i64 = floor_div(cell_h as i128, 2) as i64;
        let w: i64 = cell_w - 2 * inset;
        let h: i64 = cell_h - 2 * inset;
        Rect {
            x: area.x + shared(key.u, area.w) - half_w + inset,
            y: area.y + shared(key.v, area.h) - half_h + inset,
            w: if w < PIXEL {
                PIXEL
            } else {
                w
            },
            h: if h < PIXEL {
                PIXEL
            } else {
                h
            },
        }
    }
}

proof fn lemma_share_of(part: int, length: int)
    requires
        0 <= part < length,
    ensures
        0 <= part * 1_000_000 / length < 1_000_000,
{
    assert(0 <= part * 1_000_000 / length < 1_000_000) by (nonlinear_arith)
        requires
            0 <= part < length,
    ;
}

/// The keyboard keeps inside the panel, under the header and within the margins.
pub proof fn the_keyboard_fits_on_the_panel(size: Size, aspect: Aspect)
    requires
        aspect.wide > 0,
        aspect.tall > 0,
        size.roomy(),
    ensures
        ({
            let area = keyboard_on(size, aspect);
            &&& MARGIN <= area.x
            &&& area.x + area.w <= size.w * PIXEL - MARGIN
            &&& Size::top() <= area.y
            &&& area.y + area.h <= size.h * PIXEL - MARGIN
        }),
{
    lemma_keyboard(size, aspect);
}

/// The keyboard keeps its shape on the panel, to within a unit of its height.
pub proof fn the_keyboard_keeps_its_shape(size: Size, aspect: Aspect)
    requires
        aspect.wide > 0,
        aspect.tall > 0,
    ensures
        ({
            let area = keyboard_on(size, aspect);
            &&& area.h * aspect.wide <= area.w * aspect.tall
            &&& area.w * aspect.tall < (area.h + 1) * aspect.wide
        }),
{
    lemma_keyboard(size, aspect);
    let area = keyboard_on(size, aspect);
    let n = area.w * aspect.tall;
    let wide = aspect.wide as int;
    assert(area.h == n / wide);
    assert(area.h * wide <= n && n < (area.h + 1) * wide) by (nonlinear_arith)
        requires
            area.h == n / wide,
            wide > 0,
    ;
}

/// A key lands where it is drawn: the middle of its cap reads back as the middle of its cell, short
/// of it by no more than the width of a unit and one millionth.
pub proof fn a_key_lands_where_it_is_drawn(area: Rect, key: KeyRect)
    requires
        area.fits(),
        0 < area.w,
        0 < area.h,
        key.u < WHOLE,
        key.v < WHOLE,
        cell(key.half_u, area.w as int) - 2 * gap(area, key) >= PIXEL,
        cell(key.half_v, area.h as int) - 2 * gap(area, key) >= PIXEL,
    ensures
        ({
            let cap = cap_of(area, key);
            let middle = (cap.x + cap.w as int / 2, cap.y + cap.h as int / 2);
            &&& on_face(area, middle.0, middle.1) is Some
            &&& (on_face(area, middle.0, middle.1)->0).0 <= key.u
            &&& (key.u - (on_face(area, middle.0, middle.1)->0).0 - 1) * area.w < WHOLE
            &&& (on_face(area, middle.0, middle.1)->0).1 <= key.v
            &&& (key.v - (on_face(area, middle.0, middle.1)->0).1 - 1) * area.h < WHOLE
        }),
{
    lemma_cell(key.u, area.w as int);
    lemma_cell(key.v, area.h as int);
    lemma_cell(key.half_u, area.w as int);
    lemma_cell(key.half_v, area.h as int);
    let cap = cap_of(area, key);
    assert(cap.x + cap.w as int / 2 == area.x + key.u * area.w / (WHOLE as int));
    assert(cap.y + cap.h as int / 2 == area.y + key.v * area.h / (WHOLE as int));
    lemma_read_back(key.u as int, area.w as int);
    lemma_read_back(key.v as int, area.h as int);
}

proof fn lemma_read_back(part: int, length: int)
    requires
        0 <= part < 1_000_000,
        0 < length,
    ensures
        ({
            let there = part * length / 1_000_000;
            let back = there * 1_000_000 / length;
            &&& 0 <= there < length
            &&& back <= part
            &&& (part - back - 1) * length < 1_000_000
        }),
{
    let there = part * length / 1_000_000;
    let back = there * 1_000_000 / length;
    assert(0 <= part * length < 1_000_000 * length) by (nonlinear_arith)
        requires
            0 <= part < 1_000_000,
            0 < length,
    ;
    assert(there * 1_000_000 <= part * length < there * 1_000_000 + 1_000_000);
    assert(back * length <= there * 1_000_000 && there * 1_000_000 < (back + 1) * length)
        by (nonlinear_arith)
        requires
            back == (there * 1_000_000) / length,
            length > 0,
    ;
    assert(back <= part) by (nonlinear_arith)
        requires
            back * length <= part * length,
            length > 0,
    ;
    assert((part - back - 1) * length == part * length - (back + 1) * length) by (nonlinear_arith);
}

/// A point on the keyboard is told in proportion: across by how far across it is and down by how far
/// down, in millionths rounded down; a point off it is nowhere on it.
pub proof fn a_point_is_told_on_the_face(area: Rect, x: int, y: int)
    requires
        area.w > 0,
        area.h > 0,
    ensures
        on_face(area, x, y) is Some <==> area.x <= x < area.x + area.w && area.y <= y < area.y
            + area.h,
        on_face(area, x, y) matches Some((u, v)) ==> {
            &&& u * area.w <= (x - area.x) * 1_000_000 < (u + 1) * area.w
            &&& v * area.h <= (y - area.y) * 1_000_000 < (v + 1) * area.h
        },
{
    let (m, n) = ((x - area.x) * 1_000_000, (y - area.y) * 1_000_000);
    let (w, h) = (area.w as int, area.h as int);
    assert((m / w) * w <= m < (m / w + 1) * w && (n / h) * h <= n < (n / h + 1) * h)
        by (nonlinear_arith)
        requires
            w > 0,
            h > 0,
    ;
}

/// The keyboard is as large as it can be: it goes from margin to margin, or is as tall as there is
/// room for, short of it by no more than its shape leaves. It stands in the middle of what is left.
pub proof fn the_keyboard_is_as_large_as_it_can_be(size: Size, aspect: Aspect)
    requires
        aspect.wide > 0,
        aspect.tall > 0,
        size.roomy(),
    ensures
        ({
            let area = keyboard_on(size, aspect);
            let room = size.available();
            &&& area.w == size.full() || (area.w < size.full() && area.w * aspect.tall <= room
                * aspect.wide < (area.w + 1) * aspect.tall)
            &&& 2 * (area.x - MARGIN) <= size.full() - area.w <= 2 * (area.x - MARGIN) + 1
            &&& 2 * (area.y - Size::top()) <= room - area.h <= 2 * (area.y - Size::top()) + 1
        }),
{
    lemma_keyboard(size, aspect);
    let n = size.available() * aspect.wide;
    let t = aspect.tall as int;
    let fitted = n / t;
    assert(fitted * t <= n < (fitted + 1) * t) by (nonlinear_arith)
        requires
            fitted == n / t,
            t > 0,
    ;
}

/// A cap stands in its cell with the same gap on every side, which is eight hundredths of the
/// cell's shorter side.
pub proof fn a_cap_stands_in_its_cell(area: Rect, key: KeyRect)
    requires
        is_keyboard(area),
        area.w >= 0,
        area.h >= 0,
        cell(key.half_u, area.w as int) - 2 * gap(area, key) >= PIXEL,
        cell(key.half_v, area.h as int) - 2 * gap(area, key) >= PIXEL,
    ensures
        ({
            let cap = cap_of(area, key);
            let (w, h) = (cell(key.half_u, area.w as int), cell(key.half_v, area.h as int));
            let inset = gap(area, key);
            let left = area.x + key.u * area.w / 1_000_000 - w / 2;
            let top = area.y + key.v * area.h / 1_000_000 - h / 2;
            &&& cap.x - left == inset
            &&& (left + w) - (cap.x + cap.w) == inset
            &&& cap.y - top == inset
            &&& (top + h) - (cap.y + cap.h) == inset
            &&& inset * 100 <= w * 8
            &&& inset * 100 <= h * 8
            &&& w * 8 < (inset + 1) * 100 || h * 8 < (inset + 1) * 100
            &&& w * 1_000_000 <= 2 * (key.half_u * area.w) < (w + 1) * 1_000_000
            &&& h * 1_000_000 <= 2 * (key.half_v * area.h) < (h + 1) * 1_000_000
        }),
{
    lemma_cell(key.u, area.w as int);
    lemma_cell(key.v, area.h as int);
    lemma_cell(key.half_u, area.w as int);
    lemma_cell(key.half_v, area.h as int);
}

} // verus!
