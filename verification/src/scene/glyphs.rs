//! The marks that are drawn rather than shipped.
//!
//! Each is a square picture, white with the shape in its opacity, so that the drawing tints it.
//! Built here rather than shaped from a font: the one character that means "speaker" is an emoji,
//! whose colour and metrics vary by whichever font happens to be installed, and a control has to
//! look the same on every machine.
//!
//! A place on a picture is so many halves of its side from its middle: `x` and `y` over `s`, where
//! `s` is one less than the picture's size, or three times that where a pixel is looked at in nine
//! places.

use vstd::prelude::*;

verus! {

/// A picture to build.
#[derive(Debug, Clone, Copy, PartialEq, Eq, Structural)]
pub enum Glyph {
    /// The aiming reticle: a bright dot inside a thin ring, so that a small target underneath
    /// stays visible through the middle of the cursor.
    Reticle,
    /// The left pad's cursor: a ring with a cross rather than a dot.
    ReticleLeft,
    /// A double-headed arrow along the horizontal. One picture for all five edges, turned in the
    /// plane when it is drawn.
    ResizeCursor,
    /// The cross on a window's close button.
    Close,
    /// A speaker, with waves or with a cross where the waves would be.
    Speaker { muted: bool },
}

/// The distance from nothing.
pub open spec fn size_of(n: int) -> int {
    if n < 0 {
        -n
    } else {
        n
    }
}

/// Whether a place is on a speaker's box and cone: the box the diaphragm sits in, and the cone,
/// widening linearly to its mouth.
pub open spec fn on_body(x: int, y: int, s: int) -> bool {
    ||| -62 * s <= 100 * x && 100 * x <= -28 * s && 100 * size_of(y) <= 26 * s
    ||| -28 * s < 100 * x && 100 * x <= 10 * s && 3_800 * size_of(y) <= 1_996 * s + 3_600 * x
}

/// Whether a place is on one stroke of the cross that says a speaker is silent: so far across it
/// and so far along.
pub open spec fn on_stroke(across: int, along: int, s: int) -> bool {
    2 * (across * across) <= 225 * (s * s) && along * along <= 1_800 * (s * s)
}

/// Whether a place is on that cross.
pub open spec fn on_cross(x: int, y: int, s: int) -> bool {
    let ax = 100 * x - 52 * s;
    let ay = 100 * y;
    on_stroke(ax - ay, ax + ay, s) || on_stroke(ax + ay, ax - ay, s)
}

/// Whether a place is on one of the two arcs in front of a speaker. Bounded by angle as well as
/// radius, so they are arcs rather than rings drawn round the back of it.
pub open spec fn on_wave(x: int, y: int, s: int) -> bool {
    let dx = 100 * x - 10 * s;
    let dy = 100 * y;
    let r = 4 * (dx * dx + dy * dy);
    &&& dx > 0
    &&& 10 * size_of(dy) <= 13 * dx
    &&& 3_481 * (s * s) <= r && r <= 7_225 * (s * s) || 11_449 * (s * s) <= r && r <= 17_689 * (s
        * s)
}

/// Whether a place is on a speaker.
pub open spec fn on_speaker(x: int, y: int, s: int, muted: bool) -> bool {
    on_body(x, y, s) || (if muted {
        on_cross(x, y, s)
    } else {
        on_wave(x, y, s)
    })
}

/// How many of the nine places in a pixel are on a speaker, of the first so many.
pub open spec fn hits(x: int, y: int, s: int, muted: bool, count: int) -> int
    decreases count,
{
    if count <= 0 {
        0
    } else {
        let k = count - 1;
        let px = 6 * x + 2 * (k % 3 - 1) - s;
        let py = 6 * y + 2 * (k / 3 - 1) - s;
        hits(x, y, s, muted, k) + (if on_speaker(px, py, s, muted) {
            1int
        } else {
            0
        })
    }
}

/// A speaker's ink at a pixel.
pub open spec fn speaker_ink(size: int, x: int, y: int, muted: bool) -> Option<int> {
    let n = hits(x, y, 3 * (size - 1), muted, 9);
    if size < 2 || n == 0 {
        None
    } else {
        Some(n * 85 / 3)
    }
}

/// Whether a place is on the head of an arrow whose tip is at so many tenths: a triangle that
/// narrows towards the tip, so the two read as pointing outwards rather than as a barbell.
pub open spec fn on_head(x: int, y: int, s: int, tip: int) -> bool {
    let along = size_of(10 * x - tip * s);
    along <= 3 * s && 300 * size_of(y) <= 26 * (3 * s - along)
}

/// The resize cursor's ink at a pixel: a thin shaft, brightest along its middle, stopping short of
/// the ends, and a head at each end.
pub open spec fn resize_ink(size: int, x: int, y: int) -> Option<int> {
    let s = size - 1;
    let px = 2 * x - s;
    let py = 2 * y - s;
    if on_head(px, py, s, -7) || on_head(px, py, s, 7) {
        Some(255)
    } else if 100 * size_of(px) < 62 * s && 100 * size_of(py) < 7 * s {
        Some((7 * s - 100 * size_of(py)) * 255 / (7 * s))
    } else {
        None
    }
}

/// Whether a stroke of the close cross is at least so strong, so far across it. The edges are
/// feathered: a hard-edged cross a degree across, seen through optics, reads as a smudge.
pub open spec fn stroke_reaches(across: int, s: int, n: int) -> bool {
    let k = 255_000 + 7_225 * s - 1_000 * n;
    k >= 0 && 2 * (k * k) >= 7_225_000_000 * (across * across)
}

/// How strong a stroke is so far across it.
pub open spec fn stroke_strength(across: int, s: int, most: int) -> int
    decreases most,
{
    if most <= 0 || stroke_reaches(across, s, most) {
        most
    } else {
        stroke_strength(across, s, most - 1)
    }
}

/// One stroke's ink: nothing past its end, nor where it has no strength at all.
pub open spec fn stroke_ink(across: int, along: int, s: int) -> Option<int> {
    let k = 255_000 + 7_225 * s;
    if 10 * size_of(along) > 9 * s || 2 * (k * k) <= 7_225_000_000 * (across * across) {
        None
    } else {
        Some(stroke_strength(across, s, 255))
    }
}

/// The stronger of two inks.
pub open spec fn stronger(a: Option<int>, b: Option<int>) -> Option<int> {
    match (a, b) {
        (Some(a), Some(b)) => Some(
            if a < b {
                b
            } else {
                a
            },
        ),
        (Some(a), None) => Some(a),
        (None, b) => b,
    }
}

/// The close cross's ink at a pixel. A cross one pixel across has no shape, and is clear.
pub open spec fn close_ink(size: int, x: int, y: int) -> Option<int> {
    let s = size - 1;
    let px = 2 * x - s;
    let py = 2 * y - s;
    if s <= 0 {
        Some(0)
    } else {
        stronger(stroke_ink(px - py, px + py, s), stroke_ink(px + py, px - py, s))
    }
}

/// Whether a number is the root of another, rounded down.
pub open spec fn is_root(root: int, n: int) -> bool {
    0 <= root && root * root <= n && n < (root + 1) * (root + 1)
}

/// The root of a number, rounded down.
pub open spec fn root_of(n: int) -> int {
    choose|root: int| is_root(root, n)
}

/// How far a place is from the middle, in millionths of half the side.
pub open spec fn radius_at(x: int, y: int, s: int) -> int {
    root_of((x * x + y * y) * 1_000_000_000_000 / (s * s))
}

/// How strongly a ring is drawn so far from the middle, in millionths: most at 0.78 of the way
/// out, and gone 0.12 either side of it.
pub open spec fn ring_at(r: int) -> int {
    let off = size_of(r - 780_000) * 25 / 3;
    if off > 1_000_000 {
        0
    } else {
        1_000_000 - off
    }
}

/// How strongly the dot is, which is gone 0.24 from the middle.
pub open spec fn dot_at(r: int) -> int {
    if r * 25 / 6 > 1_000_000 {
        0
    } else {
        1_000_000 - r * 25 / 6
    }
}

/// How strongly one arm of the left cursor's cross is: it stops short of the ring so that the
/// centre stays open.
pub open spec fn arm_at(along: int, across: int, s: int) -> int {
    if 100 * size_of(along) > 52 * s || 100 * size_of(across) > 6 * s {
        0
    } else {
        1_000_000 - size_of(across) * 100_000_000 / (6 * s)
    }
}

/// The larger of two numbers.
pub open spec fn more(a: int, b: int) -> int {
    if a < b {
        b
    } else {
        a
    }
}

/// Whether a strength in millionths comes to at least so much ink. The strength is lifted to the
/// power of four fifths, which thickens what is faint.
pub open spec fn inks(strength: int, n: int) -> bool {
    (n * n * n * n * n) * 1_000_000_000_000_000_000_000_000 <= 1_078_203_909_375 * (strength
        * strength * strength * strength)
}

/// How much ink a strength comes to.
pub open spec fn ink_of(strength: int, most: int) -> int
    decreases most,
{
    if most <= 0 || inks(strength, most) {
        most
    } else {
        ink_of(strength, most - 1)
    }
}

/// The aiming reticle's ink at a pixel, or the left cursor's.
pub open spec fn reticle_ink(size: int, x: int, y: int, left: bool) -> Option<int> {
    let s = size - 1;
    let px = 2 * x - s;
    let py = 2 * y - s;
    if s <= 0 {
        Some(0)
    } else {
        let r = radius_at(px, py, s);
        Some(
            ink_of(
                more(
                    ring_at(r),
                    if left {
                        more(arm_at(px, py, s), arm_at(py, px, s))
                    } else {
                        dot_at(r)
                    },
                ),
                255,
            ),
        )
    }
}

impl Glyph {
    /// The ink at a pixel, out of 255: none where nothing was drawn.
    pub open spec fn ink(self, size: int, x: int, y: int) -> Option<int> {
        match self {
            Glyph::Reticle => reticle_ink(size, x, y, false),
            Glyph::ReticleLeft => reticle_ink(size, x, y, true),
            Glyph::ResizeCursor => resize_ink(size, x, y),
            Glyph::Close => close_ink(size, x, y),
            Glyph::Speaker { muted } => speaker_ink(size, x, y, muted),
        }
    }

    /// One byte of the picture: white with its ink as opacity where something was drawn, and
    /// nothing where nothing was.
    pub open spec fn byte(self, size: int, i: int) -> u8 {
        let pixel = i / 4;
        match self.ink(size, pixel % size, pixel / size) {
            Some(ink) => if i % 4 == 3 {
                ink as u8
            } else {
                255
            },
            None => 0,
        }
    }

    /// The whole picture, row by row.
    pub open spec fn picture(self, size: int) -> Seq<u8> {
        Seq::new((size * size * 4) as nat, |i: int| self.byte(size, i))
    }
}

fn abs(n: i128) -> (out: i128)
    requires
        n > i128::MIN,
    ensures
        out == size_of(n as int),
{
    if n < 0 {
        -n
    } else {
        n
    }
}

/// The largest a place's parts can be.
pub const EDGE: i128 = 1_000_000;

proof fn lemma_square(a: int, most: int)
    requires
        -most <= a <= most,
    ensures
        0 <= a * a <= most * most,
{
    assert(0 <= a * a <= most * most) by (nonlinear_arith)
        requires
            -most <= a <= most,
    ;
}

fn stroke(across: i128, along: i128, s: i128) -> (out: bool)
    requires
        -1_000_000_000 <= across <= 1_000_000_000,
        -1_000_000_000 <= along <= 1_000_000_000,
        0 <= s <= EDGE,
    ensures
        out == on_stroke(across as int, along as int, s as int),
{
    proof {
        lemma_square(across as int, 1_000_000_000);
        lemma_square(along as int, 1_000_000_000);
        lemma_square(s as int, 1_000_000);
    }
    2 * (across * across) <= 225 * (s * s) && along * along <= 1_800 * (s * s)
}

fn speaker_has(x: i128, y: i128, s: i128, muted: bool) -> (out: bool)
    requires
        -EDGE <= x <= EDGE,
        -EDGE <= y <= EDGE,
        0 <= s <= EDGE,
    ensures
        out == on_speaker(x as int, y as int, s as int, muted),
{
    let tall: i128 = abs(y);
    if 0 - 62 * s <= 100 * x && 100 * x <= 0 - 28 * s && 100 * tall <= 26 * s {
        return true;
    }
    if 0 - 28 * s < 100 * x && 100 * x <= 10 * s && 3_800 * tall <= 1_996 * s + 3_600 * x {
        return true;
    }
    if muted {
        // A cross where the waves would be. A single slash reads as one more wave at the size
        // this is actually drawn -- the two strokes are what make it unmistakably "not sounding"
        // rather than "sounding a bit".
        let ax: i128 = 100 * x - 52 * s;
        let ay: i128 = 100 * y;
        return stroke(ax - ay, ax + ay, s) || stroke(ax + ay, ax - ay, s);
    }
    let dx: i128 = 100 * x - 10 * s;
    let dy: i128 = 100 * y;
    if dx <= 0 {
        return false;
    }
    if 10 * abs(dy) > 13 * dx {
        return false;
    }
    proof {
        lemma_square(dx as int, 1_000_000_000);
        lemma_square(dy as int, 1_000_000_000);
        lemma_square(s as int, 1_000_000);
    }
    let r: i128 = 4 * (dx * dx + dy * dy);
    let whole: i128 = s * s;
    (3_481 * whole <= r && r <= 7_225 * whole) || (11_449 * whole <= r && r <= 17_689 * whole)
}

fn speaker_at(size: u32, x: u32, y: u32, muted: bool) -> (out: Option<u8>)
    requires
        x < size,
        y < size,
        size <= 32_767,
    ensures
        inked(out) == speaker_ink(size as int, x as int, y as int, muted),
{
    if size < 2 {
        return None;
    }
    let s: i128 = 3 * (size as i128 - 1);
    let mut n: u32 = 0;
    let mut k: u32 = 0;
    while k < 9
        invariant
            x < size,
            y < size,
            2 <= size <= 32_767,
            s == 3 * (size - 1),
            k <= 9,
            n <= k,
            n == hits(x as int, y as int, s as int, muted, k as int),
        decreases 9 - k,
    {
        let px: i128 = 6 * x as i128 + 2 * ((k % 3) as i128 - 1) - s;
        let py: i128 = 6 * y as i128 + 2 * ((k / 3) as i128 - 1) - s;
        if speaker_has(px, py, s, muted) {
            n = n + 1;
        }
        k = k + 1;
    }
    if n == 0 {
        None
    } else {
        Some((n * 85 / 3) as u8)
    }
}

/// An ink as a number.
pub open spec fn inked(ink: Option<u8>) -> Option<int> {
    match ink {
        Some(ink) => Some(ink as int),
        None => None,
    }
}

fn head(x: i128, y: i128, s: i128, tip: i128) -> (out: bool)
    requires
        -EDGE <= x <= EDGE,
        -EDGE <= y <= EDGE,
        0 <= s <= EDGE,
        tip == 7 || tip == -7,
    ensures
        out == on_head(x as int, y as int, s as int, tip as int),
{
    let off: i128 = if tip == 7 {
        7 * s
    } else {
        0 - 7 * s
    };
    let along: i128 = abs(10 * x - off);
    along <= 3 * s && 300 * abs(y) <= 26 * (3 * s - along)
}

fn resize_at(size: u32, x: u32, y: u32) -> (out: Option<u8>)
    requires
        x < size,
        y < size,
        size <= 32_767,
    ensures
        inked(out) == resize_ink(size as int, x as int, y as int),
{
    let s: i128 = size as i128 - 1;
    let px: i128 = 2 * x as i128 - s;
    let py: i128 = 2 * y as i128 - s;
    if head(px, py, s, -7) || head(px, py, s, 7) {
        return Some(255);
    }
    if 100 * abs(px) < 62 * s && 100 * abs(py) < 7 * s {
        let left: i128 = 7 * s - 100 * abs(py);
        let ink: i128 = left * 255 / (7 * s);
        assert(0 <= ink <= 255) by (nonlinear_arith)
            requires
                0 < left <= 7 * s,
                ink == (left * 255) / (7 * s),
        ;
        Some(ink as u8)
    } else {
        None
    }
}

fn stroke_at(across: i128, along: i128, s: i128) -> (out: Option<u8>)
    requires
        -EDGE <= across <= EDGE,
        -EDGE <= along <= EDGE,
        0 <= s <= 32_767,
    ensures
        inked(out) == stroke_ink(across as int, along as int, s as int),
{
    if 10 * abs(along) > 9 * s {
        return None;
    }
    let k: i128 = 255_000 + 7_225 * s;
    proof {
        lemma_square(across as int, 1_000_000);
        lemma_square(k as int, 1_000_000_000);
    }
    let far: i128 = 7_225_000_000 * (across * across);
    if 2 * (k * k) <= far {
        return None;
    }
    let mut n: u8 = 255;
    while n > 0
        invariant
            -EDGE <= across <= EDGE,
            0 <= s <= 32_767,
            k == 255_000 + 7_225 * s,
            far == 7_225_000_000 * (across * across),
            2 * (k * k) > far,
            10 * size_of(along as int) <= 9 * s,
            stroke_strength(across as int, s as int, n as int) == stroke_strength(
                across as int,
                s as int,
                255,
            ),
        decreases n,
    {
        let left: i128 = k - 1_000 * n as i128;
        proof {
            lemma_square(left as int, 1_000_000_000);
        }
        if left >= 0 && 2 * (left * left) >= far {
            return Some(n);
        }
        n = n - 1;
    }
    Some(0)
}

fn stronger_of(a: Option<u8>, b: Option<u8>) -> (out: Option<u8>)
    ensures
        inked(out) == stronger(inked(a), inked(b)),
{
    match (a, b) {
        (Some(a), Some(b)) => Some(
            if a < b {
                b
            } else {
                a
            },
        ),
        (Some(a), None) => Some(a),
        (None, b) => b,
    }
}

fn close_at(size: u32, x: u32, y: u32) -> (out: Option<u8>)
    requires
        x < size,
        y < size,
        size <= 32_767,
    ensures
        inked(out) == close_ink(size as int, x as int, y as int),
{
    let s: i128 = size as i128 - 1;
    if s <= 0 {
        return Some(0);
    }
    let px: i128 = 2 * x as i128 - s;
    let py: i128 = 2 * y as i128 - s;
    stronger_of(stroke_at(px - py, px + py, s), stroke_at(px + py, px - py, s))
}

proof fn lemma_root_unique(a: int, b: int, n: int)
    requires
        is_root(a, n),
        is_root(b, n),
    ensures
        a == b,
{
    if a < b {
        assert((a + 1) * (a + 1) <= b * b) by (nonlinear_arith)
            requires
                0 <= a < b,
        ;
    }
    if b < a {
        assert((b + 1) * (b + 1) <= a * a) by (nonlinear_arith)
            requires
                0 <= b < a,
        ;
    }
}

/// The root of a number, rounded down.
pub(crate) fn root(n: u128) -> (out: u128)
    requires
        n < 4_000_000_000_000,
    ensures
        out == root_of(n as int),
        is_root(out as int, n as int),
        out < 2_000_000,
{
    let mut low: u128 = 0;
    let mut high: u128 = 2_000_000;
    while high - low > 1
        invariant
            low < high <= 2_000_000,
            low * low <= n,
            n < high * high,
        decreases high - low,
    {
        let middle: u128 = (low + high) / 2;
        proof {
            lemma_square(middle as int, 2_000_000);
        }
        if middle * middle <= n {
            low = middle;
        } else {
            high = middle;
        }
    }
    proof {
        assert(is_root(low as int, n as int));
        lemma_root_unique(low as int, root_of(n as int), n as int);
    }
    low
}

fn arm(along: i128, across: i128, s: i128) -> (out: i128)
    requires
        -EDGE <= across <= EDGE,
        -EDGE <= along <= EDGE,
        0 < s <= 32_767,
    ensures
        out == arm_at(along as int, across as int, s as int),
        0 <= out <= 1_000_000,
{
    if 100 * abs(along) > 52 * s || 100 * abs(across) > 6 * s {
        0
    } else {
        let far: i128 = abs(across);
        let off: i128 = far * 100_000_000 / (6 * s);
        assert(0 <= off <= 1_000_000) by (nonlinear_arith)
            requires
                0 <= far,
                100 * far <= 6 * s,
                s > 0,
                off == (far * 100_000_000) / (6 * s),
        ;
        1_000_000 - off
    }
}

proof fn lemma_fifth(n: int)
    requires
        0 <= n <= 255,
    ensures
        0 <= n * n <= 65_025,
        0 <= n * n * n <= 16_581_375,
        0 <= n * n * n * n <= 4_228_250_625,
        0 <= n * n * n * n * n <= 1_078_203_909_375,
{
    assert(0 <= n * n <= 65_025) by (nonlinear_arith)
        requires
            0 <= n <= 255,
    ;
    assert(0 <= n * n * n <= 16_581_375) by (nonlinear_arith)
        requires
            0 <= n <= 255,
            0 <= n * n <= 65_025,
    ;
    assert(0 <= n * n * n * n <= 4_228_250_625) by (nonlinear_arith)
        requires
            0 <= n <= 255,
            0 <= n * n * n <= 16_581_375,
    ;
    assert(0 <= n * n * n * n * n <= 1_078_203_909_375) by (nonlinear_arith)
        requires
            0 <= n <= 255,
            0 <= n * n * n * n <= 4_228_250_625,
    ;
}

proof fn lemma_fourth(c: int)
    requires
        0 <= c <= 1_000_000,
    ensures
        0 <= c * c <= 1_000_000_000_000,
        0 <= c * c * c <= 1_000_000_000_000_000_000,
        0 <= c * c * c * c <= 1_000_000_000_000_000_000_000_000,
{
    assert(0 <= c * c <= 1_000_000_000_000) by (nonlinear_arith)
        requires
            0 <= c <= 1_000_000,
    ;
    assert(0 <= c * c * c <= 1_000_000_000_000_000_000) by (nonlinear_arith)
        requires
            0 <= c <= 1_000_000,
            0 <= c * c <= 1_000_000_000_000,
    ;
    assert(0 <= c * c * c * c <= 1_000_000_000_000_000_000_000_000) by (nonlinear_arith)
        requires
            0 <= c <= 1_000_000,
            0 <= c * c * c <= 1_000_000_000_000_000_000,
    ;
}

fn ink_for(strength: i128) -> (out: u8)
    requires
        0 <= strength <= 1_000_000,
    ensures
        out == ink_of(strength as int, 255),
{
    proof {
        lemma_fourth(strength as int);
    }
    let lifted: i128 = 1_078_203_909_375 * (strength * strength * strength * strength);
    let mut n: u8 = 255;
    while n > 0
        invariant
            lifted == 1_078_203_909_375 * (strength * strength * strength * strength),
            ink_of(strength as int, n as int) == ink_of(strength as int, 255),
        decreases n,
    {
        let m: i128 = n as i128;
        proof {
            lemma_fifth(m as int);
        }
        if (m * m * m * m * m) * 1_000_000_000_000_000_000_000_000 <= lifted {
            return n;
        }
        n = n - 1;
    }
    0
}

fn reticle_at(size: u32, x: u32, y: u32, left: bool) -> (out: Option<u8>)
    requires
        x < size,
        y < size,
        size <= 32_767,
    ensures
        inked(out) == reticle_ink(size as int, x as int, y as int, left),
{
    let s: i128 = size as i128 - 1;
    if s <= 0 {
        return Some(0);
    }
    let px: i128 = 2 * x as i128 - s;
    let py: i128 = 2 * y as i128 - s;
    proof {
        lemma_square(px as int, s as int);
        lemma_square(py as int, s as int);
        lemma_square(s as int, 32_767);
    }
    let far: i128 = (px * px + py * py) * 1_000_000_000_000;
    let whole: i128 = s * s;
    assert(0 < whole) by (nonlinear_arith)
        requires
            whole == s * s,
            s > 0,
    ;
    assert(0 <= far / whole <= 2_000_000_000_000) by (nonlinear_arith)
        requires
            0 <= far <= 2_000_000_000_000 * whole,
            0 < whole,
    ;
    let r: i128 = root((far / whole) as u128) as i128;
    let off: i128 = abs(r - 780_000) * 25 / 3;
    let ring: i128 = if off > 1_000_000 {
        0
    } else {
        1_000_000 - off
    };
    let middle: i128 = if left {
        let level: i128 = arm(px, py, s);
        let upright: i128 = arm(py, px, s);
        if level < upright {
            upright
        } else {
            level
        }
    } else if r * 25 / 6 > 1_000_000 {
        0
    } else {
        1_000_000 - r * 25 / 6
    };
    Some(
        ink_for(
            if ring < middle {
                middle
            } else {
                ring
            },
        ),
    )
}

fn ink_at(glyph: Glyph, size: u32, x: u32, y: u32) -> (out: Option<u8>)
    requires
        x < size,
        y < size,
        size <= 32_767,
    ensures
        inked(out) == glyph.ink(size as int, x as int, y as int),
{
    match glyph {
        Glyph::Reticle => reticle_at(size, x, y, false),
        Glyph::ReticleLeft => reticle_at(size, x, y, true),
        Glyph::ResizeCursor => resize_at(size, x, y),
        Glyph::Close => close_at(size, x, y),
        Glyph::Speaker { muted } => speaker_at(size, x, y, muted),
    }
}

proof fn lemma_pixel(size: int, x: int, y: int, c: int)
    requires
        0 <= x < size,
        0 <= y < size,
        0 <= c < 4,
    ensures
        ({
            let i = (y * size + x) * 4 + c;
            &&& i / 4 == y * size + x
            &&& i % 4 == c
            &&& (i / 4) % size == x
            &&& (i / 4) / size == y
            &&& 0 <= i < size * size * 4
        }),
{
    let p = y * size + x;
    assert(p / size == y && p % size == x) by (nonlinear_arith)
        requires
            p == y * size + x,
            0 <= x < size,
            0 <= y,
    ;
    assert(0 <= p && p < size * size) by (nonlinear_arith)
        requires
            p == y * size + x,
            0 <= x < size,
            0 <= y < size,
    ;
}

/// A picture of a mark, four bytes to a pixel, row by row.
pub fn image(glyph: Glyph, size: u32) -> (out: Vec<u8>)
    requires
        size * size * 4 <= u32::MAX,
    ensures
        out@ == glyph.picture(size as int),
{
    assert(size <= 32_767) by (nonlinear_arith)
        requires
            size * size * 4 <= 0xffff_ffff,
    ;
    let mut out: Vec<u8> = Vec::new();
    let mut y: u32 = 0;
    while y < size
        invariant
            size <= 32_767,
            y <= size,
            out@.len() == y * size * 4,
            forall|i: int|
                0 <= i < out@.len() ==> #[trigger] out@[i] == glyph.byte(size as int, i),
        decreases size - y,
    {
        let mut x: u32 = 0;
        while x < size
            invariant
                size <= 32_767,
                y < size,
                x <= size,
                out@.len() == (y * size + x) * 4,
                forall|i: int|
                    0 <= i < out@.len() ==> #[trigger] out@[i] == glyph.byte(size as int, i),
            decreases size - x,
        {
            let ink = ink_at(glyph, size, x, y);
            let white: u8 = if ink.is_some() {
                255
            } else {
                0
            };
            let opacity: u8 = match ink {
                Some(ink) => ink,
                None => 0,
            };
            let ghost first = out@.len() as int;
            out.push(white);
            out.push(white);
            out.push(white);
            out.push(opacity);
            proof {
                lemma_pixel(size as int, x as int, y as int, 0);
                lemma_pixel(size as int, x as int, y as int, 1);
                lemma_pixel(size as int, x as int, y as int, 2);
                lemma_pixel(size as int, x as int, y as int, 3);
                assert(out@[first] == glyph.byte(size as int, first));
                assert(out@[first + 1] == glyph.byte(size as int, first + 1));
                assert(out@[first + 2] == glyph.byte(size as int, first + 2));
                assert(out@[first + 3] == glyph.byte(size as int, first + 3));
            }
            x = x + 1;
        }
        assert((y + 1) * size == y * size + size) by (nonlinear_arith);
        y = y + 1;
    }
    assert(out@ =~= glyph.picture(size as int));
    out
}

/// A speaker, with or without a line through it.
pub fn speaker_glyph_image(size: u32, muted: bool) -> (out: Vec<u8>)
    requires
        size * size * 4 <= u32::MAX,
    ensures
        out@ == (Glyph::Speaker { muted }).picture(size as int),
{
    image(Glyph::Speaker { muted }, size)
}

/// The resize cursor: a double-headed arrow, drawn along the picture's horizontal.
pub fn resize_cursor_image(size: u32) -> (out: Vec<u8>)
    requires
        size * size * 4 <= u32::MAX,
    ensures
        out@ == Glyph::ResizeCursor.picture(size as int),
{
    image(Glyph::ResizeCursor, size)
}

/// The cross on a window's close button.
pub fn close_glyph_image(size: u32) -> (out: Vec<u8>)
    requires
        size * size * 4 <= u32::MAX,
    ensures
        out@ == Glyph::Close.picture(size as int),
{
    image(Glyph::Close, size)
}

/// The left pad's cursor: a ring with a cross rather than a dot.
pub fn reticle_image_left(size: u32) -> (out: Vec<u8>)
    requires
        size * size * 4 <= u32::MAX,
    ensures
        out@ == Glyph::ReticleLeft.picture(size as int),
{
    image(Glyph::ReticleLeft, size)
}

/// The pointer reticle: a bright dot inside a thin ring.
pub fn reticle_image(size: u32) -> (out: Vec<u8>)
    requires
        size * size * 4 <= u32::MAX,
    ensures
        out@ == Glyph::Reticle.picture(size as int),
{
    image(Glyph::Reticle, size)
}

/// The muted speaker keeps its body: to the left of the cone's mouth the two pictures are the same,
/// so the button does not appear to change into something else when pressed.
pub proof fn muting_keeps_the_body(x: int, y: int, s: int)
    requires
        s > 0,
        100 * x <= 10 * s,
    ensures
        on_speaker(x, y, s, true) == on_body(x, y, s),
        on_speaker(x, y, s, false) == on_body(x, y, s),
{
    let ax = 100 * x - 52 * s;
    let ay = 100 * y;
    lemma_cross_is_ahead(ax - ay, ax + ay, s);
    lemma_cross_is_ahead(ax + ay, ax - ay, s);
}

proof fn lemma_cross_is_ahead(across: int, along: int, s: int)
    requires
        s > 0,
        across + along <= 2 * (-42 * s),
    ensures
        !on_stroke(across, along, s),
{
    if on_stroke(across, along, s) {
        assert(-11 * s <= across) by (nonlinear_arith)
            requires
                2 * (across * across) <= 225 * (s * s),
                s > 0,
        ;
        assert(-43 * s <= along) by (nonlinear_arith)
            requires
                along * along <= 1_800 * (s * s),
                s > 0,
        ;
    }
}

/// The reticle is clear at its corners and solid at its middle: one that is opaque everywhere is a
/// white square.
pub proof fn a_reticle_is_clear_at_its_corners(size: int, x: int, y: int)
    requires
        size >= 2,
        x == 0 || x == size - 1,
        y == 0 || y == size - 1,
    ensures
        Glyph::Reticle.ink(size, x, y) == Some(0int),
{
    let s = size - 1;
    let px = 2 * x - s;
    let py = 2 * y - s;
    assert(px * px == s * s && py * py == s * s) by (nonlinear_arith)
        requires
            px == s || px == -s,
            py == s || py == -s,
    ;
    assert(s * s > 0) by (nonlinear_arith)
        requires
            s > 0,
    ;
    let whole = s * s;
    assert((whole + whole) * 1_000_000_000_000 / whole == 2_000_000_000_000) by (nonlinear_arith)
        requires
            whole > 0,
    ;
    assert(is_root(1_414_213, 2_000_000_000_000));
    lemma_root_unique(1_414_213, root_of(2_000_000_000_000), 2_000_000_000_000);
    lemma_no_strength_no_ink(255);
}

proof fn lemma_no_strength_no_ink(most: int)
    requires
        most >= 0,
    ensures
        ink_of(0, most) == 0,
    decreases most,
{
    if most > 0 {
        let n = most;
        assert(n * n * n * n * n > 0) by (nonlinear_arith)
            requires
                n > 0,
        ;
        lemma_no_strength_no_ink(most - 1);
    }
}

/// The root of a number is its root: no more than it, squared, and the next one is more.
pub proof fn a_root_is_a_root(n: int)
    requires
        0 <= n,
    ensures
        0 <= root_of(n),
        root_of(n) * root_of(n) <= n,
        n < (root_of(n) + 1) * (root_of(n) + 1),
{
    lemma_some_root(n);
    assert(is_root(root_of(n), n));
}

proof fn lemma_some_root(n: int)
    requires
        0 <= n,
    ensures
        exists|root: int| is_root(root, n),
    decreases n,
{
    if n == 0 {
        assert(is_root(0, 0));
    } else {
        let less = n - 1;
        lemma_some_root(less);
        let root = choose|root: int| is_root(root, less);
        if n < (root + 1) * (root + 1) {
            assert(is_root(root, n));
        } else {
            assert((root + 1) * (root + 1) < (root + 2) * (root + 2)) by (nonlinear_arith)
                requires
                    0 <= root,
            ;
            assert((root + 1) + 1 == root + 2);
            assert(is_root(root + 1, n));
        }
    }
}

/// The marks are the same both ways: a cursor's from left to right and from top to bottom, the
/// close cross's, and a speaker's from top to bottom.
pub proof fn the_marks_are_even(size: int, x: int, y: int, muted: bool)
    requires
        size >= 1,
    ensures
        Glyph::Reticle.ink(size, size - 1 - x, y) == Glyph::Reticle.ink(size, x, y),
        Glyph::Reticle.ink(size, x, size - 1 - y) == Glyph::Reticle.ink(size, x, y),
        Glyph::ReticleLeft.ink(size, size - 1 - x, y) == Glyph::ReticleLeft.ink(size, x, y),
        Glyph::ReticleLeft.ink(size, x, size - 1 - y) == Glyph::ReticleLeft.ink(size, x, y),
        Glyph::ResizeCursor.ink(size, size - 1 - x, y) == Glyph::ResizeCursor.ink(size, x, y),
        Glyph::ResizeCursor.ink(size, x, size - 1 - y) == Glyph::ResizeCursor.ink(size, x, y),
        Glyph::Reticle.ink(size, y, x) == Glyph::Reticle.ink(size, x, y),
        on_speaker(x, -y, size, muted) == on_speaker(x, y, size, muted),
{
    let s = size - 1;
    let (px, py) = (2 * x - s, 2 * y - s);
    assert(2 * (size - 1 - x) - s == -px && 2 * (size - 1 - y) - s == -py);
    assert((-px) * (-px) == px * px && (-py) * (-py) == py * py) by (nonlinear_arith);
    let (dx, dy) = (100 * x - 10 * size, 100 * y);
    assert((-dy) * (-dy) == dy * dy) by (nonlinear_arith);
    let (ax, ay) = (100 * x - 52 * size, 100 * y);
    assert(ax - (-ay) == ax + ay && ax + (-ay) == ax - ay);
    assert(100 * (-y) == -(100 * y));
}

/// The ring is strongest at its own distance from the middle and falls off evenly on both sides of
/// it; the dot is strongest in the middle and falls off from there. Both are gone where they end.
pub proof fn a_ring_falls_off_on_both_sides(r: int, off: int)
    ensures
        ring_at(780_000) == 1_000_000,
        ring_at(780_000 + off) == ring_at(780_000 - off),
        0 <= ring_at(r) <= 1_000_000,
        off >= 120_001 ==> ring_at(780_000 + off) == 0,
        dot_at(0) == 1_000_000,
        0 <= r && 0 <= off ==> dot_at(r + off) <= dot_at(r),
        r >= 240_001 ==> dot_at(r) == 0,
{
}

/// Ink is the most that a strength comes to: it comes to that much, and not to one more; so a
/// stronger place is never the fainter, and the strongest is solid.
pub proof fn ink_is_the_most_it_comes_to(strength: int, most: int)
    requires
        0 <= most,
    ensures
        0 <= ink_of(strength, most) <= most,
        ink_of(strength, most) > 0 ==> inks(strength, ink_of(strength, most)),
        ink_of(strength, most) < most ==> !inks(strength, ink_of(strength, most) + 1),
    decreases most,
{
    if most > 0 && !inks(strength, most) {
        ink_is_the_most_it_comes_to(strength, most - 1);
    }
}

/// A stroke of the close cross is as strong as it reaches, and no stronger.
pub proof fn a_stroke_is_as_strong_as_it_reaches(across: int, s: int, most: int)
    requires
        0 <= most,
    ensures
        0 <= stroke_strength(across, s, most) <= most,
        stroke_strength(across, s, most) > 0 ==> stroke_reaches(
            across,
            s,
            stroke_strength(across, s, most),
        ),
        stroke_strength(across, s, most) < most ==> !stroke_reaches(
            across,
            s,
            stroke_strength(across, s, most) + 1,
        ),
    decreases most,
{
    if most > 0 && !stroke_reaches(across, s, most) {
        a_stroke_is_as_strong_as_it_reaches(across, s, most - 1);
    }
}

/// A picture is four bytes to a pixel, row by row: where there is ink the pixel is white and as
/// opaque as its ink, and where there is none it is clear.
pub proof fn a_picture_is_white_where_there_is_ink(glyph: Glyph, size: int, x: int, y: int)
    requires
        0 <= x < size,
        0 <= y < size,
    ensures
        ({
            let picture = glyph.picture(size);
            let at = 4 * (y * size + x);
            &&& picture.len() == 4 * (size * size)
            &&& glyph.ink(size, x, y) matches Some(ink) ==> picture[at] == 255 && picture[at + 1]
                == 255 && picture[at + 2] == 255 && picture[at + 3] == ink as u8
            &&& glyph.ink(size, x, y) is None ==> picture[at] == 0 && picture[at + 1] == 0
                && picture[at + 2] == 0 && picture[at + 3] == 0
        }),
{
    let pixel = y * size + x;
    let at = 4 * pixel;
    assert(0 <= pixel && pixel < size * size) by (nonlinear_arith)
        requires
            pixel == y * size + x,
            0 <= x < size,
            0 <= y < size,
    ;
    assert(pixel % size == x && pixel / size == y) by (nonlinear_arith)
        requires
            pixel == y * size + x,
            0 <= x < size,
    ;
    assert(size * size * 4 == 4 * (size * size));
    assert(at / 4 == pixel && (at + 1) / 4 == pixel && (at + 2) / 4 == pixel && (at + 3) / 4
        == pixel);
}

/// A pixel of a speaker has as much ink as it has places on the speaker, of the nine that are looked
/// at: none where none is, and all of it where all are.
pub proof fn a_speaker_is_as_dark_as_it_is_covered(size: int, x: int, y: int, muted: bool)
    requires
        size >= 2,
    ensures
        ({
            let n = hits(x, y, 3 * (size - 1), muted, 9);
            let ink = speaker_ink(size, x, y, muted);
            &&& 0 <= n <= 9
            &&& ink is None <==> n == 0
            &&& n > 0 ==> (ink matches Some(dark) && 3 * dark <= 85 * n < 3 * (dark + 1))
            &&& n == 9 ==> ink == Some(255int)
        }),
{
    lemma_hits(x, y, 3 * (size - 1), muted, 9);
}

proof fn lemma_hits(x: int, y: int, s: int, muted: bool, count: int)
    requires
        0 <= count,
    ensures
        0 <= hits(x, y, s, muted, count) <= count,
    decreases count,
{
    if count > 0 {
        lemma_hits(x, y, s, muted, count - 1);
    }
}

} // verus!
