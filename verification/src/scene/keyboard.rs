//! The keyboard that hangs in the world.

use vstd::prelude::*;
use crate::pointer::resize::{FAR, Placement, PlaneQuad, floor_over, height_of, kept, tall_for};
use crate::scene::windows::{Tint, tint};
use crate::sidecar::keys::KeyRect;

verus! {

/// How far below a window the keyboard hangs, in billionths of a radian.
pub const KEYBOARD_GAP: i128 = 26_000_000;

/// How far a hovered key stands off the face, in billionths of a metre.
///
/// Small, which is enough for the cap to cast itself clear of its neighbours and be seen as raised
/// without the letters swimming as the pointer moves between keys.
pub const HOVER_LIFT: i128 = 6_000_000;

/// How wide a keyboard is under a window so wide. As wide as the window, within reason: one matched
/// exactly to a narrow window is unusable and one matched to a very wide one runs past the edges of
/// the field, so the window sets the intent and the field sets the limits.
pub open spec fn keyboard_width(window: int, scale: int, fit: int) -> int {
    kept(window * scale / 1_000_000, fit * 55 / 100, fit)
}

/// How far below a window's middle the keyboard's is, as an angle: past the window's content and
/// its frame, and a gap, and half the keyboard. Angles about the viewer rather than lengths,
/// because that is what "below" means on a sphere.
pub open spec fn keyboard_drop(window: Placement, pixels: (u32, u32), height: int) -> int {
    let below = height_of(window.width as int, pixels) * 60 / 100;
    below * 1_000_000_000 / (window.radius as int) + KEYBOARD_GAP + height * 500_000_000 / (
    window.radius as int)
}

/// Where the keyboard is, as the whole plate — border included.
#[derive(Debug, Clone, Copy, PartialEq, Eq, Structural)]
pub struct Plate {
    pub placement: Placement,
    pub height: i128,
}

/// A keyboard hung under a window, at that window's own distance and facing, so it reads as
/// belonging to the thing being typed into.
pub open spec fn hung(
    window: Placement,
    pixels: (u32, u32),
    scale: int,
    fit: int,
    aspect: int,
) -> Plate {
    let width = keyboard_width(window.width as int, scale, fit);
    let height = width * 1_000_000 / aspect;
    Plate {
        placement: Placement {
            yaw: window.yaw,
            pitch: (window.pitch - keyboard_drop(window, pixels, height)) as i128,
            radius: window.radius,
            width: width as i128,
        },
        height: height as i128,
    }
}

/// Hang the keyboard under a window. `scale` is how large the wearer has made it and `aspect` the
/// shape of its plate, both in millionths; `fit` is the widest that fits the field at the window's
/// distance.
///
/// Move the window and the keyboard goes with it; focus another and the keyboard is already there
/// when you look.
pub fn keyboard_placement(
    window: &Placement,
    pixels: (u32, u32),
    scale: u32,
    fit: i128,
    aspect: u32,
) -> (out: Plate)
    requires
        window.wf(),
        0 <= fit <= FAR,
        aspect > 0,
    ensures
        out == hung(*window, pixels, scale as int, fit as int, aspect as int),
{
    assert(0 <= window.width * scale <= 1_000_000_000_000 * 0xffff_ffff) by (nonlinear_arith)
        requires
            0 <= window.width <= 1_000_000_000_000,
            0 <= scale <= 0xffff_ffff,
    ;
    let wanted: i128 = window.width * scale as i128 / 1_000_000;
    let least: i128 = fit * 55 / 100;
    let width: i128 = if wanted < least {
        least
    } else if wanted > fit {
        fit
    } else {
        wanted
    };
    let height: i128 = width * 1_000_000 / aspect as i128;
    assert(0 <= height <= width * 1_000_000) by (nonlinear_arith)
        requires
            height == (width * 1_000_000) / (aspect as int),
            0 <= width,
            aspect > 0,
    ;
    let tall: i128 = tall_for(window.width, pixels);
    // Half the content, and the frame, which is a tenth of it.
    let below: i128 = tall * 60 / 100;
    proof {
        lemma_angle(below as int, 1_000_000_000, window.radius as int);
        lemma_angle(height as int, 500_000_000, window.radius as int);
    }
    let drop: i128 = below * 1_000_000_000 / window.radius + KEYBOARD_GAP + height * 500_000_000
        / window.radius;
    Plate {
        placement: Placement {
            yaw: window.yaw,
            pitch: window.pitch - drop,
            radius: window.radius,
            width,
        },
        height,
    }
}

proof fn lemma_angle(length: int, share: int, radius: int)
    requires
        0 <= length <= 1_000_000_000_000 * 0xffff_ffff,
        0 <= share <= 1_000_000_000,
        0 < radius,
    ensures
        0 <= length * share <= 1_000_000_000_000 * 0xffff_ffff * 1_000_000_000,
        0 <= length * share / radius <= 1_000_000_000_000 * 0xffff_ffff * 1_000_000_000,
{
    assert(0 <= length * share <= 1_000_000_000_000 * 0xffff_ffff * 1_000_000_000)
        by (nonlinear_arith)
        requires
            0 <= length <= 1_000_000_000_000 * 0xffff_ffff,
            0 <= share <= 1_000_000_000,
    ;
    let n = length * share;
    assert(0 <= n / radius <= n) by (nonlinear_arith)
        requires
            0 <= n,
            0 < radius,
    ;
}

/// The keyboard never fills more than the field allows, nor less than its share of it, whatever
/// the window's width and whatever it has been scaled to.
pub proof fn the_keyboard_keeps_to_the_field(
    window: Placement,
    pixels: (u32, u32),
    scale: int,
    fit: int,
    aspect: int,
)
    requires
        0 <= fit <= FAR,
        aspect > 0,
    ensures
        fit * 55 / 100 <= keyboard_width(window.width as int, scale, fit) <= fit,
        hung(window, pixels, scale, fit, aspect).placement.yaw == window.yaw,
        hung(window, pixels, scale, fit, aspect).placement.radius == window.radius,
{
}

/// The glass behind the keys: brighter while its edge is under a pointer.
pub fn plate_tint(border_hot: bool) -> (out: Tint)
    ensures
        out == (if border_hot {
            tint(720, 850, 1_000, 950)
        } else {
            tint(460, 560, 760, 850)
        }),
{
    if border_hot {
        Tint { red: 720, green: 850, blue: 1_000, opacity: 950 }
    } else {
        Tint { red: 460, green: 560, blue: 760, opacity: 850 }
    }
}

/// A key on the face, and the picture of it raised, where there is one.
#[derive(Debug, Clone, Copy, PartialEq, Eq, Structural)]
pub struct FaceKey {
    pub code: u32,
    pub rect: KeyRect,
    pub cap: Option<u32>,
}

/// A raised key to draw.
#[derive(Debug, Clone, Copy, PartialEq, Eq, Structural)]
pub struct Raised {
    pub cap: u32,
    pub quad: PlaneQuad,
}

/// A key lifted off the face where a pointer is on it. Exactly its own cell, and the margin its
/// shadow needs: `grow` is how much larger than the cell that makes it, in millionths.
pub open spec fn raised(key: FaceKey, face_w: int, face_h: int, grow: int) -> PlaneQuad {
    PlaneQuad {
        right: ((2 * key.rect.u - 1_000_000) * face_w / 2_000_000) as i128,
        up: ((1_000_000 - 2 * key.rect.v) * face_h / 2_000_000) as i128,
        width: (2 * key.rect.half_u * grow * face_w / 1_000_000_000_000) as i128,
        height: (2 * key.rect.half_v * grow * face_h / 1_000_000_000_000) as i128,
    }
}

/// The keys that are lifted: those under a pointer that have a picture to lift.
pub open spec fn raised_keys(
    keys: Seq<FaceKey>,
    hovered: Seq<u32>,
    face_w: int,
    face_h: int,
    grow: int,
) -> Seq<Raised>
    decreases keys.len(),
{
    if keys.len() == 0 {
        Seq::empty()
    } else {
        let before = raised_keys(keys.drop_last(), hovered, face_w, face_h, grow);
        let key = keys.last();
        if key.cap is Some && hovered.contains(key.code) {
            before.push(Raised { cap: key.cap->0, quad: raised(key, face_w, face_h, grow) })
        } else {
            before
        }
    }
}

fn is_hovered(hovered: &[u32], code: u32) -> (out: bool)
    ensures
        out == hovered@.contains(code),
{
    let mut i: usize = 0;
    while i < hovered.len()
        invariant
            i <= hovered.len(),
            forall|j: int| 0 <= j < i ==> hovered@[j] != code,
        decreases hovered.len() - i,
    {
        if hovered[i] == code {
            return true;
        }
        i = i + 1;
    }
    false
}

fn lift(key: FaceKey, face_w: i128, face_h: i128, grow: u32) -> (out: PlaneQuad)
    requires
        0 <= face_w <= FAR,
        0 <= face_h <= FAR,
    ensures
        out == raised(key, face_w as int, face_h as int, grow as int),
{
    let across: i128 = 2 * key.rect.u as i128 - 1_000_000;
    let above: i128 = 1_000_000 - 2 * key.rect.v as i128;
    let wide: i128 = 2 * key.rect.half_u as i128;
    let tall: i128 = 2 * key.rect.half_v as i128;
    proof {
        lemma_part(across as int, face_w as int);
        lemma_part(above as int, face_h as int);
        lemma_part_grown(wide as int, grow as int, face_w as int);
        lemma_part_grown(tall as int, grow as int, face_h as int);
    }
    PlaneQuad {
        right: floor_over(across * face_w, 2_000_000),
        up: floor_over(above * face_h, 2_000_000),
        width: wide * grow as i128 * face_w / 1_000_000_000_000,
        height: tall * grow as i128 * face_h / 1_000_000_000_000,
    }
}

proof fn lemma_part(part: int, length: int)
    requires
        -0x2_0000_0000 <= part <= 0x2_0000_0000,
        0 <= length <= 1_000_000_000_000,
    ensures
        -0x2_0000_0000 * 1_000_000_000_000 <= part * length <= 0x2_0000_0000 * 1_000_000_000_000,
{
    assert(-0x2_0000_0000 * 1_000_000_000_000 <= part * length <= 0x2_0000_0000 * 1_000_000_000_000)
        by (nonlinear_arith)
        requires
            -0x2_0000_0000 <= part <= 0x2_0000_0000,
            0 <= length <= 1_000_000_000_000,
    ;
}

proof fn lemma_part_grown(part: int, grow: int, length: int)
    requires
        0 <= part <= 0x2_0000_0000,
        0 <= grow <= 0x1_0000_0000,
        0 <= length <= 1_000_000_000_000,
    ensures
        0 <= part * grow <= 0x2_0000_0000 * 0x1_0000_0000,
        0 <= part * grow * length <= 0x2_0000_0000 * 0x1_0000_0000 * 1_000_000_000_000,
{
    assert(0 <= part * grow <= 0x2_0000_0000 * 0x1_0000_0000) by (nonlinear_arith)
        requires
            0 <= part <= 0x2_0000_0000,
            0 <= grow <= 0x1_0000_0000,
    ;
    let n = part * grow;
    assert(0 <= n * length <= 0x2_0000_0000 * 0x1_0000_0000 * 1_000_000_000_000)
        by (nonlinear_arith)
        requires
            0 <= n <= 0x2_0000_0000 * 0x1_0000_0000,
            0 <= length <= 1_000_000_000_000,
    ;
}

/// Work out which keys are lifted off the face, and where.
///
/// Lifted *in the world*, along the face's own normal, rather than merely tinted: a flat highlight
/// has to be read; a raised cap is seen.
pub fn draw_hovered(
    keys: &[FaceKey],
    hovered: &[u32],
    face: (i128, i128),
    grow: u32,
) -> (out: Vec<Raised>)
    requires
        0 <= face.0 <= FAR,
        0 <= face.1 <= FAR,
    ensures
        out@ == raised_keys(keys@, hovered@, face.0 as int, face.1 as int, grow as int),
{
    let mut out: Vec<Raised> = Vec::new();
    let mut i: usize = 0;
    while i < keys.len()
        invariant
            0 <= face.0 <= FAR,
            0 <= face.1 <= FAR,
            i <= keys.len(),
            out@ == raised_keys(
                keys@.take(i as int),
                hovered@,
                face.0 as int,
                face.1 as int,
                grow as int,
            ),
        decreases keys.len() - i,
    {
        assert(keys@.take(i + 1).drop_last() =~= keys@.take(i as int));
        let key = keys[i];
        if let Some(cap) = key.cap {
            if is_hovered(hovered, key.code) {
                out.push(Raised { cap, quad: lift(key, face.0, face.1, grow) });
            }
        }
        i = i + 1;
    }
    assert(keys@.take(i as int) =~= keys@);
    out
}

/// How large something of a shape may be to fill what the field has room for: as wide as it is
/// across, or as wide as is as tall as it is up, whichever is less, and as tall as that makes it.
/// The shape is in millionths.
pub open spec fn fitted(across: int, up: int, aspect: int) -> (int, int) {
    let shape = if aspect < 10_000 {
        10_000
    } else {
        aspect
    };
    let tall = up * shape / 1_000_000;
    let width = if across < tall {
        across
    } else {
        tall
    };
    (width, width * 1_000_000 / shape)
}

/// How large something of a shape may be to fill what the field has room for, across and up.
pub fn fit_to_fov(across: i128, up: i128, aspect: u32) -> (out: (i128, i128))
    requires
        0 <= across <= FAR,
        0 <= up <= FAR,
    ensures
        (out.0 as int, out.1 as int) == fitted(across as int, up as int, aspect as int),
{
    let shape: i128 = if aspect < 10_000 {
        10_000
    } else {
        aspect as i128
    };
    assert(0 <= up * shape <= 1_000_000_000_000 * 0xffff_ffff) by (nonlinear_arith)
        requires
            0 <= up <= 1_000_000_000_000,
            0 <= shape <= 0xffff_ffff,
    ;
    let tall: i128 = up * shape / 1_000_000;
    let width: i128 = if across < tall {
        across
    } else {
        tall
    };
    (width, width * 1_000_000 / shape)
}

/// What is fitted to the field fits it, both ways.
pub proof fn what_is_fitted_fits(across: int, up: int, aspect: int)
    requires
        0 <= across,
        0 <= up,
        0 <= aspect,
    ensures
        fitted(across, up, aspect).0 <= across,
        fitted(across, up, aspect).1 <= up,
{
    let shape = if aspect < 10_000 {
        10_000
    } else {
        aspect
    };
    let n = up * shape;
    let tall = n / 1_000_000;
    let (width, height) = fitted(across, up, aspect);
    assert(tall * 1_000_000 <= n);
    assert(width * 1_000_000 / shape <= up) by (nonlinear_arith)
        requires
            width * 1_000_000 <= n,
            n == up * shape,
            shape >= 10_000,
    ;
}

/// The keyboard is as wide as the wearer has made it against its window, wherever that is between
/// what the field allows and its share of it, and the nearer of the two where it is not.
pub proof fn the_window_sets_the_width(window: int, scale: int, fit: int)
    requires
        0 <= fit,
        0 <= window,
        0 <= scale,
    ensures
        ({
            let width = keyboard_width(window, scale, fit);
            let wanted = window * scale;
            &&& fit * 55 / 100 < width < fit ==> width * 1_000_000 <= wanted < (width + 1)
                * 1_000_000
            &&& fit * 1_000_000 <= wanted ==> width == fit
            &&& scale == 1_000_000 && fit * 55 / 100 <= window <= fit ==> width == window
        }),
{
    assert(scale == 1_000_000 ==> window * scale / 1_000_000 == window);
}

/// The keyboard hangs straight under its window and as far away as it, and clear of it: its top edge
/// is a gap below the bottom of the window's frame, which is six tenths of the content's height
/// below its middle, to within what rounding down leaves. It keeps the shape it was given.
pub proof fn the_keyboard_hangs_under_its_window(
    window: Placement,
    pixels: (u32, u32),
    scale: u32,
    fit: int,
    aspect: u32,
)
    requires
        window.wf(),
        0 <= fit <= FAR,
        aspect > 0,
    ensures
        ({
            let plate = hung(window, pixels, scale as int, fit, aspect as int);
            let tall = height_of(window.width as int, pixels);
            let radius = window.radius;
            let drop = window.pitch - plate.placement.pitch;
            // The angle between the two middles, less half the keyboard's own.
            let clear = radius * (drop - KEYBOARD_GAP);
            &&& plate.placement.yaw == window.yaw
            &&& plate.placement.radius == window.radius
            &&& plate.height * aspect <= plate.placement.width * 1_000_000 < (plate.height + 1)
                * aspect
            &&& clear <= tall * 60 / 100 * 1_000_000_000 + plate.height * 500_000_000
            &&& tall * 60 / 100 * 1_000_000_000 + plate.height * 500_000_000 < clear + 2 * radius
        }),
{
    let width = keyboard_width(window.width as int, scale as int, fit);
    let a = aspect as int;
    let radius = window.radius as int;
    crate::pointer::resize::lemma_height(window.width as int, pixels);
    let tall = height_of(window.width as int, pixels);
    let below = tall * 60 / 100;
    let n = width * 1_000_000;
    let height = n / a;
    assert(window.width * scale >= 0) by (nonlinear_arith)
        requires
            window.width >= 0,
            scale >= 0,
    ;
    assert(0 <= width <= FAR);
    assert(height * a <= n < (height + 1) * a && 0 <= height <= n) by (nonlinear_arith)
        requires
            height == n / a,
            a > 0,
            n >= 0,
    ;
    lemma_angle(below, 1_000_000_000, radius);
    lemma_angle(height, 500_000_000, radius);
    let (x, y) = (below * 1_000_000_000, height * 500_000_000);
    let (p, q) = (x / radius, y / radius);
    assert(radius * p <= x < radius * p + radius && radius * q <= y < radius * q + radius)
        by (nonlinear_arith)
        requires
            p == x / radius,
            q == y / radius,
            radius > 0,
    ;
    assert(radius * (p + q) == radius * p + radius * q) by (nonlinear_arith);
}

/// Every key that a pointer is on and that has a picture is lifted, in order, and no other key is.
pub proof fn every_key_pointed_at_is_lifted(
    keys: Seq<FaceKey>,
    hovered: Seq<u32>,
    w: int,
    h: int,
    grow: int,
)
    ensures
        raised_keys(keys, hovered, w, h, grow) == keys.filter(
            |k: FaceKey| k.cap is Some && hovered.contains(k.code),
        ).map_values(|k: FaceKey| Raised { cap: k.cap->0, quad: raised(k, w, h, grow) }),
    decreases keys.len(),
{
    reveal(Seq::filter);
    let lifted = |k: FaceKey| k.cap is Some && hovered.contains(k.code);
    let cap = |k: FaceKey| Raised { cap: k.cap->0, quad: raised(k, w, h, grow) };
    if keys.len() > 0 {
        every_key_pointed_at_is_lifted(keys.drop_last(), hovered, w, h, grow);
        let before = keys.drop_last().filter(lifted);
        assert(before.push(keys.last()).map_values(cap) =~= before.map_values(cap).push(
            cap(keys.last()),
        ));
    } else {
        assert(keys.filter(lifted).map_values(cap) =~= Seq::empty());
    }
}

/// What is fitted keeps its shape and is as large as it may be: it is as wide as there is room
/// across, or as wide as its height may be makes it.
pub proof fn what_is_fitted_fills_the_field(across: int, up: int, aspect: int)
    requires
        0 <= across,
        0 <= up,
        10_000 <= aspect,
    ensures
        ({
            let (width, height) = fitted(across, up, aspect);
            &&& height * aspect <= width * 1_000_000 < (height + 1) * aspect
            &&& width < across ==> width * 1_000_000 <= up * aspect < (width + 1) * 1_000_000
            &&& width == across || width < across
        }),
{
    let (width, height) = fitted(across, up, aspect);
    let n = width * 1_000_000;
    assert(height * aspect <= n < (height + 1) * aspect) by (nonlinear_arith)
        requires
            height == n / aspect,
            aspect > 0,
    ;
}

} // verus!
