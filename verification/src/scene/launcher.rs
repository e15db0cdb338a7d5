//! The launcher: bubbles in space, with their names under them and dots to say which page this is.

use vstd::prelude::*;
use crate::scene::menu::{ALL, Anchor};
use crate::scene::windows::TitleTexture;

verus! {

/// Diameter of a launcher bubble, in billionths of a metre, at the arc radius.
///
/// 0.16 m at 2 m is about 4.6°. That sounds small and is not: it is roughly a thumbnail at
/// arm's length. The size is forced by the vertical field: three rows of bubbles *plus their
/// labels* have to fit inside 23°.
pub const BUBBLE_DIAMETER: i128 = 160_000_000;

/// How tall a bubble's name is, and how far below the glass it hangs.
pub const NAME_HEIGHT: i128 = 22_000_000;

/// Where the launcher puts a bubble: an index into its list, a direction in billionths of a radian,
/// a distance in billionths of a metre, and how large it is shown, in millionths. Only the focused
/// one is shown larger than it is.
#[derive(Debug, Clone, Copy, PartialEq, Eq, Structural)]
pub struct Spot {
    pub index: usize,
    pub yaw: i64,
    pub pitch: i64,
    pub radius: i64,
    pub scale: u32,
}

/// A bubble to draw.
#[derive(Debug, Clone, Copy, PartialEq, Eq)]
pub struct Bubble {
    pub yaw: i128,
    pub pitch: i64,
    pub radius: i64,
    pub size: i128,
    pub focused: bool,
    pub icon: Option<u32>,
    pub appear: u32,
}

/// A bubble's name to draw: the same direction and distance, and so far below.
#[derive(Debug, Clone, Copy, PartialEq, Eq)]
pub struct Name {
    pub yaw: i128,
    pub pitch: i64,
    pub radius: i64,
    pub drop: i128,
    pub texture: u32,
    pub width: i128,
    pub height: i128,
    /// In thousandths.
    pub opacity: u32,
}

/// A dot for a page: how far below level, in thousandths of a degree, how large, and its opacity in
/// thousandths.
#[derive(Debug, Clone, Copy, PartialEq, Eq, Structural)]
pub struct Dot {
    pub down: i64,
    pub size: i128,
    pub opacity: u32,
}

/// How far to the right of the grid the dots stand, in thousandths of a degree: a little over two
/// columns.
pub const DOTS_ASIDE: i64 = 19_800;

/// Half of how far apart the dots are, in thousandths of a degree.
pub const HALF_DOT: i64 = 1_600;

/// How large a bubble is so far into its arrival. Arriving bubbles are smaller and in their final
/// place rather than flying in from somewhere: a bubble that travels has to be tracked by the eye,
/// and there are twelve of them.
pub open spec fn grown(scale: int, appear: int) -> int {
    BUBBLE_DIAMETER * scale * (720_000_000_000 + 280_000 * appear) / 1_000_000_000_000_000_000
}

/// A picture of a list, where it has one.
pub open spec fn picture_at(list: Seq<TitleTexture>, index: int) -> Option<TitleTexture> {
    if 0 <= index < list.len() {
        Some(list[index])
    } else {
        None
    }
}

/// A bubble, once it has begun to appear.
pub open spec fn bubble_at(anchor: Anchor, spot: Spot, glyphs: Seq<TitleTexture>, now: int) -> Option<
    Bubble,
> {
    let appear = anchor.appeared(spot.index as int, now);
    if appear <= 1_000 {
        None
    } else {
        Some(
            Bubble {
                yaw: (spot.yaw + anchor.yaw) as i128,
                pitch: spot.pitch,
                radius: spot.radius,
                size: grown(spot.scale as int, appear) as i128,
                focused: spot.scale > ALL,
                icon: match picture_at(glyphs, spot.index as int) {
                    Some(glyph) => Some(glyph.id),
                    None => None,
                },
                appear: appear as u32,
            },
        )
    }
}

/// The bubbles that have begun to appear.
pub open spec fn bubbles_at(
    anchor: Anchor,
    spots: Seq<Spot>,
    glyphs: Seq<TitleTexture>,
    now: int,
) -> Seq<Bubble>
    decreases spots.len(),
{
    if spots.len() == 0 {
        Seq::empty()
    } else {
        let before = bubbles_at(anchor, spots.drop_last(), glyphs, now);
        match bubble_at(anchor, spots.last(), glyphs, now) {
            Some(bubble) => before.push(bubble),
            None => before,
        }
    }
}

/// A bubble's name, where it has been rasterised. Clear of the glass even when the bubble is the
/// focused one and larger -- measured against that, not against the resting size, or the label
/// rides up onto the icon of whichever bubble you are actually looking at.
pub open spec fn name_at(anchor: Anchor, spot: Spot, labels: Seq<TitleTexture>, now: int) -> Option<
    Name,
> {
    match picture_at(labels, spot.index as int) {
        Some(label) => Some(
            Name {
                yaw: (spot.yaw + anchor.yaw) as i128,
                pitch: spot.pitch,
                radius: spot.radius,
                drop: (80 * spot.scale + NAME_HEIGHT) as i128,
                texture: label.id,
                width: (22 * (if label.aspect < 10_000 {
                    10_000
                } else {
                    label.aspect as int
                })) as i128,
                height: NAME_HEIGHT,
                opacity: ((if spot.scale > ALL {
                    1_000int
                } else {
                    550
                }) * anchor.appeared(spot.index as int, now) / (ALL as int)) as u32,
            },
        ),
        None => None,
    }
}

/// The names that have been rasterised.
pub open spec fn names_at(
    anchor: Anchor,
    spots: Seq<Spot>,
    labels: Seq<TitleTexture>,
    now: int,
) -> Seq<Name>
    decreases spots.len(),
{
    if spots.len() == 0 {
        Seq::empty()
    } else {
        let before = names_at(anchor, spots.drop_last(), labels, now);
        match name_at(anchor, spots.last(), labels, now) {
            Some(name) => before.push(name),
            None => before,
        }
    }
}

/// A page's dot.
pub open spec fn dot_for(page: int, pages: int, current: int) -> Dot {
    Dot {
        down: ((2 * page - (pages - 1)) * HALF_DOT) as i64,
        size: if page == current {
            20_000_000
        } else {
            12_000_000
        },
        opacity: if page == current {
            950
        } else {
            400
        },
    }
}

/// The dots down the right-hand side, so it is obvious there is more above or below. Without them a
/// paged grid is indistinguishable from a short one, and nobody presses down past the last visible
/// row to find out.
pub open spec fn dots_for(pages: int, current: int) -> Seq<Dot> {
    if pages > 1 {
        Seq::new(pages as nat, |page: int| dot_for(page, pages, current))
    } else {
        Seq::empty()
    }
}

/// Work out the bubbles to draw.
pub fn draw_bubbles(anchor: &Anchor, spots: &[Spot], glyphs: &[TitleTexture], now: u64) -> (out: Vec<
    Bubble,
>)
    ensures
        out@ == bubbles_at(*anchor, spots@, glyphs@, now as int),
{
    let mut out: Vec<Bubble> = Vec::new();
    let mut i: usize = 0;
    while i < spots.len()
        invariant
            i <= spots.len(),
            out@ == bubbles_at(*anchor, spots@.take(i as int), glyphs@, now as int),
        decreases spots.len() - i,
    {
        assert(spots@.take(i + 1).drop_last() =~= spots@.take(i as int));
        let spot = spots[i];
        let appear: u32 = anchor.appear_progress(spot.index, now);
        if appear > 1_000 {
            let icon = if spot.index < glyphs.len() {
                Some(glyphs[spot.index].id)
            } else {
                None
            };
            out.push(
                Bubble {
                    yaw: spot.yaw as i128 + anchor.yaw as i128,
                    pitch: spot.pitch,
                    radius: spot.radius,
                    size: bubble_size(spot.scale, appear),
                    focused: spot.scale > ALL as u32,
                    icon,
                    appear,
                },
            );
        }
        i = i + 1;
    }
    assert(spots@.take(i as int) =~= spots@);
    out
}

fn bubble_size(scale: u32, appear: u32) -> (out: i128)
    requires
        appear <= ALL,
    ensures
        out == grown(scale as int, appear as int),
{
    let share: i128 = 720_000_000_000 + 280_000 * appear as i128;
    assert(0 <= 160_000_000 * scale * share <= 160_000_000 * 0xffff_ffff * 1_000_000_000_000)
        by (nonlinear_arith)
        requires
            0 <= scale <= 0xffff_ffff,
            0 <= share <= 1_000_000_000_000,
    ;
    BUBBLE_DIAMETER * scale as i128 * share / 1_000_000_000_000_000_000
}

/// Work out the names to draw, after every bubble, so they are never occluded by a neighbouring
/// bubble's glass.
pub fn draw_names(anchor: &Anchor, spots: &[Spot], labels: &[TitleTexture], now: u64) -> (out: Vec<
    Name,
>)
    ensures
        out@ == names_at(*anchor, spots@, labels@, now as int),
{
    let mut out: Vec<Name> = Vec::new();
    let mut i: usize = 0;
    while i < spots.len()
        invariant
            i <= spots.len(),
            out@ == names_at(*anchor, spots@.take(i as int), labels@, now as int),
        decreases spots.len() - i,
    {
        assert(spots@.take(i + 1).drop_last() =~= spots@.take(i as int));
        let spot = spots[i];
        if spot.index < labels.len() {
            let label = labels[spot.index];
            let appear: u32 = anchor.appear_progress(spot.index, now);
            let bright: u64 = if spot.scale > ALL as u32 {
                1_000
            } else {
                550
            };
            assert(bright * appear <= 1_000 * 1_000_000) by (nonlinear_arith)
                requires
                    bright <= 1_000,
                    appear <= 1_000_000,
            ;
            let aspect: i128 = if label.aspect < 10_000 {
                10_000
            } else {
                label.aspect as i128
            };
            out.push(
                Name {
                    yaw: spot.yaw as i128 + anchor.yaw as i128,
                    pitch: spot.pitch,
                    radius: spot.radius,
                    drop: 80 * spot.scale as i128 + NAME_HEIGHT,
                    texture: label.id,
                    width: 22 * aspect,
                    height: NAME_HEIGHT,
                    opacity: (bright * appear as u64 / 1_000_000) as u32,
                },
            );
        }
        i = i + 1;
    }
    assert(spots@.take(i as int) =~= spots@);
    out
}

/// Work out the page dots.
pub fn draw_dots(pages: u32, current: u32) -> (out: Vec<Dot>)
    ensures
        out@ == dots_for(pages as int, current as int),
{
    let mut out: Vec<Dot> = Vec::new();
    if pages <= 1 {
        return out;
    }
    let mut page: u32 = 0;
    while page < pages
        invariant
            page <= pages,
            out@ == Seq::new(page as nat, |p: int| dot_for(p, pages as int, current as int)),
        decreases pages - page,
    {
        let steps: i64 = 2 * page as i64 - (pages as i64 - 1);
        let here: bool = page == current;
        out.push(
            Dot {
                down: steps * HALF_DOT,
                size: if here {
                    20_000_000
                } else {
                    12_000_000
                },
                opacity: if here {
                    950
                } else {
                    400
                },
            },
        );
        page = page + 1;
        assert(out@ =~= Seq::new(page as nat, |p: int| dot_for(p, pages as int, current as int)));
    }
    out
}

/// The dots stand evenly about the middle: the first is as far above it as the last is below.
pub proof fn dots_stand_about_the_middle(pages: int, current: int, page: int)
    requires
        1 < pages <= u32::MAX,
        0 <= page < pages,
    ensures
        dots_for(pages, current)[page].down == -dots_for(pages, current)[pages - 1 - page].down,
{
}

/// A bubble is nearly three quarters of its size when it sets out and all of it once it has arrived,
/// and only grows on the way; one that is scaled is scaled all through.
pub proof fn a_bubble_grows_into_its_size(scale: int, appear: int, later: int)
    requires
        0 <= scale,
        0 <= appear <= later <= 1_000_000,
    ensures
        grown(scale, appear) <= grown(scale, later),
        grown(1_000_000, 1_000_000) == BUBBLE_DIAMETER,
        grown(1_000_000, 0) * 100 == BUBBLE_DIAMETER * 72,
        grown(scale, 1_000_000) * 1_000_000 <= BUBBLE_DIAMETER * scale < (grown(scale, 1_000_000)
            + 1) * 1_000_000,
{
    let d = BUBBLE_DIAMETER * scale;
    let (a, b) = (720_000_000_000 + 280_000 * appear, 720_000_000_000 + 280_000 * later);
    assert(d * a <= d * b) by (nonlinear_arith)
        requires
            0 <= d,
            a <= b,
    ;
    assert(d * a / 1_000_000_000_000_000_000 <= d * b / 1_000_000_000_000_000_000);
    assert(BUBBLE_DIAMETER * 1_000_000 == 160_000_000_000_000);
    assert(d * 1_000_000_000_000 / 1_000_000_000_000_000_000 == d / 1_000_000);
}

/// A bubble stands where its spot is, turned to where the menu is pinned, with its own picture on
/// it; the one that is larger than the rest is the one in focus. One that has not begun to appear
/// is not drawn.
pub proof fn a_bubble_stands_at_its_spot(
    anchor: Anchor,
    spot: Spot,
    glyphs: Seq<TitleTexture>,
    now: int,
)
    ensures
        bubble_at(anchor, spot, glyphs, now) is None <==> anchor.appeared(spot.index as int, now)
            <= 1_000,
        bubble_at(anchor, spot, glyphs, now) matches Some(bubble) ==> {
            &&& bubble.yaw == spot.yaw + anchor.yaw
            &&& bubble.pitch == spot.pitch
            &&& bubble.radius == spot.radius
            &&& bubble.focused <==> spot.scale > 1_000_000
            &&& spot.index < glyphs.len() ==> bubble.icon == Some(glyphs[spot.index as int].id)
            &&& spot.index >= glyphs.len() ==> bubble.icon is None
        },
{
}

/// A name stands under its own bubble, clear of the glass at whatever size that is: lower by half a
/// bubble and its own height, and full bright only under the bubble in focus.
pub proof fn a_name_stands_under_its_bubble(
    anchor: Anchor,
    spot: Spot,
    labels: Seq<TitleTexture>,
    now: int,
)
    ensures
        name_at(anchor, spot, labels, now) is Some <==> spot.index < labels.len(),
        name_at(anchor, spot, labels, now) matches Some(name) ==> {
            &&& name.yaw == spot.yaw + anchor.yaw
            &&& name.pitch == spot.pitch
            &&& name.radius == spot.radius
            &&& name.texture == labels[spot.index as int].id
            // Half a bubble of this scale.
            &&& (name.drop - NAME_HEIGHT) * 2_000_000 == BUBBLE_DIAMETER * spot.scale
            &&& labels[spot.index as int].aspect >= 10_000 ==> name.width * 1_000_000
                == name.height * labels[spot.index as int].aspect
            &&& name.height == NAME_HEIGHT
        },
        (name_at(anchor, spot, labels, now) matches Some(name) && anchor.appeared(
            spot.index as int,
            now,
        ) == 1_000_000) ==> name_at(anchor, spot, labels, now)->0.opacity == (if spot.scale
            > 1_000_000 {
            1_000u32
        } else {
            550
        }),
{
    assert(1_000int * 1_000_000 / 1_000_000 == 1_000);
    assert(550int * 1_000_000 / 1_000_000 == 550);
}

/// Every spot that has a bubble has it drawn, and every one that has a name, in order.
pub proof fn every_spot_is_drawn(
    anchor: Anchor,
    spots: Seq<Spot>,
    spot: Spot,
    pictures: Seq<TitleTexture>,
    now: int,
)
    ensures
        bubble_at(anchor, spot, pictures, now) matches Some(bubble) ==> bubbles_at(
            anchor,
            spots.push(spot),
            pictures,
            now,
        ) == bubbles_at(anchor, spots, pictures, now).push(bubble),
        bubble_at(anchor, spot, pictures, now) is None ==> bubbles_at(
            anchor,
            spots.push(spot),
            pictures,
            now,
        ) == bubbles_at(anchor, spots, pictures, now),
        name_at(anchor, spot, pictures, now) matches Some(name) ==> names_at(
            anchor,
            spots.push(spot),
            pictures,
            now,
        ) == names_at(anchor, spots, pictures, now).push(name),
        name_at(anchor, spot, pictures, now) is None ==> names_at(
            anchor,
            spots.push(spot),
            pictures,
            now,
        ) == names_at(anchor, spots, pictures, now),
        bubbles_at(anchor, Seq::empty(), pictures, now).len() == 0,
        names_at(anchor, Seq::empty(), pictures, now).len() == 0,
{
    assert(spots.push(spot).drop_last() =~= spots);
}

/// There is a dot for each page and none for a single one; each is the same step further down than
/// the one before it, and the page that is shown is the only one that is larger and brighter.
pub proof fn the_dots_show_the_page(pages: int, current: int, page: int, other: int)
    requires
        1 < pages <= u32::MAX,
        0 <= page < pages,
        0 <= other < pages,
    ensures
        dots_for(pages, current).len() == pages,
        dots_for(1, current).len() == 0,
        page + 1 < pages ==> dots_for(pages, current)[page + 1].down - dots_for(
            pages,
            current,
        )[page].down == 2 * HALF_DOT,
        page == current && other != current ==> dots_for(pages, current)[page].size > dots_for(
            pages,
            current,
        )[other].size && dots_for(pages, current)[page].opacity > dots_for(
            pages,
            current,
        )[other].opacity,
        page != current && other != current ==> dots_for(pages, current)[page].size == dots_for(
            pages,
            current,
        )[other].size && dots_for(pages, current)[page].opacity == dots_for(
            pages,
            current,
        )[other].opacity,
{
}

} // verus!
