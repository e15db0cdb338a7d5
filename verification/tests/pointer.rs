use spatiand::pointer::resize::{
    popup_quad, quad_of, resize, window_quad, Placement, NARROWEST, WIDEST,
};
use spatiand::pointer::state::{
    aim, dismiss_popups, Drag, Hit, PointerState, PopupHit, Surface, Target,
};
use spatiand::pointer::{
    surface_position, Box2, Edge, Frame, Zone, BORDER_FRACTION, BTN_LEFT, BTN_MIDDLE, BTN_RIGHT,
    CORNER_REACH, FURNITURE_FRACTION, TITLE_BAR_FRACTION,
};

const PIXELS: (u32, u32) = (1280, 800);

/// A metre.
const M: i128 = 1_000_000_000;

/// A window a little over two metres away.
fn placement(yaw: f64) -> Placement {
    Placement {
        yaw: (yaw * 1e9) as i128,
        pitch: 0,
        radius: 2_200_000_000,
        width: 1_100_000_000,
    }
}

/// A fraction of a quad, as a hit gives it.
fn at(fraction: f64) -> i64 {
    (fraction * 1e9).round() as i64
}

const BORDER: f64 = BORDER_FRACTION as f64 / 100.0;

/// The measures of a frame as fractions of its content's height.
struct Measures {
    width: f64,
    height: f64,
    bar: f64,
    content_width: f64,
}

fn measures(pixels: (u32, u32)) -> Measures {
    let f = Frame::of(pixels);
    let ratio = |(n, d): (u64, u64)| n as f64 / d as f64;
    let width = ratio(f.width());
    Measures {
        width,
        height: ratio(f.height()),
        bar: ratio(f.bar()),
        content_width: width - 2.0 * BORDER,
    }
}

fn middle(b: &Box2) -> (f64, f64) {
    (b.u as f64 / b.over_u as f64, b.v as f64 / b.over_v as f64)
}

fn halves(b: &Box2) -> (f64, f64) {
    (b.half_u as f64 / b.over_u as f64, b.half_v as f64 / b.over_v as f64)
}

fn metres(n: i128) -> f64 {
    n as f64 / 1e9
}

#[test]
fn a_popup_covering_the_whole_surface_lands_exactly_on_it() {
    // The calibration check for the whole popup coordinate system. A popup the size of its
    // parent, at the origin, must come out as the parent's content quad -- same centre,
    // same size. Anything wrong with the sign of v, the aspect, or the pixel scale shows
    // up here rather than as a menu that is slightly off in a headset.
    let p = placement(0.0);
    let quad = popup_quad(PIXELS, &p, (0, 0), PIXELS);
    assert_eq!(quad.width, p.width, "width {}", quad.width);
    assert_eq!(quad.height, p.width * 800 / 1280, "height {}", quad.height);
    assert_eq!((quad.right, quad.up), (0, 0));
}

#[test]
fn a_popup_in_the_top_left_of_a_window_is_up_and_to_the_left() {
    // A menu in the top-left quarter of a surface must sit left of and above the window's
    // centre. Getting v's sign backwards is the easy mistake -- it puts every menu the same
    // distance below where it belongs, which reads as a placement bug rather than an inverted
    // axis.
    let p = placement(0.0);
    let quarter = (PIXELS.0 / 2, PIXELS.1 / 2);
    let quad = popup_quad(PIXELS, &p, (0, 0), quarter);
    assert!(quad.right < 0, "should be to the left, got {quad:?}");
    assert!(quad.up > 0, "should be above, got {quad:?}");
    // A quarter-sized popup is a quarter of the surface in each axis.
    assert_eq!(quad.width, p.width / 2);
}

#[test]
fn a_menu_may_hang_off_the_edge_of_its_window() {
    // Popups routinely overhang -- a context menu near the bottom of a page, a dropdown
    // wider than the control that opened it. That is why they are hit-tested as quads of
    // their own rather than as a region of the parent: the overhanging part is outside the
    // window entirely, and testing only the window would leave it visible and dead.
    let p = placement(0.0);
    let overhanging = popup_quad(PIXELS, &p, (PIXELS.0 as i32 - 40, 0), (400, 300));
    // Its centre is past the window's right edge.
    assert!(
        overhanging.right > p.width / 2,
        "expected the centre beyond the right edge, got {overhanging:?}"
    );
}

#[test]
fn the_pointer_location_is_not_also_the_surface_origin() {
    // The bug this guards is subtle and total: a client is delivered `location - origin`, so
    // passing the surface-local position as both makes every delivered position (0, 0). Motion
    // appears to work -- events flow, focus changes -- and nothing is ever under the cursor, so
    // no button in any application can be clicked.
    let local = surface_position(at(0.5), at(0.5), PIXELS).expect("middle of the content");
    assert!(
        local.0 > 256 && local.1 > 256,
        "a centre hit must not be the origin: {local:?}"
    );
}

#[test]
fn the_close_button_is_in_the_bar_at_the_right_and_the_icon_at_the_left() {
    let f = Frame::of(PIXELS);
    let m = measures(PIXELS);
    let (icon, close) = (f.icon(), f.close());
    assert!(middle(&icon).0 < 0.5 && middle(&close).0 > 0.5, "{icon:?} {close:?}");
    // Both inside the quad rather than half off its edge.
    assert!(icon.u - icon.half_u > 0);
    assert!(close.u + close.half_u < close.over_u);
    // And both in the bar: the lowest point of each is still above the content.
    let below = |b: &Box2| {
        (middle(b).1 + halves(b).1) * m.height - BORDER - m.bar
    };
    assert!(below(&icon) < 0.0, "the icon overlaps the surface");
    assert!(below(&close) < 0.0, "the close button overlaps the surface");
}

#[test]
fn pressing_the_close_button_is_not_pressing_the_bar() {
    // The distinction the whole zone exists for. If this ever collapses, pressing close
    // starts dragging the window instead, which looks like the button being dead.
    let f = Frame::of(PIXELS);
    let close = f.close();
    let (u, v) = middle(&close);
    assert_eq!(f.zone(at(u), at(v)), Zone::Close);
    assert!(close.contains(at(u), at(v)));
    // A little to the left of it is ordinary bar.
    assert_eq!(f.zone(at(u - halves(&close).0 * 3.0), at(v)), Zone::Title);
}

#[test]
fn the_icon_is_not_a_button() {
    // It is there to say which application this is, and a target that does nothing is
    // worse than no target: it gets pressed, and the window does not move.
    let f = Frame::of(PIXELS);
    let (u, v) = middle(&f.icon());
    assert_eq!(f.zone(at(u), at(v)), Zone::Title);
}

#[test]
fn the_furniture_is_square_in_the_world_whatever_the_window_shape() {
    // u and v are fractions of different lengths, so equal fractions are not a square. A
    // wide window would otherwise get a close button stretched into a letterbox.
    for pixels in [(1280u32, 800u32), (800, 1280), (2560, 720)] {
        let m = measures(pixels);
        let c = halves(&Frame::of(pixels).close());
        let (w, h) = (c.0 * m.width, c.1 * m.height);
        assert!((w - h).abs() < 1e-9, "{pixels:?} gave {w} by {h}");
    }
}

#[test]
fn aiming_at_the_close_button_does_not_offer_to_move_the_window() {
    // `on_title` is what starts a drag, so it has to be false here even though the button
    // is geometrically part of the bar.
    let f = Frame::of(PIXELS);
    let (u, v) = middle(&f.close());
    assert!(matches!(f.zone(at(u), at(v)), Zone::Close));
    assert_ne!(f.zone(at(u), at(v)), Zone::Title);
    let hit = Hit { distance: 2, u: at(u), v: at(v) };
    let aimed = aim(Some((0, hit)), &[], &[PIXELS]);
    assert!(!aimed.on_title);
    assert_eq!(aimed.zone, Some(Zone::Close));
}

#[test]
fn the_clickable_quad_is_taller_than_the_surface() {
    // The title bar is drawn above the content, so the quad the ray hits has to include
    // it -- otherwise the bar is visible and unclickable.
    let p = placement(0.0);
    let quad = quad_of(PIXELS, &p);
    let content = p.width * 800 / 1280;
    assert!(quad.height > content, "{} vs {content}", quad.height);
}

#[test]
fn a_hit_near_the_top_is_the_title_bar_and_has_no_surface_position() {
    assert!(
        surface_position(at(0.5), at(0.02), PIXELS).is_none(),
        "the bar is not the surface"
    );
}

/// A hit at a point in the *content*, 0..1, expressed as a hit on the whole quad.
fn at_content(pixels: (u32, u32), x: f64, y: f64) -> (i64, i64) {
    let m = measures(pixels);
    (
        at((x * m.content_width + BORDER) / m.width),
        at((y + BORDER + m.bar) / m.height),
    )
}

#[test]
fn the_frame_is_a_reachable_target() {
    // The frame used to be 0.012 m, about a third of a degree at 2.2 m, which is fine for
    // being seen and hopeless for being aimed at with a head-anchored ray.
    let p = placement(0.0);
    let content_height = metres(p.width) / (PIXELS.0 as f64 / PIXELS.1 as f64);
    let border = content_height * BORDER;
    let angular = (border / metres(p.radius)).to_degrees();
    assert!(angular > 1.5, "frame is only {angular} deg thick");
}

#[test]
fn the_middle_of_a_window_is_its_content() {
    assert_eq!(Frame::of(PIXELS).zone(at(0.5), at(0.5)), Zone::Content);
}

#[test]
fn each_edge_of_the_frame_is_the_edge_it_looks_like() {
    // Sign errors here are invisible: every zone is a valid zone, so getting left and
    // right the wrong way round produces a cursor that resizes the opposite edge and
    // reads as the window fighting back.
    let f = Frame::of(PIXELS);
    let m = measures(PIXELS);
    let mid_content = BORDER + m.bar + 0.5;
    let just_inside = |t: f64| t * 0.5;
    assert_eq!(
        f.zone(at(just_inside(BORDER) / m.width), at(mid_content / m.height)),
        Zone::Resize(Edge::Left)
    );
    assert_eq!(
        f.zone(at(1.0 - just_inside(BORDER) / m.width), at(mid_content / m.height)),
        Zone::Resize(Edge::Right)
    );
    // Middle of the bottom strip, horizontally centred so it is a side rather than a corner.
    assert_eq!(
        f.zone(at(0.5), at(1.0 - just_inside(BORDER) / m.height)),
        Zone::Resize(Edge::Bottom)
    );
    // Anything above the content is the bar, frame included.
    assert_eq!(f.zone(at(0.5), at(0.0)), Zone::Title);
    assert_eq!(f.zone(at(0.5), at((BORDER + m.bar * 0.5) / m.height)), Zone::Title);
}

#[test]
fn the_bottom_corners_are_reachable_from_both_directions() {
    // An L-shaped region, as on a 2D desktop: a corner you can only hit by coming along
    // the side is a corner you find by accident.
    let f = Frame::of(PIXELS);
    let m = measures(PIXELS);
    let below = at(1.0 - (BORDER * 0.5) / m.height);
    let beside = (BORDER * 0.5) / m.width;
    assert_eq!(f.zone(at(beside), below), Zone::Resize(Edge::BottomLeft));
    assert_eq!(f.zone(at(1.0 - beside), below), Zone::Resize(Edge::BottomRight));
    // From along the bottom, just inside the content's own width.
    let inside_left = (BORDER + BORDER * 0.5) / m.width;
    assert_eq!(f.zone(at(inside_left), below), Zone::Resize(Edge::BottomLeft));
    // From up the side, above the corner, is the plain side.
    let up_the_side = (BORDER + m.bar + 0.5) / m.height;
    assert_eq!(f.zone(at(beside), at(up_the_side)), Zone::Resize(Edge::Left));
}

#[test]
fn a_corner_is_big_enough_to_aim_at() {
    let p = placement(0.0);
    let content_height = metres(p.width) / (PIXELS.0 as f64 / PIXELS.1 as f64);
    let corner = content_height * BORDER * CORNER_REACH as f64;
    assert!((corner / metres(p.radius)).to_degrees() > 3.0);
}

#[test]
fn a_corner_never_swallows_the_whole_bottom_edge() {
    // On a narrow window the two corner regions could meet in the middle, leaving no
    // bottom edge at all.
    let pixels = (400, 900);
    let m = measures(pixels);
    assert_eq!(
        Frame::of(pixels).zone(at(0.5), at(1.0 - BORDER * 0.5 / m.height)),
        Zone::Resize(Edge::Bottom)
    );
}

#[test]
fn content_coordinates_still_span_the_whole_surface() {
    // The frame shifted where the content sits inside the quad. If `surface_position` and
    // `zone` disagree by even a little, clicks land consistently short of where they were
    // aimed -- which is what happened when the title bar was first added.
    // Both probes sit a hair inside their corner. The corners themselves are the zone
    // boundaries, and which side of one a hit lands on is not a property worth asserting.
    let (u, v) = at_content(PIXELS, 0.001, 0.001);
    let top_left = surface_position(u, v, PIXELS).expect("inside");
    assert!(top_left.0 < 3 * 256 && top_left.1 < 3 * 256, "{top_left:?}");
    let (u, v) = at_content(PIXELS, 0.999, 0.999);
    let bottom_right = surface_position(u, v, PIXELS).expect("inside");
    assert!(
        bottom_right.0 > 1277 * 256 && bottom_right.1 > 798 * 256,
        "{bottom_right:?}"
    );
}

#[test]
fn the_frame_is_not_forwarded_to_the_client() {
    let m = measures(PIXELS);
    assert!(surface_position(at(BORDER * 0.5 / m.width), at(0.5), PIXELS).is_none());
}

#[test]
fn dragging_the_right_edge_out_widens_the_window() {
    let start = placement(0.0);
    let out = resize(Edge::Right, &start, PIXELS, M / 5, 0);
    assert!(out.placement.width > start.width);
    assert!(out.pixels.0 > PIXELS.0, "the client should get more buffer");
    // Constant density: this is a resize, not a zoom. Text keeps its angular size and
    // more of it fits, which is the whole distinction from the two-thumb gesture.
    let before = PIXELS.0 as f64 / metres(start.width);
    let after = out.pixels.0 as f64 / metres(out.placement.width);
    assert!((before - after).abs() / before < 0.01, "{before} vs {after}");
}

#[test]
fn the_opposite_edge_stays_put() {
    // What separates resizing from scaling. Drag the right edge and the left one must not
    // move, or the window creeps across the sky as you size it.
    let start = placement(0.0);
    let out = resize(Edge::Right, &start, PIXELS, M / 5, 0);
    let left = |p: &Placement| metres(p.yaw) + (metres(p.width) * 0.5) / metres(p.radius);
    let (left_before, left_after) = (left(&start), left(&out.placement));
    assert!((left_before - left_after).abs() < 1e-9, "{left_before} vs {left_after}");
}

#[test]
fn dragging_the_left_edge_out_also_widens_it() {
    // Leftwards is -dx, and the sign has to survive two negations: the growth, and the
    // direction the centre then moves.
    let start = placement(0.0);
    let out = resize(Edge::Left, &start, PIXELS, -M / 5, 0);
    assert!(out.placement.width > start.width);
    let right = |p: &Placement| metres(p.yaw) - (metres(p.width) * 0.5) / metres(p.radius);
    let (right_before, right_after) = (right(&start), right(&out.placement));
    assert!((right_before - right_after).abs() < 1e-9);
    assert!(out.placement.yaw > start.yaw, "growing leftwards moves the centre left");
}

#[test]
fn dragging_the_bottom_down_keeps_the_top_where_it_is() {
    let start = placement(0.0);
    let content_height = metres(start.width) / (PIXELS.0 as f64 / PIXELS.1 as f64);
    let out = resize(Edge::Bottom, &start, PIXELS, 0, M * 15 / 100);
    assert!(out.pixels.1 > PIXELS.1);
    assert_eq!(out.placement.width, start.width, "the bottom edge is not a width");
    let new_height = out.pixels.1 as f64 / (out.pixels.0 as f64 / metres(out.placement.width));
    let top_before = metres(start.pitch) + (content_height * 0.5) / metres(start.radius);
    let top_after =
        metres(out.placement.pitch) + (new_height * 0.5) / metres(out.placement.radius);
    assert!((top_before - top_after).abs() < 1e-3, "{top_before} vs {top_after}");
}

#[test]
fn a_corner_drag_changes_both_dimensions() {
    let start = placement(0.0);
    let out = resize(Edge::BottomRight, &start, PIXELS, M / 5, M * 15 / 100);
    assert!(out.pixels.0 > PIXELS.0 && out.pixels.1 > PIXELS.1);
}

#[test]
fn a_window_cannot_be_dragged_down_to_nothing() {
    // The frame is the only thing you can grab to undo it, and it shrinks with the window.
    let start = placement(0.0);
    let out = resize(Edge::Right, &start, PIXELS, -100 * M, 0);
    let (width, radius) = (metres(out.placement.width), metres(out.placement.radius));
    let angle = 2.0 * (width / 2.0 / radius).atan().to_degrees();
    assert!(angle >= 8.0 - 0.01, "shrank to {angle} deg");
    assert!(out.pixels.0 >= 160 && out.pixels.1 >= 120);
    assert_eq!(out.placement.width, start.radius * NARROWEST / M);
}

#[test]
fn a_window_cannot_be_dragged_over_the_whole_sky() {
    let start = placement(0.0);
    let out = resize(Edge::Right, &start, PIXELS, 100 * M, 0);
    let (width, radius) = (metres(out.placement.width), metres(out.placement.radius));
    let angle = 2.0 * (width / 2.0 / radius).atan().to_degrees();
    assert!(angle <= 90.0 + 0.01, "grew to {angle} deg");
    assert_eq!(out.placement.width, start.radius * WIDEST / M);
}

#[test]
fn a_window_held_at_its_limit_stops_moving_too() {
    // The centre follows how much the window *actually* grew, not how far the drag went.
    // Following the drag instead leaves a window pinned at its minimum sliding sideways
    // for as long as you keep pulling.
    let start = placement(0.0);
    let far = resize(Edge::Right, &start, PIXELS, -100 * M, 0);
    let further = resize(Edge::Right, &start, PIXELS, -200 * M, 0);
    assert_eq!(far.placement.yaw, further.placement.yaw);
}

#[test]
fn a_resize_holds_its_distance() {
    // Resizing is not the depth drag. Changing radius here would make the window appear to
    // resize while actually flying towards you.
    let start = placement(0.3);
    for edge in [Edge::Left, Edge::Right, Edge::Bottom, Edge::BottomLeft, Edge::BottomRight] {
        let out = resize(edge, &start, PIXELS, M / 10, M / 10);
        assert_eq!(out.placement.radius, start.radius, "{edge:?}");
    }
}

#[test]
fn the_title_bar_is_a_reachable_target() {
    // One degree is roughly 2% of a window's height at this distance, and the ray is
    // head-anchored. A desktop-proportioned bar would be about one degree tall.
    let p = placement(0.0);
    let content_height = metres(p.width) / (PIXELS.0 as f64 / PIXELS.1 as f64);
    let bar_height = content_height * measures(PIXELS).bar;
    let angular = 2.0 * (bar_height / 2.0 / metres(p.radius)).atan().to_degrees();
    assert!(angular > 2.0, "title bar is only {angular} deg tall");
}

#[test]
fn a_window_quad_keeps_the_surfaces_aspect_ratio() {
    let placement = Placement { width: 1_600_000_000, ..placement(0.0) };
    let quad = window_quad(&placement, (16, 9));
    assert_eq!((quad.width, quad.height), (1_600_000_000, 900_000_000));
}

#[test]
fn a_degenerate_aspect_does_not_produce_an_infinite_quad() {
    // A surface that has committed no buffer yet reports zero size, and dividing by it
    // yields a quad with infinite height that swallows every ray cast at it.
    let placement = placement(0.0);
    let quad = window_quad(&placement, (0, 0));
    assert!(quad.height > 0 && quad.height <= placement.width * 100);
}

fn menu(window: usize, popup: usize, distance: u64) -> PopupHit {
    PopupHit { window, popup, hit: Hit { distance, u: at(0.5), v: at(0.25) } }
}

fn targets() -> Vec<Target> {
    let surface = |surface, pixels| Surface { surface, pixels };
    vec![Target {
        window: surface(1, PIXELS),
        popups: vec![surface(2, (200, 400)), surface(3, (100, 100))],
    }]
}

#[test]
fn the_nearest_menu_is_the_one_pointed_at() {
    let bar = Hit { distance: 2, u: at(0.5), v: at(0.02) };
    let over_bar = aim(Some((0, bar)), &[], &[PIXELS]);
    assert!(over_bar.on_title && !over_bar.on_popup());
    let on_menu = aim(Some((0, bar)), &[menu(0, 0, 9), menu(0, 1, 7), menu(0, 0, 7)], &[PIXELS]);
    assert!(on_menu.on_popup() && !on_menu.on_title);
    assert_eq!(on_menu.popup, Some(menu(0, 1, 7)));
    assert_eq!(on_menu.zone, Some(Zone::Content));
    assert_eq!(aim(None, &[], &[]).zone, None);
}

#[test]
fn a_menu_is_told_where_it_is_pointed_at_in_its_own_pixels() {
    let mut pointer = PointerState::default();
    let content = Hit { distance: 2, u: at(0.5), v: at(0.5) };
    let on_menu = aim(Some((0, content)), &[menu(0, 0, 1)], &[PIXELS]);
    let moved = pointer.motion(&on_menu, &targets());
    assert_eq!(moved.focus, Some(2));
    assert_eq!(moved.location, (100 * 256, 100 * 256));
    assert_eq!(pointer.last_focus, Some(0));
    // A menu that has just gone leaves the window behind it.
    let gone = aim(Some((0, content)), &[menu(0, 5, 1)], &[PIXELS]);
    let moved = pointer.motion(&gone, &targets());
    assert_eq!(moved.focus, Some(1));
    let (x, y) = surface_position(at(0.5), at(0.5), PIXELS).unwrap();
    assert_eq!(moved.location, (i128::from(x), i128::from(y)));
    let nothing = aim(None, &[], &[PIXELS]);
    assert_eq!(pointer.motion(&nothing, &targets()).focus, None);
    assert_eq!(pointer.last_focus, None);
}

#[test]
fn a_release_is_only_sent_for_something_that_was_pressed() {
    let mut pointer = PointerState::default();
    assert!(!pointer.button(BTN_LEFT, false));
    assert!(pointer.button(BTN_LEFT, true));
    assert!(!pointer.button(BTN_LEFT, true));
    assert!(pointer.button(BTN_RIGHT, true));
    assert!(pointer.button(BTN_LEFT, false));
    assert_eq!(pointer.held, vec![BTN_RIGHT]);
    assert!(pointer.button(BTN_MIDDLE, true));
    assert_eq!(pointer.release_all(), vec![BTN_RIGHT, BTN_MIDDLE]);
    assert!(pointer.held.is_empty() && !pointer.is_dragging());
}

#[test]
fn a_scroll_goes_only_the_ways_it_goes() {
    let pointer = PointerState::default();
    assert!(pointer.scroll(0, 0).is_none());
    let down = pointer.scroll(0, 512).unwrap();
    assert_eq!((down.horizontal, down.vertical), (None, Some(512)));
    let both = pointer.scroll(-256, 512).unwrap();
    assert_eq!((both.horizontal, both.vertical), (Some(-256), Some(512)));
}

#[test]
fn menus_are_dismissed_innermost_first() {
    assert_eq!(dismiss_popups(&[(1, true), (2, false), (3, true)]), vec![3, 1]);
    assert!(dismiss_popups(&[]).is_empty());
}

#[test]
fn a_resize_is_measured_against_where_the_window_was_grabbed() {
    let start = placement(0.0);
    let quad = quad_of(PIXELS, &start);
    let drag = Drag::Resize {
        window: 8,
        edge: Edge::Right,
        quad: (quad.width, quad.height),
        from: (at(1.0), at(0.5)),
        start,
        pixels: PIXELS,
    };
    assert_eq!(drag.window(), 8);
    let dx = quad.width / 10;
    let moved = drag.resized(Some((at(1.1), at(0.5)))).unwrap();
    assert_eq!(moved, resize(Edge::Right, &start, PIXELS, dx, 0));
    assert_eq!(drag.resized(None), None);
    let lift = Drag::Move { window: 9, yaw_offset: 0, pitch_offset: 0 };
    assert_eq!(lift.resized(Some((at(1.1), at(0.5)))), None);
    assert_eq!(lift.window(), 9);
}

#[test]
fn a_frame_follows_the_fractions_it_is_laid_out_by() {
    let share = TITLE_BAR_FRACTION as f64 / 100.0;
    let bar = share / (1.0 - share);
    let height = 1.0 + bar + 2.0 * BORDER;
    let f = Frame::of(PIXELS);
    let part = |(over, under): (u64, u64)| over as f64 / under as f64;
    assert!((part(f.bar()) - bar).abs() < 1e-12);
    assert!((part(f.height()) - height).abs() < 1e-12);
    assert!((part(f.width()) - (1.6 + 2.0 * BORDER)).abs() < 1e-12);
    let side = bar * FURNITURE_FRACTION as f64 / 100.0;
    let icon = f.icon();
    assert!((icon.half_v as f64 / icon.over_v as f64 - side * 0.5 / height).abs() < 1e-12);
    assert!((icon.v as f64 / icon.over_v as f64 - (0.5 - 0.5 / height)).abs() < 1e-12);
    let inset = (BORDER + side * 0.5) / part(f.width());
    assert!((icon.u as f64 / icon.over_u as f64 - inset).abs() < 1e-12);
}

#[test]
fn a_drag_of_any_length_keeps_the_far_edge_put() {
    // A ray almost along the window's plane crosses it kilometres away.
    let start = placement(0.0);
    let left = |p: &Placement| metres(p.yaw) + (metres(p.width) * 0.5) / metres(p.radius);
    for dx in [5_000 * M, -5_000 * M, i128::MAX, i128::MIN] {
        let out = resize(Edge::Right, &start, PIXELS, dx, dx);
        assert!((left(&start) - left(&out.placement)).abs() < 1e-9, "{dx}");
        assert_eq!(out.placement.pitch, start.pitch);
        let (widest, narrowest) = (2 * start.radius, start.radius * NARROWEST / M);
        assert_eq!(out.placement.width, if dx > 0 { widest } else { narrowest });
        let out = resize(Edge::BottomLeft, &start, PIXELS, dx, dx);
        assert_eq!(out.placement.width, if dx > 0 { narrowest } else { widest });
    }
    let drag = Drag::Resize {
        window: 8,
        edge: Edge::Right,
        quad: (1_000 * M, M),
        from: (0, 0),
        start,
        pixels: PIXELS,
    };
    let out = drag.resized(Some((i64::MAX, i64::MIN))).unwrap();
    assert_eq!(out.placement.width, 2 * start.radius);
}
