use spatiand::devices::{directions, Audio, AudioDevice, Direction};
use spatiand::sidecar::keys::KeyRect;
use spatiand::sidecar::panel::{Action, Aspect, Contact, Line, Sidecar, TouchEvent, Under};
use spatiand::sidecar::picture::{Align, Caption, Colour, Keyboard, Keycap};
use spatiand::sidecar::shapes::HANDLE;
use spatiand::sidecar::{
    knobs, Knob, Levels, Page, Rect, Rows, Size, HOLD_TO_EXIT, MARGIN, MINIMUM_BRIGHTNESS, PIXEL,
};
use spatiand::system::{Monitors, Readings, SAMPLE_EVERY};

/// A moment to begin at.
const START: u64 = 50_000_000_000;

const NOTHING: Under = Under { toggle: false, key: None };

fn sidecar(panel: (u32, u32)) -> Sidecar {
    Sidecar::new(1, panel)
}

fn no_audio() -> Audio {
    Audio { outputs: Vec::new(), inputs: Vec::new() }
}

fn contact(slot: usize, (x, y): (i32, i32)) -> Contact {
    Contact { slot, x, y }
}

/// A touch aimed at a point of the layout, expressed the way the digitiser would report it — so
/// these tests go through the same quarter turn the real panel does.
fn touch_at(s: &Sidecar, lx: i64, ly: i64) -> (i32, i32) {
    let (w, h) = (s.size.w as i64 * PIXEL, s.size.h as i64 * PIXEL);
    let share = |n: i64, of: i64| (n as f64 / of as f64 * 1e6).round() as i32;
    if s.portrait {
        (1_000_000 - share(ly, h), share(lx, w))
    } else {
        (share(lx, w), share(ly, h))
    }
}

fn down(slot: usize, at: (i32, i32)) -> TouchEvent {
    TouchEvent::Down(contact(slot, at), NOTHING)
}

fn up(slot: usize) -> TouchEvent {
    TouchEvent::Up { slot }
}

fn motion(slot: usize, at: (i32, i32)) -> TouchEvent {
    TouchEvent::Motion(contact(slot, at))
}

/// Touch, where when it happens does not matter.
fn touch(s: &mut Sidecar, events: &[TouchEvent], audio: &Audio) -> Vec<Action> {
    s.touch(events, all(), audio, START)
}

/// Every reading present, which is the ordinary case in a session with glasses on.
fn all() -> Levels {
    Levels { screen: Some(500_000), glasses: Some(500_000), volume: Some(500_000) }
}

#[test]
fn tapping_exit_does_not_end_the_session() {
    // The whole reason this is a hold. The panel lies face-up on a table for the length of
    // a session while the wearer cannot see it, so a tap is something that happens to it,
    // not something someone meant.
    let mut s = sidecar((800, 1280));
    let (cx, cy) = s.exit_button().centre();
    let at = touch_at(&s, cx, cy);
    assert!(touch(&mut s, &[down(0, at)], &no_audio()).is_empty());
    assert_eq!(s.settle(START), None, "a hold that has just begun has not finished");
    touch(&mut s, &[up(0)], &no_audio());
    assert_eq!(s.settle(START), None, "lifting abandons the hold");
    assert_eq!(s.exit_progress(START), 0);
}

#[test]
fn sliding_off_exit_abandons_the_hold() {
    // The way out of a hold begun by accident, and the one every press-and-hold control on
    // a phone already has. Without it the only escape from a brushed button is to be quick.
    let mut s = sidecar((800, 1280));
    let exit = s.exit_button();
    let (cx, cy) = exit.centre();
    let at = touch_at(&s, cx, cy);
    touch(&mut s, &[down(0, at)], &no_audio());
    assert!(s.exit_hold.is_some());

    let far = touch_at(&s, exit.x + exit.w * 2, cy);
    touch(&mut s, &[motion(0, far)], &no_audio());
    assert!(s.exit_hold.is_none(), "moving off the button should cancel");
    assert_eq!(s.settle(START + HOLD_TO_EXIT), None);
}

#[test]
fn a_completed_hold_asks_to_leave_exactly_once() {
    let mut s = sidecar((800, 1280));
    let (cx, cy) = s.exit_button().centre();
    let at = touch_at(&s, cx, cy);
    touch(&mut s, &[down(0, at)], &no_audio());
    let later = START + HOLD_TO_EXIT;
    assert_eq!(s.exit_progress(later), 1_000_000);
    assert_eq!(s.exit_progress(START + HOLD_TO_EXIT / 2), 500_000);
    assert_eq!(s.settle(later), Some(Action::LeaveSession));
    assert_eq!(s.settle(later), None, "leaving twice would run the teardown twice");
}

#[test]
fn the_exit_and_page_buttons_are_at_opposite_ends_and_do_not_touch() {
    // They are the only two controls in the header; one is harmless and the other throws
    // the session away. A thumb aiming at either must not be able to reach the other.
    for panel in [(800u32, 1280u32), (1280, 800), (1920, 1080)] {
        let s = sidecar(panel);
        let exit = s.exit_button();
        let page = s.page_button();
        let header = s.rows(all()).header;
        assert_eq!(exit.x, header.x, "exit sits at the left edge of the header");
        assert_eq!(page.x + page.w, header.x + header.w, "the page button sits at the right");
        assert!(
            exit.x + exit.w < page.x,
            "{panel:?}: the header buttons overlap"
        );
    }
}

#[test]
fn the_clock_starts_clear_of_the_exit_button() {
    // The clock used to start at the header's left margin, which is now where the button
    // is. Text drawn under a button is unreadable and the button takes the touch.
    let s = sidecar((800, 1280));
    let exit = s.exit_button();
    assert!(s.clock_x() >= exit.x + exit.w, "the clock would overlap the exit button");
}

#[test]
fn the_header_buttons_are_still_big_enough_for_a_finger() {
    // Swapping words for symbols is not a licence to shrink the target. A fingertip is
    // about 9 mm, which on this panel is a little over 40 px.
    let s = sidecar((800, 1280));
    for r in [s.exit_button(), s.page_button()] {
        assert!(r.w >= 60 * PIXEL && r.h >= 60 * PIXEL, "{r:?} is too small to hit");
    }
}

#[test]
fn every_header_symbol_is_one_character_and_not_a_word() {
    // The point of the change. A regression here means a caption crept back in, which at
    // this size would have to be set too small to glance at.
    for page in [Page::Dashboard, Page::Keyboard] {
        let (label, size) = page.button_label();
        assert_eq!(label.chars().count(), 1, "{label:?} should be a single symbol");
        assert!(!label.is_ascii(), "{label:?} should be a symbol, not a letter");
        assert!(size > 0, "{label:?} has no size");
    }
}

#[test]
fn the_page_button_swaps_pages_and_swaps_back() {
    // A control that only exists on one of two pages is a way to get stranded on the other.
    let mut s = sidecar((800, 1280));
    let (cx, cy) = s.page_button().centre();
    assert_eq!(s.page(), Page::Dashboard);

    let at = touch_at(&s, cx, cy);
    touch(&mut s, &[down(0, at)], &no_audio());
    assert_eq!(s.page(), Page::Keyboard);

    // The button does not move between pages, so the same place takes you back.
    touch(&mut s, &[up(0), down(1, at)], &no_audio());
    assert_eq!(s.page(), Page::Dashboard);
}

const ASPECT: Aspect = Aspect { wide: 30, tall: 11 };

/// A keyboard of four rows of ten below a strip that holds the toggle.
fn layout() -> Vec<(u32, KeyRect)> {
    let mut keys = Vec::new();
    for row in 0..4u32 {
        for column in 0..10u32 {
            keys.push((
                1 + row * 10 + column,
                KeyRect {
                    u: 50_000 + column * 100_000,
                    v: 300_000 + row * 200_000,
                    half_u: 50_000,
                    half_v: 100_000,
                },
            ));
        }
    }
    keys
}

const TOGGLE: KeyRect = KeyRect { u: 900_000, v: 100_000, half_u: 40_000, half_v: 60_000 };

fn inside(r: &KeyRect, u: u32, v: u32) -> bool {
    u.abs_diff(r.u) <= r.half_u && v.abs_diff(r.v) <= r.half_v
}

/// What the keyboard has at a point of the layout.
fn under(s: &Sidecar, x: i64, y: i64) -> Under {
    match s.face_at(x, y, ASPECT) {
        Some((u, v)) => Under {
            toggle: inside(&TOGGLE, u, v),
            key: layout().into_iter().find(|(_, r)| inside(r, u, v)).map(|(code, _)| code),
        },
        None => NOTHING,
    }
}

fn key_at(s: &Sidecar, x: i64, y: i64) -> Option<u32> {
    under(s, x, y).key
}

/// The middle of a cell, on the panel.
fn middle(area: &Rect, r: &KeyRect) -> (i64, i64) {
    (
        area.x + area.w * r.u as i64 / 1_000_000,
        area.y + area.h * r.v as i64 / 1_000_000,
    )
}

#[test]
fn touching_a_key_asks_for_that_key() {
    let mut s = sidecar((800, 1280));
    s.page = Page::Keyboard;
    let area = s.keyboard_area(ASPECT);
    // The second row, second cell in.
    let (key, rect) = layout()[11];
    let (lx, ly) = middle(&area, &rect);
    let at = touch_at(&s, lx, ly);
    let event = TouchEvent::Down(contact(0, at), under(&s, lx, ly));
    let actions = touch(&mut s, &[event], &no_audio());
    assert_eq!(actions, vec![Action::PressKey(key)]);
}

#[test]
fn the_keys_land_where_they_are_drawn() {
    // The panel draws each cap from `cap_rect` and decides what was pressed from `face_at`.
    // If those disagree every key is subtly the wrong one, which reads as a broken keymap
    // rather than as a layout that is a few pixels out.
    let s = sidecar((800, 1280));
    let area = s.keyboard_area(ASPECT);
    for (key, rect) in layout() {
        let (x, y) = s.cap_rect(area, rect).centre();
        let hit = key_at(&s, x, y).expect("the middle of a cap must be a key");
        assert_eq!(hit, key, "cap for {key:?} hits {hit:?}");
    }
}

#[test]
fn the_sound_toggle_is_reachable_and_does_not_type() {
    // The control has to be on the panel's keyboard as well as on the one in the world:
    // the panel is where most typing actually happens, and a setting you can only change
    // by putting the headset on is not a setting you change while it is annoying you.
    let mut s = sidecar((800, 1280));
    s.page = Page::Keyboard;
    let area = s.keyboard_area(ASPECT);
    let (cx, cy) = middle(&area, &TOGGLE);
    assert!(under(&s, cx, cy).toggle);
    assert!(key_at(&s, cx, cy).is_none(), "the toggle is being read as a key");

    let at = touch_at(&s, cx, cy);
    let event = TouchEvent::Down(contact(0, at), under(&s, cx, cy));
    let actions = touch(&mut s, &[event], &no_audio());
    assert!(
        actions.iter().any(|a| matches!(a, Action::ToggleKeyClick)),
        "tapping the speaker did nothing: {actions:?}"
    );
    assert!(
        !actions.iter().any(|a| matches!(a, Action::PressKey(_))),
        "tapping the speaker also typed something: {actions:?}"
    );
}

#[test]
fn a_touch_off_the_keyboard_types_nothing() {
    // The area is letterboxed inside the panel, and the margin around it must not be a
    // strip that types whatever key is nearest.
    let s = sidecar((800, 1280));
    let area = s.keyboard_area(ASPECT);
    assert!(key_at(&s, area.x - 8 * PIXEL, area.y + area.h / 2).is_none());
    assert!(key_at(&s, area.x + area.w / 2, area.y - 8 * PIXEL).is_none());
}

#[test]
fn the_keyboard_keeps_its_shape_on_the_panel() {
    let s = sidecar((800, 1280));
    let area = s.keyboard_area(ASPECT);
    let aspect = area.w as f64 / area.h as f64;
    assert!((aspect - 30.0 / 11.0).abs() < 1e-3, "drew at {aspect}");
    // And fits inside the panel with its margins.
    assert!(area.x >= MARGIN && area.y >= MARGIN);
    assert!(area.x + area.w <= s.size.w as i64 * PIXEL - MARGIN);
    assert!(area.y + area.h <= s.size.h as i64 * PIXEL - MARGIN);
}

#[test]
fn the_dashboard_still_answers_a_slider_when_the_keyboard_is_shut() {
    // The page split must not have taken the first panel with it.
    let mut s = sidecar((800, 1280));
    let card = s.rows(all()).slider(Knob::Volume).expect("volume has a reading");
    let (cx, cy) = card.centre();
    let at = touch_at(&s, cx, cy);
    let actions = touch(&mut s, &[down(0, at)], &no_audio());
    assert_eq!(actions, vec![Action::Moved(Knob::Volume)]);
}

#[test]
fn a_portrait_panel_is_laid_out_landscape() {
    // The Deck reports 800x1280 with its top edge along the long side. Laying out in the
    // reported dimensions would produce a tall narrow column of text down a wide screen.
    let s = sidecar((800, 1280));
    assert!(s.portrait);
    assert_eq!(s.size, Size { w: 1280, h: 800 });
}

#[test]
fn a_landscape_panel_is_left_alone() {
    let s = sidecar((1920, 1080));
    assert!(!s.portrait);
    assert_eq!(s.size, Size { w: 1920, h: 1080 });
}

fn clip(line: Line, x: i64, y: i64) -> f64 {
    (line.per_x * x + line.per_y * y + line.constant) as f64 / line.over as f64
}

#[test]
fn the_top_left_of_the_layout_maps_to_the_top_left_of_the_screen() {
    // Y is flipped in the projection so the layout can read top-down. Getting that
    // backwards puts the header at the bottom, which looks like a layout choice.
    let s = sidecar((1920, 1080));
    let p = s.projection();
    let (x, y) = (clip(p.x, 0, 0), clip(p.y, 0, 0));
    assert!(x < -0.99, "x = {x}");
    assert!(y > 0.99, "y = {y} (should be the TOP)");
}

/// Where the digitiser reports a given panel pixel, as normalised `(u, v)`.
///
/// The one measured fact about this hardware, written down once. Everything else about
/// touch is arithmetic derived from it and from [`Sidecar::projection`].
fn digitiser_reports(panel: (u32, u32), px: f64, py: f64) -> (i32, i32) {
    let (pw, ph) = (panel.0 as f64, panel.1 as f64);
    (
        (px / pw * 1e6).round() as i32,
        ((1.0 - py / ph) * 1e6).round() as i32,
    )
}

/// Push a layout point through the real projection and the viewport, to a panel pixel.
fn draws_at(s: &Sidecar, panel: (u32, u32), lx: i64, ly: i64) -> (f64, f64) {
    let p = s.projection();
    let (x, y) = (clip(p.x, lx, ly), clip(p.y, lx, ly));
    let (pw, ph) = (panel.0 as f64, panel.1 as f64);
    ((x + 1.0) * 0.5 * pw, (1.0 - y) * 0.5 * ph)
}

#[test]
fn a_touch_lands_on_what_was_drawn_there() {
    // Drawing and touching were each checked on their own, against the panel, by
    // eye -- and two compensating errors pass that check every time. This closes the loop
    // instead: take a point, draw it, ask the digitiser where that pixel is, and require
    // touch_to_layout to hand back the point we started with.
    let panel = (800u32, 1280u32);
    let s = sidecar(panel);
    let (w, h) = (s.size.w as i64 * PIXEL, s.size.h as i64 * PIXEL);
    for (lx, ly) in [
        (0, 0),
        (w, 0),
        (0, h),
        (w, h),
        (w / 2, h / 2),
        (MARGIN, MARGIN),
        (w / 4, h * 3 / 4),
    ] {
        let (px, py) = draws_at(&s, panel, lx, ly);
        let (u, v) = digitiser_reports(panel, px, py);
        let (bx, by) = s.touch_to_layout(u, v);
        assert!(
            (bx - lx).abs() <= 3 && (by - ly).abs() <= 3,
            "drew ({lx}, {ly}) at panel ({px}, {py}), which reads back as ({bx}, {by})"
        );
    }
}

#[test]
fn the_layout_stacks_downward_on_the_panel() {
    // Stated in the terms the wearer reported it in: the status line is the first row and
    // the sliders are the last, and on the panel the first row was coming out *underneath*
    // the last one, with each graph growing down from its ceiling instead of up from its
    // floor.
    let panel = (800u32, 1280u32);
    let s = sidecar(panel);
    let (w, h) = (s.size.w as i64 * PIXEL, s.size.h as i64 * PIXEL);
    let top = draws_at(&s, panel, w / 2, MARGIN);
    let bottom = draws_at(&s, panel, w / 2, h - MARGIN);
    assert!(
        top.0 > bottom.0,
        "the first row must draw above the last: top at {top:?}, bottom at {bottom:?}"
    );
}

#[test]
fn a_graph_column_grows_up_from_its_floor() {
    // The symptom the wearer photographed: memory at 8% drew tall bars and the GPU at 99%
    // drew a hairline, because every column hung from the ceiling of its row.
    let panel = (800u32, 1280u32);
    let s = sidecar(panel);
    let row = s.rows(all()).graphs[0];
    let floor = draws_at(&s, panel, row.x, row.y + row.h);
    let small = draws_at(&s, panel, row.x, row.y + row.h - row.h / 10);
    let large = draws_at(&s, panel, row.x, row.y + row.h - row.h * 9 / 10);
    let rise = |p: (f64, f64)| (p.0 - floor.0).abs();
    assert!(
        rise(large) > rise(small),
        "a bigger reading must reach further from the floor: 10% at {small:?}, 90% at {large:?}"
    );
}

/// Every card but the header.
fn cards(rows: &Rows) -> Vec<Rect> {
    rows.graphs
        .into_iter()
        .chain(rows.sliders.into_iter().flatten())
        .chain(rows.devices)
        .collect()
}

#[test]
fn nothing_but_the_header_runs_the_full_width() {
    // Every graph and every slider used to span the whole content width, which is what made it
    // read as a readout: six full-width bands stacked down the screen with nowhere for the eye
    // to rest.
    let s = sidecar((800, 1280));
    let rows = s.rows(all());
    let full = s.size.w as i64 * PIXEL - MARGIN * 2;
    for card in cards(&rows) {
        assert!(
            card.w * 10 < full * 4,
            "a card is {} wide of a possible {full}",
            card.w
        );
    }
    assert_eq!(rows.header.w, full, "the header is the one thing that should span");
}

#[test]
fn the_two_columns_line_up() {
    // Graphs on the left, controls on the right, sharing three rows. A grid that agrees
    // with itself across the gutter is most of the difference between this and the
    // version that looked assembled out of whatever fitted.
    let s = sidecar((800, 1280));
    let rows = s.rows(all());
    for (graph, slider) in rows.graphs.into_iter().zip(rows.sliders.into_iter().flatten()) {
        assert_eq!(graph.y, slider.y, "rows should share a baseline");
        assert_eq!(graph.h, slider.h);
        assert!(graph.x + graph.w < slider.x, "the columns should not touch");
    }
}

#[test]
fn a_slider_at_zero_still_shows_something_to_grab() {
    // A filled bar of width zero is invisible, and the control then looks broken at
    // exactly the moment someone wants to turn it back up.
    let s = sidecar((800, 1280));
    let levels = Levels { volume: Some(0), ..all() };
    let card = s.rows(levels).slider(Knob::Volume).expect("volume card");
    let track = Rows::track(card);
    assert!(track.h > 0 && track.w > track.h, "a track should be a capsule, not a dot");
    let shapes = s.draw(&monitors(), levels, &no_audio(), &keyboard(), START);
    assert!(shapes.iter().any(|shape| shape.rect.w == HANDLE
        && shape.rect.y >= card.y
        && shape.rect.y + shape.rect.h <= card.y + card.h));
}

fn some_audio() -> Audio {
    let device = |id: u32, name: &str, is_default: bool| AudioDevice {
        id,
        name: name.into(),
        is_default,
    };
    Audio {
        outputs: vec![
            device(62, "Deck Headphones", false),
            device(66, "Deck Speaker", false),
            device(81, "Glasses", true),
        ],
        inputs: vec![
            device(50, "Glasses Microphone", true),
            device(72, "Deck Microphone", false),
        ],
    }
}

#[test]
fn tapping_a_device_chooses_it() {
    let mut s = sidecar((800, 1280));
    let audio = some_audio();
    let rows = s.rows(all());
    let card = rows.device_card(Direction::Output);
    // The second entry: Deck Speaker, id 66.
    let row = Rows::device_rows(card, audio.outputs.len())[1];
    let event = press(&s, 0, row.x + row.w / 2, row.y + row.h / 2);
    assert_eq!(
        touch(&mut s, &[event], &audio),
        vec![Action::ChooseDevice(Direction::Output, 66)]
    );
}

#[test]
fn the_two_device_lists_do_not_take_each_others_taps() {
    // Output and Input sit in one column, one above the other, and their ids overlap with
    // nothing to distinguish them but position. A row bleeding into the card below would
    // silently change the microphone when the wearer asked for a speaker.
    let s = sidecar((800, 1280));
    let audio = some_audio();
    let rows = s.rows(all());
    for direction in directions() {
        let card = rows.device_card(direction);
        for row in Rows::device_rows(card, audio.list(direction).len()) {
            assert!(
                row.y >= card.y && row.y + row.h <= card.y + card.h,
                "a {direction:?} row escapes its card"
            );
            let found = rows.device_at(row.x + 5 * PIXEL, row.y + row.h / 2, &audio);
            assert_eq!(found.map(|(d, _)| d), Some(direction));
        }
    }
}

#[test]
fn a_device_list_never_draws_past_its_card() {
    // A machine with a dock, a headset and two Bluetooth speakers can offer more than
    // there is room for. Overflow has to be dropped rather than drawn over the card
    // below, which would also steal its touches.
    let s = sidecar((800, 1280));
    let card = s.rows(all()).device_card(Direction::Output);
    let capacity = Rows::device_capacity(card);
    assert!(capacity >= 3, "only room for {capacity} devices");
    assert_eq!(Rows::device_rows(card, 99).len(), capacity);
    for row in Rows::device_rows(card, 99) {
        assert!(row.y + row.h <= card.y + card.h);
    }
}

#[test]
fn a_slider_and_a_device_are_never_both_under_one_finger() {
    // The two live in adjacent columns and are hit-tested by different methods, so an
    // overlap would fire both and set a volume while switching a speaker.
    let s = sidecar((800, 1280));
    let audio = some_audio();
    let rows = s.rows(all());
    for direction in directions() {
        let card = rows.device_card(direction);
        for row in Rows::device_rows(card, audio.list(direction).len()) {
            let point = (row.x + row.w / 2, row.y + row.h / 2);
            assert!(
                rows.knob_at(point.0, point.1).is_none(),
                "a device row at {point:?} also reads as a slider"
            );
        }
    }
}

#[test]
fn an_empty_list_is_not_a_panic() {
    // No sound server, or a poll that happened before wireplumber was up.
    let s = sidecar((800, 1280));
    let rows = s.rows(all());
    let empty = no_audio();
    assert!(rows.device_at(400 * PIXEL, 400 * PIXEL, &empty).is_none());
    assert_eq!(Rows::device_rows(rows.device_card(Direction::Input), 0).len(), 0);
}

#[test]
fn a_landscape_panel_needs_no_turn() {
    let s = sidecar((1920, 1080));
    assert_eq!(s.touch_to_layout(0, 0), (0, 0));
    assert_eq!(s.touch_to_layout(1_000_000, 1_000_000), (1920 * PIXEL, 1080 * PIXEL));
}

#[test]
fn every_row_fits_on_the_panel() {
    // The bars grew from 30 px to 56 px to be touchable. There is no scrolling here, so a
    // row past the bottom edge is simply invisible.
    let s = sidecar((800, 1280));
    let rows = s.rows(all());
    let (w, h) = (s.size.w as i64 * PIXEL, s.size.h as i64 * PIXEL);
    for card in cards(&rows) {
        assert!(
            card.y + card.h <= h - MARGIN,
            "a card runs to {} of {h}",
            card.y + card.h
        );
        assert!(card.x + card.w <= w - MARGIN, "a card runs off the side");
    }
}

#[test]
fn rows_do_not_overlap() {
    // knob_at walks them in order and returns the first hit, so an overlap would make one
    // control permanently unreachable.
    let s = sidecar((800, 1280));
    let cards = cards(&s.rows(all()));
    for (i, a) in cards.iter().enumerate() {
        for b in &cards[i + 1..] {
            let apart = a.x + a.w <= b.x
                || b.x + b.w <= a.x
                || a.y + a.h <= b.y
                || b.y + b.h <= a.y;
            assert!(apart, "{a:?} overlaps {b:?}");
        }
    }
}

#[test]
fn a_touch_target_is_a_fingers_width() {
    // ~8.5 landscape pixels to the millimetre on this panel; a fingertip is 8-10 mm. The
    // 30 px bar was 3.5 mm, which is a stylus target, not a thumb one.
    //
    // The drawn capsule is smaller than that now, and deliberately: the whole card takes
    // the touch, so the thing being aimed at and the thing being read no longer have to be
    // the same size. Measure the card, which is what a finger actually has to find.
    let s = sidecar((800, 1280));
    let millimetre = 800.0 / 94.1;
    for card in s.rows(all()).sliders.into_iter().flatten() {
        let mm = card.h as f64 / PIXEL as f64 / millimetre;
        assert!(mm >= 8.0, "{} is only {mm} mm tall", card.h);
    }
}

#[test]
fn an_absent_reading_leaves_out_the_row_it_would_control() {
    // A machine with no backlight, or a session with no glasses, should not offer a
    // slider that moves nothing.
    let s = sidecar((800, 1280));
    let no_glasses = s.rows(Levels { glasses: None, ..all() });
    assert!(no_glasses.slider(Knob::Glasses).is_none());
    // The two that remain close up rather than leaving a hole where the third was. The
    // glasses are drawn first, so with them gone everything below shifts up one slot.
    let full = s.rows(all());
    assert_eq!(
        no_glasses.slider(Knob::Screen),
        full.slider(Knob::Glasses),
        "the deck slider should take the empty top slot"
    );
    assert_eq!(
        no_glasses.slider(Knob::Volume),
        full.slider(Knob::Screen),
        "and volume should follow it up"
    );

    let none = s.rows(Levels { screen: None, glasses: None, volume: None });
    assert!(knobs().into_iter().all(|k| none.slider(k).is_none()));
    // Graphs do not depend on any of this, so they must be untouched.
    assert_eq!(none.graphs, full.graphs);
    // A point in the middle of the column the sliders would have occupied.
    let where_sliders_were = full.slider(Knob::Screen).expect("a screen slider");
    let (x, y) = where_sliders_were.centre();
    assert!(none.knob_at(x, y).is_none());
}

/// A press at a landscape point, as the decoder would report it.
fn press(s: &Sidecar, slot: usize, lx: i64, ly: i64) -> TouchEvent {
    TouchEvent::Down(contact_at(s, slot, lx, ly), NOTHING)
}

fn drag(s: &Sidecar, slot: usize, lx: i64, ly: i64) -> TouchEvent {
    TouchEvent::Motion(contact_at(s, slot, lx, ly))
}

fn contact_at(s: &Sidecar, slot: usize, lx: i64, ly: i64) -> Contact {
    // Go the long way round -- draw the point through the real projection, then ask the
    // digitiser where that pixel is -- rather than inverting `touch_to_layout` by hand.
    // A hand-written inverse here would have to be updated in step with the real one, and
    // a test that is kept in step with the code it checks stops checking anything.
    let panel = if s.portrait {
        (s.size.h, s.size.w)
    } else {
        (s.size.w, s.size.h)
    };
    let (px, py) = draws_at(s, panel, lx, ly);
    contact(slot, digitiser_reports(panel, px, py))
}

fn near(value: u32, wanted: u32) -> bool {
    value.abs_diff(wanted) < 20_000
}

#[test]
fn touching_a_bar_sets_it_to_where_the_finger_is() {
    let mut s = sidecar((800, 1280));
    let card = s.rows(all()).slider(Knob::Volume).expect("volume card");
    // A quarter of the way along the *track*, not the card. The card is what the finger
    // has to hit; the track is what the value is measured across, and they are not the
    // same rectangle.
    let track = Rows::track(card);
    let event = press(&s, 0, track.x + track.w / 4, card.y + card.h / 2);
    assert_eq!(touch(&mut s, &[event], &no_audio()), vec![Action::Moved(Knob::Volume)]);
    let value = s.knob_value(Knob::Volume, all()).expect("a value");
    assert!(near(value, 250_000), "got {value}");
}

#[test]
fn a_drag_that_leaves_the_bar_still_controls_it() {
    // Every slider anywhere behaves this way, and on a 9 mm target a thumb drifts off it
    // constantly. Re-testing the position each frame would drop the drag mid-gesture.
    let mut s = sidecar((800, 1280));
    let card = s.rows(all()).slider(Knob::Volume).expect("volume card");
    let track = Rows::track(card);
    let down = press(&s, 0, track.x + 10 * PIXEL, card.y + card.h / 2);
    touch(&mut s, &[down], &no_audio());
    // Well clear of the card, and three quarters of the way across the track.
    let away = drag(&s, 0, track.x + track.w * 3 / 4, card.y - 120 * PIXEL);
    assert_eq!(touch(&mut s, &[away], &no_audio()), vec![Action::Moved(Knob::Volume)]);
    let value = s.knob_value(Knob::Volume, all()).expect("still held");
    assert!(near(value, 750_000), "got {value}");
}

#[test]
fn lifting_releases_the_knob() {
    let mut s = sidecar((800, 1280));
    let volume = s.rows(all()).slider(Knob::Volume).expect("volume card");
    let event = press(&s, 0, volume.x + 40 * PIXEL, volume.y + 20 * PIXEL);
    touch(&mut s, &[event], &no_audio());
    touch(&mut s, &[up(0)], &no_audio());
    assert!(s.knob_value(Knob::Volume, all()).is_none());
    assert!(s.touches.is_empty(), "the dot should go with the finger");
}

#[test]
fn a_second_finger_cannot_steal_a_knob_mid_drag() {
    // A palm or a second thumb landing on the same bar would otherwise take the slider
    // and jump the value to wherever it touched.
    let mut s = sidecar((800, 1280));
    let volume = s.rows(all()).slider(Knob::Volume).expect("volume card");
    let event = press(&s, 0, volume.x + 10 * PIXEL, volume.y + 20 * PIXEL);
    touch(&mut s, &[event], &no_audio());
    let intruder = press(&s, 1, volume.x + volume.w - 10 * PIXEL, volume.y + 20 * PIXEL);
    touch(&mut s, &[intruder], &no_audio());
    let value = s.knob_value(Knob::Volume, all()).expect("still ours");
    assert!(value < 100_000, "the first finger should still own it, got {value}");
}

#[test]
fn touching_a_graph_changes_nothing() {
    let mut s = sidecar((800, 1280));
    let graph = s.rows(all()).graphs[1];
    let event = press(&s, 0, graph.x + graph.w / 2, graph.y + graph.h / 2);
    assert!(touch(&mut s, &[event], &no_audio()).is_empty());
    assert_eq!(s.touches.len(), 1, "but it should still show a dot");
}

#[test]
fn brightness_cannot_be_dragged_to_black() {
    // At zero the panel goes dark, and the slider you need in order to undo it is drawn
    // on that panel.
    let mut s = sidecar((800, 1280));
    let bar = s.rows(all()).slider(Knob::Screen).expect("screen card");
    let event = press(&s, 0, bar.x - 200 * PIXEL, bar.y + 20 * PIXEL);
    touch(&mut s, &[event], &no_audio());
    // Pressing left of the bar still grabs nothing; press on it, then drag off the left.
    let event = press(&s, 1, bar.x + 40 * PIXEL, bar.y + 20 * PIXEL);
    touch(&mut s, &[event], &no_audio());
    let event = drag(&s, 1, bar.x - 500 * PIXEL, bar.y + 20 * PIXEL);
    touch(&mut s, &[event], &no_audio());
    let value = s.knob_value(Knob::Screen, all()).expect("held");
    assert!(value >= MINIMUM_BRIGHTNESS, "got {value}");
}

#[test]
fn a_portrait_projection_actually_rotates() {
    let portrait = sidecar((800, 1280)).projection();
    let landscape = sidecar((1280, 800)).projection();
    assert_ne!(portrait, landscape, "the quarter turn was not applied");
}

fn keyboard() -> Keyboard {
    let keys = layout()
        .into_iter()
        .map(|(code, rect)| Keycap {
            rect,
            code,
            name: format!("k{code}"),
            label: format!("K{code}"),
            modifier: false,
            latched: false,
        })
        .collect();
    Keyboard {
        aspect: ASPECT,
        keys,
        toggle: TOGGLE,
        click: true,
        speaker: "s".to_string(),
    }
}

fn monitors() -> Monitors {
    let read = Readings { net: None, disk: None, cpu: None, gpu: None, memory: Some(250_000) };
    let mut monitors = Monitors::new(read, 0);
    monitors.tick(SAMPLE_EVERY, read);
    monitors
}

fn said<'a>(captions: &'a [Caption], text: &str) -> &'a Caption {
    captions
        .iter()
        .find(|c| c.text == text)
        .unwrap_or_else(|| panic!("nothing says {text:?}"))
}

#[test]
fn the_dashboard_says_its_readings() {
    let s = sidecar((800, 1280));
    let levels = Levels { volume: Some(424_999), ..all() };
    let captions = s.prepare(&monitors(), "12:34", levels, &some_audio(), &keyboard());
    assert_eq!(said(&captions, "12:34").x, s.clock_x());
    assert_eq!(said(&captions, "42%").colour, Colour::Ink);
    said(&captions, "25%");
    said(&captions, "Volume");
    said(&captions, "Glass Brightness");
    said(&captions, "Deck Brightness");
    said(&captions, "Glasses Microphone");
    assert!(!captions.iter().any(|c| c.text == "K1"));
}

#[test]
fn the_keyboard_page_says_its_keys() {
    let mut s = sidecar((800, 1280));
    s.show(Page::Keyboard);
    let captions = s.prepare(&monitors(), "12:34", all(), &some_audio(), &keyboard());
    let key = said(&captions, "K1");
    assert!(matches!(key.align, Align::Within(_)));
    assert!(!captions.iter().any(|c| c.text == "Volume"));
}

#[test]
fn a_caption_is_placed_by_the_edge_it_is_set_from() {
    let caption = |align| Caption {
        text: "x".to_string(),
        x: 10_000,
        y: 500,
        height: 3_000,
        align,
        colour: Colour::Dim,
    };
    assert_eq!(caption(Align::Left).placed(2_000_000), Rect { x: 10_000, y: 500, w: 6_000, h: 3_000 });
    assert_eq!(caption(Align::Right).placed(2_000_000).x, 4_000);
    assert_eq!(caption(Align::Within(10_000)).placed(2_000_000).x, 12_000);
}

#[test]
fn a_held_exit_fills_with_red() {
    let mut s = sidecar((800, 1280));
    let red = |s: &Sidecar, now| {
        s.draw(&monitors(), all(), &no_audio(), &keyboard(), now)
            .iter()
            .any(|shape| shape.colour == Colour::Danger)
    };
    assert!(!red(&s, START));
    s.pose_exit_hold(500_000, START);
    assert_eq!(s.exit_progress(START), 500_000);
    assert!(red(&s, START));
}

#[test]
fn a_panel_narrower_than_its_margins_still_draws_its_keys() {
    for panel in [(79, 400), (10, 10), (1, 1), (0, 0), (400, 10)] {
        let mut s = sidecar(panel);
        s.show(Page::Keyboard);
        let keys = keyboard();
        let area = s.keyboard_area(ASPECT);
        let captions = s.prepare(&monitors(), "12:34", all(), &some_audio(), &keys);
        said(&captions, "K1");
        let shapes = s.draw(&monitors(), all(), &no_audio(), &keys, START);
        assert!(shapes.len() > keys.keys.len());
        for key in &keys.keys {
            let cap = s.cap_rect(area, key.rect);
            assert!(cap.w >= PIXEL && cap.h >= PIXEL, "{panel:?} gave {cap:?}");
        }
    }
}
