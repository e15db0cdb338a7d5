use spatiand::cache::{Cache, Lookup};
use spatiand::pointer::resize::{Placement, PlaneQuad};
use spatiand::pointer::Edge;
use spatiand::scene::keyboard::{
    draw_hovered, fit_to_fov, keyboard_placement, plate_tint, FaceKey, HOVER_LIFT, KEYBOARD_GAP,
};
use spatiand::scene::launcher::{draw_bubbles, draw_dots, draw_names, Spot, BUBBLE_DIAMETER};
use spatiand::scene::menu::{
    draw_card, Anchor, CardLayout, CardRect, Drawn, MenuTextures, Metrics, Mode, RowTextures,
    APPEAR, DISMISS, STAGGER,
};
use spatiand::scene::pictures::{
    detail_height, initial, menu_budget, menu_rasters, menu_scale, Latches, Level, MenuModel,
    MenuRow, Pictures, Type, LABELS, TITLES,
};
use spatiand::scene::windows::{
    collect_windows, draw_order, draw_window, draw_windows, Candidate, Import, Notes, Paint,
    PopupCandidate, PopupQuad, Remark, TitleTexture, WindowQuad, WindowSound, POPUP_LIFT,
};
use spatiand::scene::{draw_pointer, Cursor, Mark, Pointing};
use spatiand::sidecar::keys::KeyRect;

/// A metre.
const M: i128 = 1_000_000_000;

fn placement(radius: i128) -> Placement {
    Placement { yaw: 0, pitch: 0, radius, width: 1_600_000_000 }
}

fn texture(id: u32) -> TitleTexture {
    TitleTexture { id, aspect: 2_000_000 }
}

/// What a panel at a distance has room for, across a field of so many degrees: the optics are worst
/// at the edge, so not all of it.
fn extent(fov: f64, distance: f64) -> i128 {
    (2.0 * distance * (fov * 0.68 / 2.0).to_radians().tan() * 1e9) as i128
}

fn angular(length: i128) -> f64 {
    2.0 * (length as f64 / 1e9 / 2.0 / 1.6).atan().to_degrees()
}

#[test]
fn a_fitted_panel_stays_inside_both_axes_of_the_field() {
    // The bug this guards: a panel correctly sized for its width but taller than the
    // vertical field, which loses its first and last lines with no other symptom.
    for aspect in [0.4f64, 1.0, 1.73, 4.0] {
        let (w, h) =
            fit_to_fov(extent(40.0, 1.6), extent(23.14, 1.6), (aspect * 1e6).round() as u32);
        assert!(
            angular(w) <= 40.0,
            "aspect {aspect}: {} deg wide",
            angular(w)
        );
        assert!(
            angular(h) <= 23.14,
            "aspect {aspect}: {} deg tall",
            angular(h)
        );
        assert!((w as f64 / h as f64 - aspect).abs() < 1e-4, "aspect not preserved");
    }
}

#[test]
fn a_fitted_panel_leaves_a_margin() {
    // Filling the nominal field exactly is already too much: the optics are worst there.
    let (_, h) = fit_to_fov(extent(40.0, 1.6), extent(23.14, 1.6), 1_000_000);
    assert!(
        angular(h) < 23.14 * 0.8,
        "no margin left: {} deg of 23.14",
        angular(h)
    );
}

#[test]
fn the_pointers_can_be_told_apart() {
    let hues = [Pointing::RightThumb, Pointing::LeftThumb, Pointing::Mouse].map(|p| p.hue());
    assert_eq!(hues, [[100, 78, 42], [52, 82, 100], [62, 100, 72]]);
    assert!(Pointing::RightThumb.has_beam() && !Pointing::Mouse.has_beam());
    assert_eq!(Pointing::RightThumb.lateral(), Some(-13));
    assert_eq!(Pointing::LeftThumb.lateral(), Some(13));
    assert_eq!(Pointing::Mouse.lateral(), None);
    let over = draw_pointer(Some(1_700_000_000), Pointing::LeftThumb, Cursor::Point, 500_000);
    assert_eq!((over.distance, over.mark, over.scale), (1_700_000_000, Mark::ReticleLeft, 10));
    assert_eq!((over.opacity, over.beam), (475, Some(275)));
    let arrow = Cursor::for_edge(Edge::BottomRight);
    assert_eq!(arrow, Cursor::Resize { angle_deg: -45 });
    let away = draw_pointer(None, Pointing::Mouse, arrow, 1_000_000);
    assert_eq!((away.distance, away.mark, away.scale), (2_500_000_000, Mark::ResizeCursor, 15));
    assert_eq!((away.opacity, away.beam), (500, None));
    assert_eq!(Cursor::for_edge(Edge::BottomLeft), Cursor::Resize { angle_deg: 45 });
    assert_eq!(Cursor::for_edge(Edge::Bottom), Cursor::Resize { angle_deg: 90 });
    assert_eq!(Cursor::for_edge(Edge::Left), Cursor::Resize { angle_deg: 0 });
}

#[test]
fn the_keyboard_hangs_under_its_window_within_the_field() {
    let window = placement(2 * M);
    let at = |scale, fit| keyboard_placement(&window, (1600, 900), scale, fit, 2_500_000);
    let plate = at(1_000_000, 1_200_000_000);
    assert_eq!(plate.placement.width, 1_200_000_000, "the field is the limit");
    assert_eq!(plate.height, 480_000_000);
    assert_eq!(plate.placement.radius, window.radius);
    // Half the content and its frame, the gap, and half the keyboard, as an angle.
    let drop = 540_000_000 / 2 + KEYBOARD_GAP + 240_000_000 / 2;
    assert_eq!(plate.placement.pitch, -drop);
    let small = at(100_000, 1_200_000_000);
    assert_eq!(small.placement.width, 660_000_000, "and never under its share of it");
    assert_eq!(at(500_000, 1_200_000_000).placement.width, 800_000_000);
    let (hot, cold) = (plate_tint(true), plate_tint(false));
    assert!(hot.opacity > cold.opacity);
    assert!(HOVER_LIFT > 0);
}

#[test]
fn only_a_hovered_key_with_a_picture_is_raised() {
    let key = |code, u, cap| FaceKey {
        code,
        rect: KeyRect { u, v: 250_000, half_u: 50_000, half_v: 100_000 },
        cap,
    };
    let keys = [key(1, 100_000, Some(11)), key(2, 900_000, Some(12)), key(3, 500_000, None)];
    let raised = draw_hovered(&keys, &[2, 3], (M, M / 2), 1_200_000);
    assert_eq!(raised.len(), 1);
    assert_eq!(raised[0].cap, 12);
    assert_eq!(
        raised[0].quad,
        PlaneQuad { right: 400_000_000, up: 125_000_000, width: 120_000_000, height: 120_000_000 }
    );
}

#[test]
fn a_menu_arrives_once_and_leaves_in_its_own_time() {
    let mut anchor = Anchor::new(0);
    anchor.anchor_menu(Mode::Hud, 5, 1_000);
    anchor.anchor_menu(Mode::Hud, 9, 2_000);
    assert_eq!((anchor.yaw, anchor.anchored_at), (5, 1_000), "already pinned");
    assert_eq!(anchor.appear_progress(0, 1_000), 0);
    assert_eq!(anchor.appear_progress(0, 1_000 + APPEAR / 2), 500_000);
    assert_eq!(anchor.appear_progress(0, 1_000 + APPEAR), 1_000_000);
    assert_eq!(anchor.appear_progress(1, 1_000 + STAGGER), 0, "the second comes a little later");
    assert_eq!(anchor.draw_menu(Mode::Hud, false, 1_000), Some(Drawn::Card));
    assert_eq!(anchor.draw_menu(Mode::Launcher, false, 1_000), Some(Drawn::Bubbles));
    assert_eq!(anchor.draw_menu(Mode::Launcher, true, 1_000), Some(Drawn::Card));
    anchor.forget_anchor(5_000);
    assert!(anchor.is_dismissing(5_000 + DISMISS - 1));
    assert_eq!(anchor.dismissing_mode(5_000), Some(Mode::Hud));
    assert_eq!(anchor.draw_menu(Mode::World, false, 5_000), Some(Drawn::Card));
    assert_eq!(anchor.appear_progress(7, 5_000 + DISMISS / 2), 500_000, "leaving is not staggered");
    assert!(!anchor.is_dismissing(5_000 + DISMISS));
    assert_eq!(anchor.draw_menu(Mode::World, false, 5_000 + DISMISS), None);
}

fn metrics() -> Metrics {
    Metrics {
        width: 600_000,
        rim: 2_000,
        card_radius: 30_000,
        row_radius: 14_000,
        row_inset: 8_000,
        title_em: 34_000,
        row_em: 28_000,
        footer_em: 20_000,
    }
}

fn rect(y: i64, h: i64) -> CardRect {
    CardRect { x: 20_000, y, w: 560_000, h }
}

#[test]
fn a_card_marks_the_row_the_cursor_is_on() {
    let layout = CardLayout {
        height: 400_000,
        title: rect(20_000, 50_000),
        footer: None,
        rows: vec![rect(80_000, 60_000), rect(140_000, 60_000)],
        first: 1,
        scroll_track: None,
        scroll_thumb: None,
        separator: None,
        detail: None,
    };
    let row = |id| RowTextures { label: texture(id), trailing: None };
    let menu = MenuTextures {
        title: texture(1),
        rows: vec![row(10), row(11), row(12), row(13)],
        detail: None,
        footer: None,
    };
    let on = draw_card(&layout, &menu, 2, metrics(), 1_000_000);
    let off = draw_card(&layout, &menu, 0, metrics(), 1_000_000);
    assert!(on.len() > off.len(), "the selected row has a plate of its own");
    let drawn: Vec<u32> = on.iter().filter_map(|p| p.texture).collect();
    assert_eq!(drawn, vec![1, 11, 12], "only the rows that show");
    assert!(draw_card(&layout, &menu, 2, metrics(), 1_000).is_empty(), "not begun to appear");
    let half = draw_card(&layout, &menu, 2, metrics(), 500_000);
    assert_eq!(half.len(), on.len());
    assert!(half.iter().zip(&on).all(|(h, o)| h.tint.opacity == o.tint.opacity / 2));
}

#[test]
fn bubbles_grow_into_their_places() {
    let mut anchor = Anchor::new(0);
    anchor.anchor_menu(Mode::Launcher, 1_000, 0);
    let spots = [
        Spot { index: 0, yaw: 10, pitch: 20, radius: 30, scale: 1_000_000 },
        Spot { index: 5, yaw: 11, pitch: 21, radius: 31, scale: 1_200_000 },
    ];
    let glyphs = [texture(7)];
    assert!(draw_bubbles(&anchor, &spots, &glyphs, 0).is_empty());
    let done = draw_bubbles(&anchor, &spots, &glyphs, 10 * APPEAR);
    assert_eq!(done.len(), 2);
    assert_eq!((done[0].size, done[0].icon, done[0].focused), (BUBBLE_DIAMETER, Some(7), false));
    assert_eq!((done[1].icon, done[1].focused), (None, true));
    assert_eq!(done[1].size, BUBBLE_DIAMETER * 12 / 10);
    let names = draw_names(&anchor, &spots, &glyphs, 10 * APPEAR);
    assert_eq!(names.len(), 1);
    assert_eq!(names[0].texture, 7);
    assert!(names[0].drop > 0);
}

#[test]
fn one_page_needs_no_dots() {
    assert!(draw_dots(1, 0).is_empty());
    let dots = draw_dots(3, 1);
    assert_eq!(dots.iter().map(|d| d.down).collect::<Vec<_>>(), vec![-3_200, 0, 3_200]);
    assert!(dots[1].size > dots[0].size && dots[1].opacity > dots[0].opacity);
}

#[test]
fn an_application_with_no_icon_is_its_first_letter() {
    assert_eq!(initial("doom"), "D");
    assert_eq!(initial("élan"), "É");
    assert_eq!(initial("ß-test"), "SS");
    assert_eq!(initial(""), "?");
}

#[test]
fn pictures_are_made_again_only_when_what_they_show_changes() {
    let mut pictures = Pictures::new();
    assert!(pictures.sync_apps(Level::Groups, 5));
    pictures.apps_made(Level::Groups, 5);
    assert!(!pictures.sync_apps(Level::Groups, 5));
    assert!(pictures.sync_apps(Level::Apps, 5), "a group of the same size is another list");
    let latches = Latches { shift: false, ctrl: false, alt: false, click: true };
    assert!(pictures.sync_keyboard(latches));
    assert!(!pictures.sync_keyboard(latches));
    assert!(pictures.sync_keyboard(Latches { click: false, ..latches }));
    assert!(pictures.sync_status("12:34"));
    assert!(!pictures.sync_status("12:34"));
    assert!(pictures.sync_status("12:35"));
    pictures.status_failed();
    assert!(pictures.sync_status("12:35"), "a bar that failed is made again");
    assert!(pictures.sync_menu(false, 1_000_000));
    pictures.menu_made(1_000_000);
    assert!(!pictures.sync_menu(false, 1_020_000));
    assert!(pictures.sync_menu(false, 1_030_000));
    assert!(pictures.sync_menu(true, 1_000_000));
    pictures.menu_failed();
    assert!(pictures.sync_menu(false, 1_000_000));
    assert!(pictures.sync_key_cap("a"));
    pictures.key_cap_made("a", texture(3));
    assert!(!pictures.sync_key_cap("a"));
    assert_eq!(pictures.window_icon(""), Some(None));
    assert_eq!(pictures.window_icon("doom"), None);
    pictures.icon_found("doom", None);
    assert_eq!(pictures.window_icon("doom"), Some(None), "looked for once");
}

#[test]
fn the_same_word_at_two_sizes_is_two_pictures() {
    let mut pictures = Pictures::new();
    assert_eq!(pictures.label(20, "Volume"), Lookup::Make(vec![]));
    pictures.label_made(20, "Volume", texture(1));
    assert_eq!(pictures.label(20, "Volume"), Lookup::Have(texture(1)));
    assert_eq!(pictures.label(21, "Volume"), Lookup::Make(vec![]));
    assert_eq!(pictures.title_texture(""), Lookup::Nothing);
    assert_eq!(pictures.title_texture("Doom"), Lookup::Make(vec![]));
    pictures.title_made("Doom", texture(2));
    assert_eq!(pictures.title_texture("Doom"), Lookup::Have(texture(2)));
    assert!(TITLES > 0 && LABELS > 0);
}

#[test]
fn a_full_cache_is_let_go_of_whole() {
    let mut cache: Cache<u32> = Cache::new();
    for n in 0..4 {
        assert_eq!(cache.look(&format!("{n}"), 3), Lookup::Make(vec![]));
        cache.insert(&format!("{n}"), n);
    }
    assert_eq!(cache.look("2", 3), Lookup::Have(2));
    assert_eq!(cache.look("new", 3), Lookup::Make(vec![0, 1, 2, 3]));
    assert_eq!(cache.len(), 0);
    assert_eq!(cache.get("2"), None);
}

#[test]
fn a_menu_is_rasterised_at_what_the_eye_gets() {
    // 40 degrees at 48 pixels each, a card of 600 panel pixels over 62 hundredths of it.
    assert_eq!(menu_scale(40_000, 48_000, 600_000), 1_984_000);
    assert_eq!(menu_scale(1, 1, 600_000), 50_000);
    assert_eq!(menu_budget(40_000, 23_140, 600_000), 380_690);
    assert_eq!(detail_height(100, 2_000_000), 50_000);
    let model = MenuModel {
        title: "Hosts".to_string(),
        rows: vec![
            MenuRow { label: "Desk".to_string(), trailing: Some("online".to_string()) },
            MenuRow { label: "Den".to_string(), trailing: None },
        ],
        detail: String::new(),
        footer: "B to go back".to_string(),
    };
    let t = Type {
        width: 600_000,
        text_width: 500_000,
        title_em: 34_000,
        row_em: 28_000,
        detail_em: 22_000,
        footer_em: 20_000,
    };
    let rasters = menu_rasters(&model, t, 2_000_000);
    let texts: Vec<&str> = rasters.iter().map(|r| r.text.as_str()).collect();
    assert_eq!(texts, ["Hosts", "Desk", "online", "Den", "B to go back"]);
    assert_eq!((rasters[0].size, rasters[0].width, rasters[0].wraps), (68_000, 4_000, false));
}

fn window(window: u32, radius: i128) -> WindowQuad {
    WindowQuad {
        window,
        surface: window + 100,
        texture: window + 200,
        pixels: (1600, 900),
        placement: placement(radius),
        focused: false,
        title: None,
        icon: None,
        close_hot: false,
        sound: None,
        mute_hot: false,
        popups: Vec::new(),
    }
}

#[test]
fn the_furthest_window_is_drawn_first() {
    let windows = [window(1, 2 * M), window(2, 3 * M), window(3, 2 * M), window(4, M)];
    assert_eq!(draw_order(&windows), vec![1, 0, 2, 3]);
    let pieces = draw_windows(&windows);
    let mut order: Vec<u32> = pieces.iter().map(|p| p.window).collect();
    order.dedup();
    assert_eq!(order, vec![2, 1, 3, 4]);
}

#[test]
fn a_window_is_drawn_with_everything_it_has() {
    let mut w = window(1, 2 * M);
    let plain = draw_window(&w);
    assert_eq!(plain[0].paint, Paint::Glass);
    assert!(plain.iter().any(|p| p.paint == Paint::Texture(201)));
    assert!(plain.iter().any(|p| p.paint == Paint::CloseGlyph));
    assert!(!plain.iter().any(|p| p.paint == Paint::SpeakerGlyph));
    w.title = Some(texture(40));
    w.icon = Some(texture(41));
    w.sound = Some(WindowSound {
        muted: false,
        peak: 500_000,
        button: PlaneQuad { right: 0, up: 0, width: 10, height: 10 },
    });
    w.popups = vec![
        PopupQuad { surface: 5, texture: 50, offset: (0, 0), pixels: (160, 90) },
        PopupQuad { surface: 6, texture: 51, offset: (10, 10), pixels: (160, 90) },
    ];
    let full = draw_window(&w);
    for paint in [
        Paint::Texture(40),
        Paint::Texture(41),
        Paint::SpeakerGlyph,
        Paint::Texture(50),
        Paint::Texture(51),
    ] {
        assert!(full.iter().any(|p| p.paint == paint), "{paint:?} is missing");
    }
    let lift = |paint| full.iter().find(|p| p.paint == paint).unwrap().lift;
    assert_eq!(lift(Paint::Texture(50)), POPUP_LIFT);
    assert_eq!(lift(Paint::Texture(51)), 2 * POPUP_LIFT, "a submenu stands nearer");
    w.sound = w.sound.map(|s| WindowSound { muted: true, ..s });
    assert!(draw_window(&w).iter().any(|p| p.paint == Paint::SpeakerOffGlyph));
}

fn candidate(window: u32, import: Import) -> Candidate {
    Candidate {
        window,
        surface: Some(window + 100),
        import,
        placement: Some(placement(2 * M)),
        focused: window == 1,
        popups: vec![
            PopupCandidate { surface: 7, offset: (3, 4), import: Import::Ready(70, 20, 30) },
            PopupCandidate { surface: 8, offset: (0, 0), import: Import::Nothing },
        ],
    }
}

#[test]
fn what_can_be_drawn_is_collected_and_what_cannot_is_mentioned_once() {
    let mut notes = Notes::new();
    let list = [
        candidate(1, Import::Ready(201, 640, 480)),
        candidate(2, Import::Failed),
        candidate(3, Import::Nothing),
        Candidate { placement: None, ..candidate(4, Import::Ready(204, 10, 10)) },
        Candidate { surface: None, ..candidate(5, Import::Nothing) },
    ];
    let (quads, remarks) = collect_windows(&list, &mut notes);
    assert_eq!(quads.len(), 1);
    assert_eq!((quads[0].window, quads[0].pixels, quads[0].focused), (1, (640, 480), true));
    assert_eq!(quads[0].popups.len(), 1);
    assert_eq!((quads[0].popups[0].texture, quads[0].popups[0].offset), (70, (3, 4)));
    assert!(remarks.contains(&(1, Remark::Measures(640, 480))));
    assert!(remarks.contains(&(2, Remark::NotImported)));
    assert!(remarks.contains(&(3, Remark::NothingYet)));
    assert!(remarks.contains(&(4, Remark::Nowhere)));
    let (_, again) = collect_windows(&list, &mut notes);
    assert!(again.is_empty(), "{again:?}");
    let grown = [candidate(1, Import::Ready(201, 641, 480))];
    let (_, changed) = collect_windows(&grown, &mut notes);
    assert_eq!(changed, vec![(1, Remark::Measures(641, 480))]);
    assert!(!notes.note_import_failure(102));
    assert!(notes.note_surface_size(101, (1, 1)));
}

#[test]
fn a_row_narrower_than_its_insets_is_still_drawn() {
    let narrow = CardRect { x: 0, y: 0, w: 10_000, h: 60_000 };
    let layout = CardLayout {
        height: 100_000,
        title: rect(0, 50_000),
        footer: None,
        rows: vec![narrow, narrow],
        first: 0,
        scroll_track: None,
        scroll_thumb: None,
        separator: None,
        detail: None,
    };
    let menu = MenuTextures {
        title: texture(1),
        rows: vec![
            RowTextures { label: texture(2), trailing: None },
            RowTextures { label: texture(3), trailing: Some(texture(4)) },
        ],
        detail: None,
        footer: None,
    };
    let drawn = draw_card(&layout, &menu, 9, metrics(), 1_000_000);
    let of = |id: u32| drawn.iter().find(|p| p.texture == Some(id)).unwrap().rect;
    // Ten wide less two insets of eight is six less than nothing, twice as wide as tall.
    assert_eq!(of(2), CardRect { x: 8_000, y: 31_500, w: -6_000, h: -3_000 });
    assert_eq!(of(4), CardRect { x: 8_000, y: 31_500, w: -6_000, h: -3_000 });
    // Beside a status, a label has never less than the inset.
    assert_eq!(of(3), CardRect { x: 8_000, y: 28_000, w: 8_000, h: 4_000 });
}

#[test]
fn a_window_is_drawn_wherever_it_stands() {
    for radius in [0, -1, i128::MAX] {
        let mut there = window(2, radius);
        there.placement = Placement { yaw: i128::MIN, pitch: i128::MAX, ..there.placement };
        let both = [window(1, 2_000_000_000), there];
        let order = draw_order(&both);
        assert_eq!(order, if radius > 2_000_000_000 { vec![1, 0] } else { vec![0, 1] });
        assert!(draw_windows(&both).len() > draw_windows(&both[..1]).len());
    }
}
