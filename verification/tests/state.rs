use spatiand::state::{
    answer, can_be_placed, client_compositor_state, close_window, commit, display_title,
    ensure_initial_configure, keyboard_target, new_constraint, open_windows, request_size,
    screen_size_for, slot, surface_size, title_of, app_id_of, window_count, x11_menu_host, Account,
    Close, Comings, Configure, Focus, KeyboardFocus, Names, Open, PopupState, Request, Screen,
    Settle, Sizing, Typed, DEFAULT_WINDOW_SIZE,
};

#[test]
fn with_nothing_open_the_screen_is_a_windows_size() {
    assert_eq!(screen_size_for(&[]), DEFAULT_WINDOW_SIZE);
}

#[test]
fn a_small_window_does_not_shrink_the_screen() {
    // The default is a floor, not a starting point: a game handed a 320x240 desktop
    // because somebody opened a small X11 window is worse than one handed a normal one.
    assert_eq!(
        screen_size_for(&[(320, 240)]),
        DEFAULT_WINDOW_SIZE
    );
}

#[test]
fn a_window_bigger_than_the_screen_grows_it_past_itself() {
    // Past, not to: the pointer has to reach the far corner, and a screen exactly as wide
    // as the window leaves the last pixel column on the boundary.
    let (w, h) = screen_size_for(&[(1804, 1174)]);
    assert!(w >= 1804 && h >= 1174, "{w}x{h} does not hold the window");
}

#[test]
fn a_drag_of_a_few_pixels_does_not_change_the_screen() {
    // What the rounding is for: a resize drag changes the window on nearly every frame,
    // and every screen change is sent to every client on the machine.
    let first = screen_size_for(&[(1500, 900)]);
    for width in 1501..1530 {
        assert_eq!(screen_size_for(&[(width, 900)]), first);
    }
}

#[test]
fn the_widest_and_the_tallest_window_are_both_held() {
    let (w, h) = screen_size_for(&[(2000, 600), (900, 1500)]);
    assert!(w >= 2000 && h >= 1500, "{w}x{h} loses one of them");
}

fn x11(title: &str, class: &str) -> Names {
    Names::X11 { title: title.to_string(), class: class.to_string() }
}

fn wayland(title: Option<&str>, app_id: Option<&str>) -> Names {
    Names::Wayland {
        title: title.map(|s| s.to_string()),
        app_id: app_id.map(|s| s.to_string()),
    }
}

#[test]
fn the_screen_changes_only_when_it_has_to() {
    let mut screen = Screen::new();
    assert_eq!(screen.set_screen_refresh(60_000), None);
    let mode = screen.set_screen_refresh(72_000).expect("a new rate is sent");
    assert_eq!((mode.size, mode.refresh), (DEFAULT_WINDOW_SIZE, 72_000));
    assert_eq!(screen.fit_screen_to_windows(&[(320, 240)]), None);
    let mode = screen.fit_screen_to_windows(&[(1_804, 1_174)]).expect("it grew");
    assert_eq!((mode.size, mode.refresh), ((2_048, 1_280), 72_000));
    assert_eq!(screen.fit_screen_to_windows(&[(1_800, 1_100)]), None);
    let mode = screen.fit_screen_to_windows(&[]).expect("it shrank back");
    assert_eq!(mode.size, DEFAULT_WINDOW_SIZE);
}

#[test]
fn a_window_is_called_by_the_best_name_it_has() {
    assert_eq!(display_title(&x11("Doom", "doom")), "Doom");
    assert_eq!(display_title(&x11("  ", "doom")), "doom");
    assert_eq!(display_title(&x11("", " ")), "Untitled");
    assert_eq!(display_title(&wayland(Some(" "), Some("org.foot"))), "org.foot");
    assert_eq!(display_title(&wayland(None, None)), "Untitled");
    assert_eq!(display_title(&Names::Neither), "Untitled");
    // An application whose own id says nothing does not name its window either.
    assert_eq!(display_title(&wayland(None, Some(""))), "Untitled");
    assert_eq!(display_title(&wayland(Some(" "), Some("\t"))), "Untitled");
    assert_eq!(app_id_of(&wayland(None, Some(""))), Some(String::new()));
    assert_eq!(title_of(&wayland(Some(" "), None)).as_deref(), Some(" "));
    assert_eq!(title_of(&x11("", "")), None);
    assert_eq!(app_id_of(&x11("Doom", "doom")).as_deref(), Some("doom"));
    assert_eq!(app_id_of(&wayland(Some("x"), None)), None);
}

#[test]
fn the_keyboard_goes_where_it_is_wanted_and_then_stays() {
    let game = Typed::X11 { window: 4, has_surface: true };
    let terminal = Typed::Toplevel(9);
    assert_eq!(keyboard_target(Typed::X11 { window: 4, has_surface: false }), None);
    let mut focus = Focus::new();
    assert_eq!(focus.settle_keyboard_focus(None), Settle::Leave);
    assert_eq!(focus.settle_keyboard_focus(Some(terminal)), Settle::Focus);
    let plan = focus.focus_window(terminal, true, true, None);
    assert_eq!((plan.raise, plan.deactivate, plan.activate), (None, None, None));
    assert_eq!(plan.keyboard, Some(KeyboardFocus::Wayland(9)));
    assert_eq!(focus.settle_keyboard_focus(Some(terminal)), Settle::Leave);

    let held = Some(KeyboardFocus::X11(7));
    let plan = focus.focus_window(game, true, true, held);
    assert_eq!((plan.raise, plan.deactivate, plan.activate), (Some(4), Some(7), Some(4)));
    let plan = focus.focus_window(game, false, true, Some(KeyboardFocus::X11(4)));
    assert_eq!((plan.raise, plan.deactivate, plan.activate), (None, None, Some(4)));
    assert_eq!(focus.settle_keyboard_focus(None), Settle::Clear);
    assert_eq!(focus.settled, None);
}

#[test]
fn a_size_already_given_is_not_asked_for_again() {
    assert!(!request_size(Sizing::X11 { size: (640, 480) }, (640, 480)));
    assert!(request_size(Sizing::X11 { size: (640, 480) }, (640, 481)));
    assert!(request_size(Sizing::Toplevel { size: None }, (640, 480)));
    assert!(!request_size(Sizing::Toplevel { size: Some((640, 480)) }, (640, 480)));
    assert!(!request_size(Sizing::Neither, (640, 480)));
}

#[test]
fn being_made_full_screen_changes_no_size() {
    assert_eq!(surface_size(Some((640, 480))), (640, 480));
    assert_eq!(surface_size(Some((0, 480))), DEFAULT_WINDOW_SIZE);
    let granted = answer(Request::Fullscreen, Some((640, 480)));
    assert_eq!((granted.fullscreen, granted.maximized), (Some(true), None));
    assert_eq!(granted.size, (640, 480));
    let back = answer(Request::Unmaximize, None);
    assert_eq!((back.fullscreen, back.maximized), (None, Some(false)));
    assert_eq!(back.size, DEFAULT_WINDOW_SIZE);
    assert_eq!(answer(Request::Maximize, None).maximized, Some(true));
    assert_eq!(answer(Request::Unfullscreen, None).fullscreen, Some(false));
}

fn open(environment: bool, id: Option<usize>, names: Names, focused: bool, x11: Option<u32>) -> Open {
    Open { environment, id, names, focused, x11 }
}

#[test]
fn the_switcher_lists_what_the_wearer_would_say_is_open() {
    let windows = [
        open(true, Some(1), wayland(Some("Beach"), None), false, None),
        open(false, Some(2), x11("", "steam"), false, Some(40)),
        open(false, None, wayland(Some("arriving"), None), false, None),
        open(false, Some(3), x11("Doom", "doom"), true, Some(41)),
    ];
    let rows = open_windows(&windows);
    assert_eq!(rows.len(), 2);
    assert_eq!((rows[0].id, rows[0].title.as_str(), rows[0].current), (2, "steam", false));
    assert_eq!((rows[1].id, rows[1].title.as_str(), rows[1].current), (3, "Doom", true));
    assert_eq!(window_count(&windows), 3);
    assert_eq!(x11_menu_host(&windows), Some(3), "the one in use hosts a menu");
    assert_eq!(x11_menu_host(&windows[..3]), Some(1), "failing that, the first");
    assert_eq!(x11_menu_host(&windows[..1]), None);
}

#[test]
fn comings_and_goings_are_kept_until_someone_looks() {
    let mut comings = Comings::new();
    comings.new_toplevel(Some(1), Some(100));
    comings.new_toplevel(None, Some(101));
    comings.adopt_x11_window(40, Some(200));
    assert_eq!(comings.pid_of(40), Some(200));
    assert_eq!(comings.pid_of(41), None);
    comings.place_x11_window(40, Some(2));
    assert_eq!(comings.take_arrived(), vec![(1, Some(100)), (2, Some(200))]);
    assert!(comings.take_arrived().is_empty());
    assert!(comings.adopt_x11_popup(70));
    assert!(!comings.adopt_x11_popup(70));
    assert!(comings.adopt_x11_popup(71));
    comings.forget_x11_window(70, None);
    assert_eq!(comings.x11_popups, vec![71]);
    comings.forget_x11_window(40, Some(2));
    comings.departs(Some(1));
    assert_eq!(comings.take_departed(), vec![2, 1]);
    assert!(comings.take_departed().is_empty());
}

#[test]
fn a_client_is_configured_once_and_only_when_it_can_be_told() {
    let popup = |sent| Some(PopupState { xdg: true, sent });
    assert_eq!(ensure_initial_configure(popup(Some(false)), None), Configure::Popup);
    assert_eq!(ensure_initial_configure(popup(Some(true)), None), Configure::Nothing);
    assert_eq!(ensure_initial_configure(popup(None), None), Configure::Nothing);
    assert_eq!(ensure_initial_configure(None, Some(Some(false))), Configure::Toplevel);
    assert_eq!(ensure_initial_configure(None, Some(Some(true))), Configure::Nothing);
    assert_eq!(ensure_initial_configure(None, Some(None)), Configure::Nothing);
    assert_eq!(ensure_initial_configure(None, None), Configure::Nothing);
}

#[test]
fn the_smaller_decisions() {
    assert_eq!(client_compositor_state(true, true), Account::Ours);
    assert_eq!(client_compositor_state(false, true), Account::XWayland);
    assert_eq!(client_compositor_state(false, false), Account::Unaccounted);
    assert!(new_constraint(Some(5), 5));
    assert!(!new_constraint(Some(6), 5));
    assert!(!new_constraint(None, 5));
    assert!(can_be_placed(false, false, true));
    assert!(!can_be_placed(false, false, false));
    assert!(!can_be_placed(true, true, true));
    assert_eq!(close_window(true, true), Close::X11);
    assert_eq!(close_window(false, true), Close::Toplevel);
    assert_eq!(close_window(false, false), Close::Nothing);
    assert_eq!(slot(3), (96, 96));
}

#[test]
fn a_commit_moves_on_the_window_it_belongs_to() {
    let surfaces = [None, Some(7), Some(9), Some(7)];
    let first = commit(false, 7, &surfaces, Some(1));
    assert_eq!((first.window, first.drew), (Some(1), true));
    let other = commit(false, 9, &surfaces, Some(1));
    assert_eq!((other.window, other.drew), (Some(2), false));
    // A surface that is no window's, and a subsurface that waits for its parent.
    assert_eq!(commit(false, 8, &surfaces, None).window, None);
    let waiting = commit(true, 7, &surfaces, Some(1));
    assert_eq!((waiting.window, waiting.drew), (None, false));
}
