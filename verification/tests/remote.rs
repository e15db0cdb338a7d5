use spatiand::remote::client::{modifier, modifier_halves, Client, Input};
use spatiand::remote::hosts::{
    forget_entry, HostStatus, HostView, Link, Pad, RemoteApp, RemoteHost, Remotes, Say, Shown,
    CLIPBOARD_CAP,
};
use spatiand::remote::link::{
    closed_reason, refused_reason, Closed, Ended, Next, Reconnect, FIRST_PAUSE, LAST_PAUSE,
};
use spatiand::remote::microphone::{carry_on, Change, Microphone, Sending, Waited};
use spatiand::remote::pairing::{Paired, PairingView, State};
use spatiand::remote::session::{
    config_for, frame, opening, reports, say, unreachable_app, window_title, Arrival,
    ClientMessage, Command, Config, Effect, HostMessage, Session, RENDER_NODE, RESIZE_EVERY,
    WORK_EVERY,
};
use spatiand::remote::sound::{
    bytes_for, playable, playback_arguments, Carry, Playback, Queue, Sinks, FOLLOW_EVERY, HEARD,
    IDLE, KEEP_BYTES, MAX_QUEUED_BYTES, TELL_EVERY,
};
use spatiand::remote::stream::{Frame, Stream, Turn, ASK_EVERY, BACKLOG};
use spatiand::remote::{
    app_id, app_id_prefix, file_safe, icon_dir, icon_for, owns, versioned_icon,
};

fn text(s: &str) -> String {
    s.to_string()
}

fn picture(number: u32, keyframe: bool) -> Frame {
    Frame { number, keyframe, captured: number as u64, bytes: vec![number as u8] }
}

/// Decode everything that waits; returns the numbers, in order.
fn decoded(stream: &mut Stream) -> Vec<u32> {
    let mut numbers = Vec::new();
    while let Some(frame) = stream.next() {
        numbers.push(frame.number);
    }
    numbers
}

#[test]
fn nothing_is_decoded_before_a_keyframe() {
    let mut stream = Stream::new();
    assert!(!stream.arrive(picture(4, false), 0));
    assert!(decoded(&mut stream).is_empty());
    assert!(stream.ask(0));
    assert!(!stream.ask(ASK_EVERY - 1), "asked a moment ago");
    assert!(stream.ask(ASK_EVERY), "and still waiting");
    assert!(!stream.arrive(picture(5, true), 1));
    assert!(!stream.arrive(picture(6, false), 2));
    assert!(!stream.ask(10 * ASK_EVERY), "nothing is missing now");
    assert_eq!(decoded(&mut stream), vec![5, 6]);
    assert_eq!(stream.skipped, 1);
}

#[test]
fn a_hole_in_the_numbering_stops_decoding_until_a_keyframe() {
    let mut stream = Stream::new();
    stream.arrive(picture(u32::MAX, true), 0);
    stream.arrive(picture(0, false), 0);
    assert!(stream.arrive(picture(2, false), 0), "one went missing whole");
    assert_eq!(stream.gaps, 1);
    assert!(decoded(&mut stream).is_empty());
    assert!(!stream.arrive(picture(3, false), 0));
    stream.arrive(picture(9, true), 0);
    assert_eq!(decoded(&mut stream), vec![9]);
}

#[test]
fn too_far_behind_is_started_again() {
    let mut stream = Stream::new();
    stream.arrive(picture(0, true), 0);
    for n in 1..BACKLOG as u32 {
        assert!(!stream.arrive(picture(n, false), 0));
    }
    assert!(stream.arrive(picture(BACKLOG as u32, false), 0));
    assert!(decoded(&mut stream).is_empty());
    assert_eq!(stream.skipped, BACKLOG as u64 + 1);
}

#[test]
fn only_the_newest_picture_is_shown_and_the_last_one_is_kept() {
    let mut stream = Stream::new();
    stream.arrive(picture(0, true), 0);
    assert!(matches!(stream.turn(0), Turn::Decode(f) if f.number == 0));
    assert_eq!(stream.picture(70), None);
    assert_eq!(stream.picture(71), Some(70), "overtaken");
    assert_eq!(stream.dropped, 1);
    assert!(matches!(stream.turn(2), Turn::Rest), "no room: kept");
    assert!(matches!(stream.turn(1), Turn::Show(71)));
    stream.showed();
    assert!(matches!(stream.turn(0), Turn::Rest));
    assert!(!stream.waiting());
}

#[test]
fn a_host_is_tried_again_less_and_less_often_and_said_once() {
    let mut reconnect = Reconnect::new();
    let mut pauses = Vec::new();
    for n in 0..7 {
        match reconnect.ended(Ended::Lost(text("does not answer"))) {
            Next::Retry { link, say, pause } => {
                assert_eq!(link, Link::Offline(text("does not answer")));
                assert_eq!(say, n == 0);
                pauses.push(pause);
            }
            other => panic!("{other:?}"),
        }
    }
    assert_eq!(pauses, vec![1_000, 2_000, 4_000, 8_000, 16_000, 20_000, 20_000]);
    assert_eq!((FIRST_PAUSE, LAST_PAUSE), (1_000, 20_000));
    reconnect.connected();
    match reconnect.ended(Ended::Refused(text("not paired"))) {
        Next::Retry { link, say, .. } => {
            assert_eq!(link, Link::Refused(text("not paired")));
            assert!(say);
        }
        other => panic!("{other:?}"),
    }
    assert!(matches!(reconnect.ended(Ended::Stopped), Next::Stop(None)));
    let gone = reconnect.ended(Ended::NoCompositor(text("gone")));
    assert!(matches!(gone, Next::Stop(Some(why)) if why == "gone"));
}

#[test]
fn a_closed_link_says_which_way_it_closed() {
    assert_eq!(
        closed_reason(&Closed::TimedOut, 30_000),
        "the link went quiet for 30 s and was given up on"
    );
    assert_eq!(
        closed_reason(&Closed::Because(text("bye")), 30_000),
        "the host closed the link: bye"
    );
    assert_eq!(closed_reason(&Closed::Quietly, 1), "the host closed the control stream");
    assert_eq!(
        refused_reason("no"),
        "the host would not talk to this headset (no); pair it again"
    );
}

fn config(microphone: bool) -> Config {
    let entry = RemoteHost {
        host: text("desk:7000"),
        fingerprint: text("ab"),
        launch: vec![text("doom")],
    };
    config_for(&entry, microphone, "/id", None)
}

#[test]
fn a_host_is_reached_the_way_it_was_paired() {
    let config = config(true);
    assert_eq!(config.render_node, RENDER_NODE);
    assert_eq!((config.host.as_str(), config.identity_dir.as_str()), ("desk:7000", "/id"));
    let said = opening(&config, 3);
    assert_eq!(said.len(), 2);
    assert!(matches!(&said[0], ClientMessage::Hello { version: 3, session, .. }
        if session == "spatiand"));
    assert!(matches!(&said[1], ClientMessage::Launch { app } if app == "doom"));
}

#[test]
fn a_message_is_sent_with_its_length_in_front() {
    assert_eq!(frame(&[7, 8, 9]), vec![3, 0, 0, 0, 7, 8, 9]);
    let long = frame(&vec![1; 300]);
    assert_eq!(&long[..4], &[44, 1, 0, 0]);
    assert_eq!(long.len(), 304);
}

#[test]
fn what_is_asked_for_is_said() {
    assert!(matches!(say(Command::Launch(text("a"))), ClientMessage::Launch { app } if app == "a"));
    let quit = say(Command::ForceQuit(text("b")));
    assert!(matches!(quit, ClientMessage::ForceQuit { app } if app == "b"));
    let pasted = say(Command::Clipboard(vec![1]));
    assert!(matches!(pasted, ClientMessage::Clipboard(what) if what == vec![1]));
    assert_eq!(unreachable_app(&Command::Launch(text("a"))), Some(&text("a")));
    assert_eq!(unreachable_app(&Command::Pad(Pad::at_rest())), None);
}

#[test]
fn what_a_host_says_of_a_window_is_done_to_it() {
    let mut session = Session::new(0);
    let mut view = HostView::default();
    let config = config(false);
    let mut hear = |message| session.hear(&mut view, &config, message);
    assert!(matches!(hear(HostMessage::Welcome { host: text("Desk") }), Effect::Nothing));
    match hear(HostMessage::Opened { window: 3, app: text("doom"), title: text("Doom") }) {
        Effect::Open { window, app_id, title } => {
            assert_eq!((window, app_id.as_str()), (3, "remote.desk:7000.doom"));
            assert!(title.contains("Doom") && title.contains("Desk"), "{title}");
        }
        other => panic!("{other:?}"),
    }
    let retitled = hear(HostMessage::Retitled { window: 3, title: text("E1M1") });
    assert!(matches!(retitled, Effect::Retitle { window: 3, title } if title.contains("E1M1")));
    let stranger = hear(HostMessage::Retitled { window: 4, title: text("x") });
    assert!(matches!(stranger, Effect::Nothing));
    let wanted = hear(HostMessage::Microphone { wanted: true });
    assert!(matches!(wanted, Effect::MicrophoneNotSent));
    hear(HostMessage::Rumble { strong: 1, weak: 2 });
    hear(HostMessage::Rumble { strong: 3, weak: 4 });
    hear(HostMessage::Clipboard(vec![9]));
    let app = RemoteApp { id: text("doom"), name: text("Doom"), icon: None };
    hear(HostMessage::Catalog { apps: vec![app] });
    hear(HostMessage::Other);
    assert!(matches!(hear(HostMessage::Closed { window: 3 }), Effect::Close { window: 3 }));
    let no = hear(HostMessage::Refused { reason: text("unknown") });
    assert!(matches!(no, Effect::Refused(why) if why == "unknown"));
    assert_eq!(view.name.as_deref(), Some("Desk"));
    assert_eq!(view.link, Link::Online);
    assert_eq!(view.take_rumble(), Some((3, 4)), "only the newest");
    assert_eq!(view.take_rumble(), None);
    assert_eq!(view.take_clipboard(), vec![vec![9]]);
    assert_eq!(view.apps.len(), 1);
}

#[test]
fn a_microphone_is_started_and_stopped_once() {
    let mut session = Session::new(0);
    let mut view = HostView::default();
    let config = config(true);
    let mut ask = |wanted| session.hear(&mut view, &config, HostMessage::Microphone { wanted });
    assert!(matches!(ask(true), Effect::Microphone(Change::Start)));
    assert!(matches!(ask(true), Effect::Microphone(Change::Nothing)));
    assert!(matches!(ask(false), Effect::Microphone(Change::Stop)));
    let mut microphone = Microphone::default();
    assert!(!microphone.stop());
    microphone.want(true);
    assert!(microphone.stop());
    assert_eq!(carry_on(true, Waited::Closed), Sending::Ends);
    assert_eq!(carry_on(false, Waited::Closed), Sending::MicrophoneClosed);
    assert_eq!(carry_on(false, Waited::Nothing), Sending::GoesOn);
    assert_eq!(carry_on(false, Waited::Piece { taken: true }), Sending::GoesOn);
    assert_eq!(carry_on(false, Waited::Piece { taken: false }), Sending::HostStopped);
}

#[test]
fn a_clipboard_nobody_reads_does_not_grow_for_ever() {
    let mut view = HostView::default();
    for n in 0..CLIPBOARD_CAP as u8 + 3 {
        view.clipboard_says(vec![n]);
    }
    assert_eq!(view.clipboard.len(), CLIPBOARD_CAP);
    assert_eq!(view.clipboard[0], vec![3], "the oldest went");
}

#[test]
fn a_window_is_titled_for_what_it_is_and_where() {
    let mut view = HostView::default();
    let bare = window_title(&view, "doom", "Doom");
    assert!(bare.contains("Doom"), "{bare}");
    view.name = Some(text("Desk"));
    view.apps = vec![RemoteApp { id: text("doom"), name: text("DOOM II"), icon: None }];
    let named = window_title(&view, "doom", " ");
    assert!(named.contains("DOOM II") && named.contains("Desk"), "{named}");
}

#[test]
fn a_session_asks_for_what_is_missing_and_rests_otherwise() {
    let mut session = Session::new(0);
    let mut view = HostView::default();
    let config = config(false);
    assert!(!session.arrived(5, Arrival::Frame(picture(0, true)), 0), "a stranger's piece");
    session.hear(&mut view, &config, HostMessage::Stream { window: 5, decoder: true });
    session.hear(&mut view, &config, HostMessage::Stream { window: 6, decoder: false });
    assert_eq!(session.keep_asking(10), vec![5]);
    assert!(session.keep_asking(11).is_empty());
    assert!(!session.work(WORK_EVERY - 1), "nothing to decode, and a word was had lately");
    assert!(session.work(WORK_EVERY));
    assert!(!session.arrived(5, Arrival::Frame(picture(0, true)), 12));
    assert!(session.work(WORK_EVERY + 1), "something to decode");
    assert!(session.arrived(5, Arrival::Lost, 13));
    assert!(!session.arrived(5, Arrival::Unfinished, 14));
    assert_eq!(session.keep_asking(10 + ASK_EVERY), vec![5]);
}

#[test]
fn a_drag_is_told_now_and_then_and_where_it_ends() {
    let mut session = Session::new(0);
    assert_eq!(session.resized(&vec![(1, 640, 0)], 0), vec![(1, 640, 1)]);
    assert!(session.resized(&vec![(1, 650, 480)], 5).is_empty());
    assert!(session.resized(&vec![(1, 660, 480)], 6).is_empty());
    assert_eq!(session.resized(&vec![], RESIZE_EVERY), vec![(1, 660, 480)], "the last is kept");
    assert!(session.resized(&vec![], 9 * RESIZE_EVERY).is_empty());
}

#[test]
fn a_host_is_told_in_order() {
    let key = Input::Key { code: 30, pressed: true };
    let said = reports(&[(1, 640, 480)], &[2], &[(1, key), (1, Input::Leave)]);
    assert_eq!(said.len(), 4);
    assert!(matches!(said[0], ClientMessage::Configure { window: 1, width: 640, height: 480 }));
    assert!(matches!(said[1], ClientMessage::Close { window: 2 }));
    assert!(matches!(said[2], ClientMessage::Input { window: 1, input } if input == key));
    assert!(matches!(said[3], ClientMessage::Input { window: 1, input: Input::Leave }));
}

fn two_windows() -> Client {
    let mut client = Client::new();
    client.open(1, 100);
    client.open(2, 200);
    client
}

#[test]
fn what_is_held_is_let_go_of_when_focus_leaves() {
    let mut client = two_windows();
    client.pointer_enter(200, 5, 6);
    client.pointer_button(0x110, true);
    client.pointer_axis(true, 7);
    client.pointer_leave();
    client.keyboard_enter(100);
    client.key(30, true);
    client.key(31, true);
    client.key(30, false);
    client.keyboard_leave();
    client.pointer_motion(1, 1);
    client.key(5, true);
    assert_eq!(
        client.input,
        vec![
            (2, Input::Motion { x: 5, y: 6 }),
            (2, Input::Button { button: 0x110, pressed: true }),
            (2, Input::Scroll { horizontal: 7, vertical: 0 }),
            (2, Input::Button { button: 0x110, pressed: false }),
            (2, Input::Leave),
            (1, Input::Key { code: 30, pressed: true }),
            (1, Input::Key { code: 31, pressed: true }),
            (1, Input::Key { code: 30, pressed: false }),
            (1, Input::Key { code: 31, pressed: false }),
        ]
    );
}

#[test]
fn a_release_is_not_permission_to_free_what_is_on_screen() {
    let mut client = two_windows();
    assert_eq!(client.show(1, 1_000), (Some(0), vec![]));
    assert_eq!(client.in_flight(1), 1);
    client.release(1, 0);
    assert!(client.reap().is_empty(), "still on screen");
    assert_eq!(client.show(1, 1_001), (Some(1), vec![]));
    assert_eq!(client.in_flight(1), 2);
    client.release(1, 0);
    assert_eq!(client.reap(), vec![1_000]);
    assert_eq!(client.in_flight(1), 1);
    assert_eq!(client.show(9, 5), (None, vec![]));
    // Showing takes back what has been given back meanwhile.
    assert_eq!(client.show(1, 1_002), (Some(2), vec![]));
    client.release(1, 1);
    assert_eq!(client.show(1, 1_003), (Some(3), vec![1_001]));
    assert_eq!(client.in_flight(1), 2);
    assert_eq!(client.in_flight(9), 0);
}

#[test]
fn the_opening_suggestion_is_not_a_resize() {
    let mut client = two_windows();
    client.configure_toplevel(1, 1280, 800);
    client.configure(1);
    assert!(client.resized.is_empty());
    client.configure_toplevel(1, 0, 0);
    client.configure(1);
    assert!(client.resized.is_empty());
    client.configure_toplevel(1, 900, 700);
    client.configure(1);
    assert_eq!(client.resized, vec![(1, 900, 700)]);
    client.close_asked(2);
    assert_eq!(client.closing, vec![2]);
}

#[test]
fn a_closed_window_takes_what_it_held_with_it() {
    let mut client = two_windows();
    client.keyboard_enter(100);
    client.key(30, true);
    assert_eq!(client.close(1).map(|w| w.surface), Some(100));
    assert!(client.close(1).is_none());
    assert!(client.held_keys.is_empty());
    assert_eq!(client.window_of(100), None);
    assert_eq!(client.window_of(200), Some(2));
    assert!(client.can_present(Some(1), 2) && !client.can_present(None, 2));
    assert!(client.can_draw_cursor(Some(4), 2) && !client.can_draw_cursor(Some(3), 2));
    assert_eq!(client.close_all().len(), 1);
    assert!(client.close_all().is_empty());
}

#[test]
fn a_tiling_survives_being_told_in_halves() {
    let (high, low) = modifier_halves(0x0123_4567_89ab_cdef);
    assert_eq!((high, low), (0x0123_4567, 0x89ab_cdef));
    assert_eq!(modifier(high, low), 0x0123_4567_89ab_cdef);
}

#[test]
fn sound_is_handed_on_in_whole_frames_and_kept_to_its_bound() {
    let mut carry = Carry::new();
    assert_eq!(carry.take(&[1, 2, 3]), Vec::<u8>::new());
    assert_eq!(carry.take(&[4, 5]), vec![1, 2, 3, 4]);
    assert_eq!(carry.bytes, vec![5]);
    let mut queue = Queue::new();
    queue.push(&vec![1; MAX_QUEUED_BYTES]);
    queue.push(&[2, 2, 2, 2]);
    assert_eq!(queue.bytes.len(), KEEP_BYTES);
    assert_eq!(&queue.bytes[KEEP_BYTES - 4..], &[2, 2, 2, 2]);
    assert_eq!(queue.pull().len(), 8_192);
    assert_eq!(queue.pull().len(), KEEP_BYTES - 8_192);
    assert!(queue.pull().is_empty());
    assert_eq!(bytes_for(60), KEEP_BYTES);
    assert!(playable(48_000, 2) && !playable(44_100, 2) && !playable(48_000, 1));
}

#[test]
fn a_gap_is_counted_once_and_a_long_one_lets_go() {
    let mut playback = Playback::new(0);
    assert!(playback.sound(10), "no output yet");
    playback.output = Some(None);
    assert!(!playback.sound(20));
    assert!(playback.sound(11 + FOLLOW_EVERY));
    assert!(!playback.moves_to(&None) && playback.moves_to(&Some(text("window-3"))));
    let last = 11 + FOLLOW_EVERY;
    assert!(!playback.quiet(last + HEARD));
    assert!(!playback.quiet(last + HEARD + 1));
    assert!(!playback.quiet(last + HEARD + 2));
    assert_eq!(playback.dropouts, 1);
    assert_eq!(playback.tell(TELL_EVERY), None);
    assert_eq!(playback.tell(TELL_EVERY + 1), Some(1));
    assert!(playback.quiet(last + IDLE + 1));
    assert_eq!(playback.output, None);
}

#[test]
fn a_player_is_started_into_its_window() {
    let into = playback_arguments("remote.desk.doom", Some("window-3"));
    assert_eq!(
        into,
        [
            "--playback", "--raw", "--format", "s16", "--rate", "48000", "--channels", "2",
            "--latency", "40ms", "-P", "{ media.name = \"remote.desk.doom\" }", "--target",
            "window-3", "-",
        ]
    );
    assert_eq!(playback_arguments("x", None).last().map(String::as_str), Some("-"));
    let mut sinks = Sinks::sinks();
    sinks.set_sinks(vec![(text("a"), text("sink-a")), (text("b"), text("sink-b"))]);
    assert_eq!(sinks.sink_for("b").as_deref(), Some("sink-b"));
    assert_eq!(sinks.sink_for("c"), None);
}

#[test]
fn a_window_id_leads_to_its_host_and_its_icon() {
    assert_eq!(app_id("desk", "doom"), "remote.desk.doom");
    assert_eq!(app_id_prefix("desk"), "remote.desk.");
    assert!(owns("desk", "remote.desk.doom") && !owns("des", "remote.desk.doom"));
    assert_eq!(file_safe("a/b:c.d-e_f"), "a_b_c.d-e_f");
    assert_eq!(icon_for("/icons", "remote.desk:1.a"), "/icons/remote.desk_1.a.png");
    assert_eq!(versioned_icon("/icons/", "a b", 0xdead_beef), "/icons/a_b-00000000deadbeef.png");
    assert!(icon_dir(Some("/cache"), Some("/home/x"), "/tmp").starts_with("/cache/"));
    assert!(icon_dir(None, Some("/home/x"), "/tmp").starts_with("/home/x/"));
    assert!(icon_dir(None, None, "/tmp").starts_with("/tmp"));
}

fn hosts() -> Remotes {
    let mut remotes = Remotes::new(true);
    remotes.add(text("desk"));
    remotes.add(text("den"));
    remotes.hosts[0].view.name = Some(text("Desk"));
    remotes.hosts[0].view.link = Link::Online;
    remotes.hosts[1].view.link = Link::Offline(text("off"));
    remotes
}

fn pad(report: &[u8]) -> Pad {
    Pad { report: report.to_vec() }
}

#[test]
fn the_pad_goes_to_whoever_is_being_played_and_is_let_go_of_once() {
    let mut remotes = hosts();
    let sent = remotes.pad(Some("remote.desk.doom"), &pad(&[1]));
    assert_eq!(sent, vec![(0, pad(&[1]))]);
    assert!(remotes.pad(Some("remote.desk.doom"), &pad(&[1])).is_empty(), "unchanged");
    let moved = remotes.pad(Some("remote.den.quake"), &pad(&[1]));
    assert_eq!(moved, vec![(0, Pad::at_rest()), (1, pad(&[1]))]);
    assert_eq!(remotes.pad(Some("firefox"), &pad(&[2])), vec![(1, Pad::at_rest())]);
    assert!(remotes.pad(None, &pad(&[3])).is_empty());
}

#[test]
fn hosts_are_described_as_they_stand() {
    let mut remotes = hosts();
    let entry = |host: &str| RemoteHost {
        host: text(host),
        fingerprint: text("ab"),
        launch: Vec::new(),
    };
    let mut paired = vec![entry("desk"), entry("den"), entry("attic")];
    let (rows, tabs) = remotes.describe(&paired);
    let labels: Vec<&str> = rows.iter().map(|r| r.label.as_str()).collect();
    assert_eq!(labels, ["Desk", "den", "attic"]);
    let standing: Vec<HostStatus> = rows.iter().map(|r| r.status).collect();
    assert_eq!(
        standing,
        vec![HostStatus::Online, HostStatus::Offline, HostStatus::Connecting]
    );
    assert!(tabs[0].online && !tabs[1].online);
    let mut shown = Shown { pages: None, pairing: None };
    assert!(shown.differs(&rows, &tabs));
    let (more_rows, more_tabs) = remotes.describe(&paired);
    shown.pages_given(rows, tabs);
    assert!(!shown.differs(&more_rows, &more_tabs));
    assert_eq!(remotes.offline(), vec![text("den")]);
    assert_eq!(remotes.launch("den"), Some(1));
    assert_eq!(remotes.launch("attic"), None);
    assert_eq!(remotes.force_quit("remote.den.quake"), Some((1, text("quake"))));
    assert_eq!(remotes.force_quit("firefox"), None);
    remotes.forget("desk");
    assert_eq!(remotes.len(), 1);
    forget_entry(&mut paired, "desk");
    assert_eq!(paired.len(), 2);
}

#[test]
fn the_clipboard_goes_to_everyone_but_where_it_came_from() {
    let mut remotes = hosts();
    assert_eq!(remotes.clipboard_say(&Say::Everyone { except: None }), vec![0, 1]);
    let others = remotes.clipboard_say(&Say::Everyone { except: Some(text("desk")) });
    assert_eq!(others, vec![1]);
    assert_eq!(remotes.clipboard_say(&Say::Just { host: text("desk") }), vec![0]);
    remotes.hosts[1].view.clipboard_says(vec![4]);
    assert_eq!(remotes.clipboard_said(), vec![(text("den"), vec![4])]);
    assert!(remotes.clipboard_said().is_empty());
    remotes.hosts[1].view.rumble = Some((1, 1));
    assert_eq!(remotes.rumble(), Some((1, 1)));
    assert_eq!(remotes.rumble(), None);
}

#[test]
fn nothing_is_paired_until_both_ends_have_agreed() {
    let mut remotes = hosts();
    let mut paired = Vec::new();
    let mut state = State::default();
    assert!(remotes.pairing_view(&state).is_none());
    remotes.pair(text("attic"));
    let view = remotes.pairing_view(&state).unwrap();
    assert_eq!(view.status, "Looking for attic…");
    state.compare(text("ff"), text("1234"));
    // Nothing has been answered yet, and the pairing goes on.
    assert_eq!(remotes.settle_pairing(&state, &mut paired), None);
    let view = remotes.pairing_view(&state).unwrap();
    assert_eq!(view.code.as_deref(), Some("1234"));
    assert_eq!(view.address, "attic");
    // The shell is given it once, and again when it says something else.
    let mut shown = Shown { pages: None, pairing: None };
    assert!(!shown.pairing_differs(&None));
    assert!(shown.pairing_differs(&Some(view.clone())));
    shown.pairing_given(view.clone());
    assert!(!shown.pairing_differs(&Some(view.clone())));
    assert!(!shown.pairing_differs(&None));
    assert!(shown.pairing_differs(&Some(PairingView { code: None, ..view.clone() })));
    assert!(shown.pairing_differs(&Some(PairingView { finished: true, ..view })));
    let yes = Paired { name: text("Attic"), fingerprint: text("ff") };
    state.finish(Ok(yes));
    assert_eq!(remotes.settle_pairing(&state, &mut paired), None, "the wearer has not said");
    assert!(paired.is_empty());
    remotes.confirm();
    assert_eq!(remotes.settle_pairing(&state, &mut paired), Some(text("attic")));
    assert_eq!(paired.len(), 1);
    assert_eq!((paired[0].host.as_str(), paired[0].fingerprint.as_str()), ("attic", "ff"));
    assert_eq!(remotes.settle_pairing(&state, &mut paired), None, "once");
    let view = remotes.pairing_view(&state).unwrap();
    assert!(view.finished && view.succeeded && view.host_accepted);
    assert_eq!(view.status, "Paired with Attic. Its apps are in the launcher.");
    assert!(remotes.cancel());
    assert!(!remotes.cancel());
}

#[test]
fn a_refused_pairing_says_why() {
    let mut remotes = hosts();
    let mut paired = Vec::new();
    let mut state = State::default();
    remotes.pair(text("attic"));
    state.finish(Err(text("it said no")));
    assert_eq!(remotes.settle_pairing(&state, &mut paired), None);
    let view = remotes.pairing_view(&state).unwrap();
    assert!(view.finished && !view.succeeded);
    assert_eq!(view.status, "it said no");
}
