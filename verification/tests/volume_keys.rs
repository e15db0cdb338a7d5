use spatiand::devices::Audio;
use spatiand::volume_keys::{
    apply, needs_current, settle, stepped, Change, Job, Mixer, Mute, Repeat, Volume, Work,
    POLL_EVERY, REPEAT_DELAY, REPEAT_EVERY,
};

const MS: u64 = 1_000_000;

#[test]
fn only_the_three_volume_keys_are_taken() {
    assert_eq!(Volume::of(115), Some(Volume::Up));
    assert_eq!(Volume::of(114), Some(Volume::Down));
    assert_eq!(Volume::of(113), Some(Volume::Mute));
    // The power button is on the same device, and a letter is what a keyboard is for.
    for other in [116, 30, 1, 0] {
        assert_eq!(Volume::of(other), None, "code {other} was taken");
    }
}

#[test]
fn a_step_lands_on_the_grid() {
    assert_eq!(stepped(470_000, true), 500_000);
    assert_eq!(stepped(470_000, false), 450_000);
}

#[test]
fn a_level_already_on_the_grid_moves_by_exactly_one_step() {
    // Including when wpctl reads it back a hair short, which is how 0.5 comes back.
    for level in [500_000, 499_900, 500_100, 496_000, 504_000] {
        assert_eq!(stepped(level, true), 550_000, "{level} up");
        assert_eq!(stepped(level, false), 450_000, "{level} down");
    }
}

#[test]
fn the_ends_hold() {
    assert_eq!(stepped(1_000_000, true), 1_000_000);
    assert_eq!(stepped(980_000, true), 1_000_000);
    assert_eq!(stepped(0, false), 0);
    assert_eq!(stepped(20_000, false), 0);
    // Above unity -- something else set it there -- comes down onto the scale.
    assert_eq!(stepped(1_300_000, false), 950_000);
}

#[test]
fn twenty_presses_is_silence_to_full() {
    let mut level = 0;
    for _ in 0..20 {
        level = stepped(level as i64, true);
    }
    assert_eq!(level, 1_000_000);
}

#[test]
fn a_quick_press_does_not_repeat() {
    let t = 7_000 * MS;
    let mut r = Repeat::default();
    r.press(Volume::Up, t);
    assert_eq!(r.due(t + 100 * MS), None);
    r.release(Volume::Up);
    assert_eq!(r.due(t + 5_000 * MS), None);
}

#[test]
fn holding_repeats_after_the_delay_and_then_steadily() {
    let t = 7_000 * MS;
    let mut r = Repeat::default();
    r.press(Volume::Down, t);
    assert_eq!(r.due(t + REPEAT_DELAY - MS), None);
    assert_eq!(r.due(t + REPEAT_DELAY), Some(Volume::Down));
    assert_eq!(r.due(t + REPEAT_DELAY + 10 * MS), None);
    assert_eq!(r.due(t + REPEAT_DELAY + REPEAT_EVERY), Some(Volume::Down));
}

#[test]
fn a_long_frame_is_one_step_not_a_jump() {
    let t = 7_000 * MS;
    let mut r = Repeat::default();
    r.press(Volume::Up, t);
    let late = t + REPEAT_DELAY + REPEAT_EVERY * 10;
    assert_eq!(r.due(late), Some(Volume::Up));
    assert_eq!(r.due(late), None, "a stalled frame paid out more than once");
}

#[test]
fn mute_never_repeats() {
    let t = 7_000 * MS;
    let mut r = Repeat::default();
    r.press(Volume::Mute, t);
    assert_eq!(r.due(t + 5_000 * MS), None);
}

#[test]
fn releasing_the_other_half_of_the_rocker_does_not_stop_the_held_one() {
    let t = 7_000 * MS;
    let mut r = Repeat::default();
    r.press(Volume::Up, t);
    r.release(Volume::Down);
    assert_eq!(r.due(t + REPEAT_DELAY), Some(Volume::Up));
}

#[test]
fn a_backlog_is_walked_in_order_not_netted() {
    let up = Change::Key(Volume::Up);
    let down = Change::Key(Volume::Down);
    // Up then down from 47% is 45%: the first step lands on 50, the second on 45.
    let (level, _, _) = settle(470_000, &[up, down]);
    assert_eq!(level.unwrap(), 450_000);
}

#[test]
fn a_held_button_backlog_adds_up() {
    let up = Change::Key(Volume::Up);
    let (level, _, unmute) = settle(200_000, &[up, up, up]);
    assert_eq!(level.unwrap(), 350_000);
    assert!(unmute, "turning it up should unmute");
}

#[test]
fn turning_it_down_leaves_a_mute_alone() {
    let (level, toggle, unmute) = settle(500_000, &[Change::Key(Volume::Down)]);
    assert_eq!(level.unwrap(), 450_000);
    assert!(!toggle && !unmute);
}

#[test]
fn two_mute_presses_cancel() {
    let mute = Change::Key(Volume::Mute);
    assert_eq!(settle(500_000, &[mute]), (None, true, false));
    assert_eq!(settle(500_000, &[mute, mute]), (None, false, false));
}

#[test]
fn turning_it_up_after_muting_is_heard() {
    let (_, toggle, unmute) =
        settle(500_000, &[Change::Key(Volume::Mute), Change::Key(Volume::Up)]);
    assert!(unmute && !toggle);
}

#[test]
fn the_slider_and_the_buttons_are_one_path() {
    // A slider position is absolute; a step after it starts from there, not from whatever
    // was read before the batch.
    let (level, _, _) = settle(900_000, &[Change::To(300_000), Change::Key(Volume::Up)]);
    assert_eq!(level.unwrap(), 350_000);
    let (level, _, _) = settle(900_000, &[Change::To(1_700_000)]);
    assert_eq!(level.unwrap(), 1_000_000, "the slider cannot go past unity either");
}

/// A mixer whose first poll is not due, so nothing but the frame loop's side happens.
fn idle_mixer() -> Mixer {
    Mixer { jobs: Vec::new(), level: None, devices: None, watching: false, next_poll: 0 }
}

fn no_devices() -> Audio {
    Audio { outputs: Vec::new(), inputs: Vec::new() }
}

#[test]
fn a_reading_with_nothing_asked_for_is_handed_over() {
    let mut mixer = idle_mixer();
    assert!(mixer.publish_level(Some(400_000)));
    assert_eq!(mixer.take_level(), Some(Some(400_000)));
}

#[test]
fn a_reading_that_something_was_asked_for_during_is_dropped() {
    // The wearer taps another output while the poll is reading the volume of the old one.
    let mut mixer = idle_mixer();
    mixer.choose_device(7);
    assert!(!mixer.publish_level(Some(400_000)));
    assert_eq!(mixer.level, None, "the old output's volume was handed over");
    assert_eq!(mixer.jobs, vec![Job::Default(7)], "the switch has to be kept to be done next");
}

#[test]
fn asking_for_something_drops_a_reading_already_handed_over() {
    // The other order: the reading was published just before the tap, and has to go too.
    let mut mixer = idle_mixer();
    mixer.level = Some(Some(400_000));
    mixer.send(Change::To(800_000));
    assert_eq!(mixer.take_level(), None, "the slider would snap back to 40%");

    mixer.level = Some(Some(400_000));
    mixer.devices = Some(no_devices());
    mixer.choose_device(7);
    assert_eq!(mixer.take_level(), None);
    assert!(mixer.take_devices().is_none(), "the tick would jump back to the old output");
}

#[test]
fn only_a_sidecar_that_is_looking_keeps_the_lists_being_read() {
    let mut mixer = idle_mixer();
    assert!(!mixer.watching);
    mixer.take_devices();
    assert!(mixer.watching);
}

#[test]
fn a_batch_stops_at_a_device_switch() {
    let mut mixer = Mixer::start(0);
    let up = Change::Key(Volume::Up);
    mixer.send(up);
    mixer.send(Change::To(300_000));
    mixer.choose_device(9);
    mixer.send(up);
    match mixer.next(5) {
        Work::Make(changes) => assert_eq!(changes, vec![up, Change::To(300_000)]),
        other => panic!("{other:?}"),
    }
    assert!(matches!(mixer.next(6), Work::Switch(9)));
    match mixer.next(7) {
        Work::Make(changes) => assert_eq!(changes, vec![up]),
        other => panic!("{other:?}"),
    }
    mixer.done(7);
    assert!(matches!(mixer.next(8), Work::Wait(at) if at == 7 + POLL_EVERY));
    assert!(matches!(mixer.next(7 + POLL_EVERY), Work::Poll));
}

#[test]
fn the_next_poll_is_counted_from_when_the_work_is_done() {
    let mut mixer = Mixer::start(0);
    assert!(matches!(mixer.next(0), Work::Poll));
    // A slow sound server: it took five seconds to answer.
    let late = 5_000 * MS;
    mixer.done(late);
    mixer.take_devices();
    assert!(matches!(mixer.next(late), Work::Wait(at) if at == late + POLL_EVERY));
    mixer.send(Change::Key(Volume::Up));
    assert!(matches!(mixer.next(late + 1), Work::Make(_)));
    mixer.done(3 * late);
    assert!(matches!(mixer.next(3 * late), Work::Wait(at) if at == 3 * late + POLL_EVERY));
    assert!(matches!(mixer.next(3 * late + POLL_EVERY), Work::Poll));
    // Nobody has looked since, so the next one is skipped and only counted.
    mixer.done(4 * late);
    let idle = 4 * late + POLL_EVERY;
    assert!(matches!(mixer.next(idle), Work::Wait(at) if at == idle + POLL_EVERY));
}

#[test]
fn a_step_from_a_volume_that_cannot_be_read_changes_nothing() {
    let up = Change::Key(Volume::Up);
    assert!(needs_current(&[Change::To(300_000), up]));
    assert!(!needs_current(&[Change::To(300_000), Change::Key(Volume::Mute)]));
    let applied = apply(&[up], None);
    assert_eq!((applied.set, applied.mute, applied.report), (None, Mute::Leave, None));
    let applied = apply(&[up], Some(470_000));
    assert_eq!(applied.set, Some(500_000));
    assert_eq!(applied.mute, Mute::Clear);
    assert_eq!(applied.report, Some(500_000), "a button's level is shown");
    let applied = apply(&[Change::To(300_000)], None);
    assert_eq!(applied.set, Some(300_000));
    assert_eq!(applied.report, None, "the slider already shows where it is");
    assert_eq!(apply(&[Change::Key(Volume::Mute)], None).mute, Mute::Flip);
}
