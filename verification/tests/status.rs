use spatiand::status::{self, battery, clock, Battery, Supply};

#[test]
fn the_clock_is_always_five_characters() {
    // It sits in a fixed corner; a string that changes width makes the whole bar shuffle
    // every minute.
    for time in [Some((0, 0)), Some((7, 5)), Some((23, 59)), None] {
        let c = clock(time);
        assert_eq!(c.len(), 5, "got {c:?}");
        assert_eq!(c.as_bytes()[2], b':');
    }
    assert_eq!(clock(Some((7, 5))), "07:05");
    assert_eq!(clock(None), "--:--");
}

#[test]
fn charging_is_marked_without_relying_on_colour() {
    // Two degrees across is where hue stops being readable.
    let charging = Battery {
        percent: 80,
        charging: true,
    };
    let discharging = Battery {
        percent: 80,
        charging: false,
    };
    assert_ne!(charging.label(), discharging.label());
    assert!(charging.label().starts_with("80%"));
}

#[test]
fn a_full_battery_on_mains_counts_as_charging() {
    // The question the wearer is asking is "is this going to run out", and a Deck sitting
    // at 100% on the dock reports Full rather than Charging.
    let b = Battery {
        percent: 100,
        charging: true,
    };
    assert!(b.label().contains('\u{26a1}'));
    let supply = reading("Battery\n", "100\n", "Full\n");
    assert_eq!(battery(&[supply]), Some(b));
}

#[test]
fn the_window_count_reads_as_english() {
    let at = clock(Some((12, 34)));
    let line = |n: usize| status::line(&at, None, n);
    assert!(line(0).contains("no windows"));
    assert!(line(1).contains("1 window"));
    assert!(line(4).contains("4 windows"));
    assert!(!line(1).contains("1 windows"));
}

#[test]
fn the_line_stays_short_enough_to_read_in_a_corner() {
    // It is sized to a fixed angular width, so length trades directly against legibility.
    // Roughly 24 characters keeps the glyphs about 2 degrees tall.
    //
    // Counted in characters, because that is what gets drawn.
    let full = Some(Battery { percent: 100, charging: true });
    let text = status::line(&clock(Some((12, 34))), full, 4);
    assert!(
        text.chars().count() <= 28,
        "status line is {text:?} ({} characters)",
        text.chars().count()
    );
    assert_eq!(text, "12:34    100%\u{26a1}    4 windows");
}

#[test]
fn the_line_survives_a_machine_with_no_battery() {
    // Desktops, and any Deck whose sysfs layout has moved. Omitting it beats showing 0%,
    // which reads as an emergency.
    let at = clock(Some((12, 34)));
    let text = status::line(&at, battery(&[]), 2);
    assert!(text.contains(&at));
    assert!(!text.contains("0%"));
    assert_eq!(text, "12:34    2 windows");
}

fn reading(kind: &str, capacity: &str, status: &str) -> Supply {
    Supply {
        kind: Some(kind.to_string()),
        capacity: Some(capacity.to_string()),
        status: Some(status.to_string()),
    }
}

#[test]
fn the_first_real_battery_is_the_one_reported() {
    let mains = reading("Mains\n", "50\n", "\n");
    let odd = reading("Battery\n", "unknown\n", "Discharging\n");
    let real = reading("Battery\n", " 63 \n", "Discharging\n");
    let other = reading("Battery\n", "12\n", "Charging\n");
    let got = battery(&[mains, odd, real, other]);
    assert_eq!(got, Some(Battery { percent: 63, charging: false }));
    // A driver that says more than full is believed to be full.
    let over = reading("Battery\n", "104\n", "Charging\n");
    assert_eq!(battery(&[over]), Some(Battery { percent: 100, charging: true }));
    // One that says nothing of what it is doing is not charging.
    let quiet = Supply { status: None, ..reading("Battery", "7", "") };
    assert_eq!(battery(&[quiet]), Some(Battery { percent: 7, charging: false }));
}
