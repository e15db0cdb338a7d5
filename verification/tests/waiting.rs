use spatiand::waiting::{exit_hint, message, Missing, MAX_LINE};

/// Every screen the wearer can actually be shown, hints included. The hints are part of
/// this because they are text on the same panel, and a line that overruns is a line that
/// overruns whichever function wrote it.
fn every_message() -> Vec<String> {
    let mut out = Vec::new();
    for controller in [true, false] {
        for (missing, had) in [
            (Missing::Picture, true),
            (Missing::Headset, true),
            (Missing::Headset, false),
        ] {
            out.push(message(missing, had, exit_hint(controller, had)));
        }
    }
    out
}

#[test]
fn no_line_is_wider_than_the_panel_can_set_it() {
    for text in every_message() {
        for line in text.lines() {
            assert!(
                line.chars().count() <= MAX_LINE,
                "{} chars: {line:?}",
                line.chars().count()
            );
        }
    }
}

#[test]
fn leaving_is_never_offered_as_a_single_press() {
    // The regression this guards. A press is the one input certain to be arriving as this
    // screen appears, because a button is what starts Spatiand -- so offering one here is
    // offering to quit before the wearer has looked up, and it was reported as a crash.
    for had in [true, false] {
        let hint = exit_hint(true, had);
        assert!(
            hint.contains("Hold"),
            "{hint:?} offers something other than a hold"
        );
        assert!(!hint.contains("Press any"), "{hint:?} still offers a press");
    }
}

#[test]
fn nothing_is_offered_when_there_is_no_controller_to_offer_it_on() {
    for had in [true, false] {
        assert_eq!(exit_hint(false, had), "");
    }
}

#[test]
fn the_half_connected_case_does_not_tell_you_to_do_what_you_have_done() {
    // The specific way this message can go wrong. The glasses are plugged in; being told to
    // plug them in is what makes a wearer conclude the software cannot see them at all.
    let text = message(Missing::Picture, true, "");
    assert!(
        !text.contains("Plug in") && !text.contains("Connect XREAL"),
        "the half-connected message tells the wearer to connect glasses that are connected"
    );
    // And it has to name both things that actually fix it. The second one is here
    // because it was *observed*, not guessed: a session with the glasses answering over
    // USB and `card0-DP-1` reading disconnected, unchanged by reseating, by turning the
    // plug over, or by walking the glasses through every display mode they have — and
    // then cured by a full power-off. The port had stopped offering video and stayed that
    // way across five days of uptime. Nobody reaches for "shut it all the way down" on
    // their own, and a screen that only mentions the cable sends them hunting for a
    // second cable they do not need.
    for expected in ["cable", "powered off"] {
        assert!(
            text.contains(expected),
            "no mention of {expected:?}: {text}"
        );
    }
    // Specifically not a restart, which leaves the port controller powered and wedged.
    assert!(
        text.contains("not restart"),
        "does not rule out a plain restart: {text}"
    );
}

#[test]
fn every_message_says_which_half_is_missing_in_its_first_line() {
    // The heading is the only part read from across a room, or by someone lifting the
    // glasses off to look at the panel.
    for (missing, had, want) in [
        (Missing::Picture, true, "dark"),
        (Missing::Headset, true, "disconnected"),
        (Missing::Headset, false, "Plug in"),
    ] {
        let text = message(missing, had, "");
        let heading = text.lines().next().unwrap();
        assert!(heading.contains(want), "{heading:?} does not say {want:?}");
    }
}

#[test]
fn an_exit_offer_is_appended_rather_than_replacing_anything() {
    let hint = "\n\nHold any button.";
    for (missing, had) in [(Missing::Picture, true), (Missing::Headset, true)] {
        let plain = message(missing, had, "");
        let with = message(missing, had, hint);
        assert_eq!(with, format!("{plain}{hint}"));
    }
}
