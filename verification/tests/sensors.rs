use spatiand::sensors::{
    describe, Anchor, Axes, Fit, FitState, Remembered, SensorMemory, LOG_EVERY, SAVE_EVERY,
};

const BIAS: Axes = Axes { x: 1_500_000, y: -20_400, z: 0 };
const STILL: Axes = Axes { x: 0, y: 0, z: 0 };

fn knows(gyro_bias: Option<Axes>, hard_iron: Option<Fit>) -> Remembered {
    Remembered { gyro_bias, hard_iron }
}

fn fit() -> Fit {
    Fit { sits: 3, offset: BIAS }
}

#[test]
fn what_was_learned_is_saved_once() {
    let mut memory = SensorMemory::new(0);
    memory.restore("air", knows(Some(BIAS), None));
    let early = memory.tick(SAVE_EVERY - 1, true, knows(None, Some(fit())));
    assert!(early.log && early.save.is_none());
    let due = memory.tick(SAVE_EVERY, true, knows(None, Some(fit())));
    assert!(!due.log);
    assert_eq!(due.save, Some(knows(Some(BIAS), Some(fit()))), "the old bias is kept");
    assert_eq!(due.measured, Some(fit()));
    // It could not be written, so it is still to be.
    memory.wrote(due.save.unwrap(), false);
    let again = memory.tick(2 * SAVE_EVERY, true, knows(None, Some(fit())));
    assert_eq!(again.save, due.save);
    memory.wrote(again.save.unwrap(), true);
    let done = memory.tick(3 * SAVE_EVERY, true, knows(Some(BIAS), Some(fit())));
    assert!(done.log && done.save.is_none() && done.measured.is_none());
}

#[test]
fn nothing_is_said_or_saved_without_samples_or_a_device() {
    let mut memory = SensorMemory::new(0);
    let quiet = memory.tick(10 * SAVE_EVERY, false, knows(Some(BIAS), None));
    assert!(!quiet.log && quiet.save.is_none());
    let homeless = memory.tick(10 * SAVE_EVERY, true, knows(Some(BIAS), None));
    assert!(homeless.log && homeless.save.is_none());
    assert!(!memory.tick(10 * SAVE_EVERY + LOG_EVERY - 1, true, knows(None, None)).log);
}

fn anchor(measured: bool, locked: bool, accepted: bool) -> Anchor {
    Anchor { measured, locked, accepted, error: -2_345_678 }
}

#[test]
fn the_line_says_which_of_the_problems_it_is() {
    let gathering = FitState::Gathering { seconds: 12_500_000 };
    assert_eq!(
        describe(BIAS, STILL, &gathering, anchor(false, false, false)),
        "tracker: bias +1.500 -0.020 +0.000 deg/s; magnetometer measuring (12 s of samples); yaw \
         anchor off until the magnetometer is measured"
    );
    let narrow = FitState::NarrowView { coverage: 123_500 };
    assert_eq!(
        describe(STILL, BIAS, &narrow, anchor(true, false, false)),
        "tracker: bias +0.000 +0.000 +0.000 deg/s (++1.500 -0.020 +0.000 from the anchor); \
         magnetometer waiting for the head to look up and down too (coverage 0.124); yaw anchor \
         learning where the field points"
    );
    let odd = FitState::NoFit { residual_share: 456_000 };
    assert_eq!(
        describe(STILL, STILL, &odd, anchor(true, true, false)),
        "tracker: bias +0.000 +0.000 +0.000 deg/s; magnetometer the field makes no sense here \
         (46% left over) — something magnetic nearby?; yaw anchor paused: the field here differs \
         from where it was learned"
    );
    let fitted = FitState::Fitted {
        axes: "x y z".to_string(),
        own: 250_000,
        field: 480_400,
        residual_share: 31_000,
        coverage: 700_000,
    };
    assert_eq!(
        describe(STILL, STILL, &fitted, anchor(true, true, true)),
        "tracker: bias +0.000 +0.000 +0.000 deg/s; magnetometer fitted: axes x y z, own field \
         0.250 G, Earth 0.480 G, 3% left over, coverage 0.700; yaw anchor holding, -2.3 deg off"
    );
    let undecided = describe(STILL, STILL, &FitState::Undecided, anchor(true, true, true));
    assert!(undecided.contains("cannot yet tell how its axes sit"));
}

#[test]
fn a_trim_too_small_to_matter_is_not_mentioned() {
    let small = Axes { x: 60, y: -60, z: 50 };
    let said = describe(STILL, small, &FitState::Undecided, anchor(false, false, false));
    assert!(!said.contains("from the anchor"), "{said}");
    let just = Axes { x: 60, y: -80, z: 0 };
    let said = describe(STILL, just, &FitState::Undecided, anchor(false, false, false));
    assert!(said.contains("from the anchor"), "{said}");
}
