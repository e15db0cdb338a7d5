use spatiand::startup::{stages, Stage, MAX_LABEL};

#[test]
fn every_label_fits_on_the_panel() {
    for stage in stages() {
        assert!(
            stage.label().len() <= MAX_LABEL,
            "{:?} is {} characters: {:?}",
            stage,
            stage.label().len(),
            stage.label()
        );
    }
}

#[test]
fn the_steps_run_from_one_to_the_end() {
    assert_eq!(Stage::Graphics.step(), 1);
    assert_eq!(Stage::World.step(), stages().len());
    // Strictly increasing, so a progress bar built from these never goes backwards.
    for pair in stages().windows(2) {
        assert!(pair[0].step() < pair[1].step());
    }
}

#[test]
fn no_label_is_an_instruction() {
    // These appear while the wearer can do nothing but wait. A message that reads as a
    // prompt -- "connect your glasses" -- belongs in the waiting screen, which is shown when
    // there is something to act on.
    for stage in stages() {
        let label = stage.label();
        assert!(
            !label.contains('?') && !label.ends_with('.'),
            "{label:?} reads like a prompt"
        );
    }
}
