use spatiand::prefs::{File, Prefs, Stored};

#[test]
fn a_choice_survives_the_session_that_made_it() {
    let mut prefs = Prefs::default();
    prefs.keyboard_click = false;
    let written = Stored::Read { keyboard_click: Some(prefs.keyboard_click) };
    assert_eq!(Prefs::load(written), (prefs, File::Keep));
}

#[test]
fn a_session_with_no_file_gets_the_defaults() {
    assert_eq!(Prefs::load(Stored::Missing), (Prefs::default(), File::Keep));
}

#[test]
fn a_file_from_another_build_still_opens() {
    // A file with a setting this build has never heard of, and none of ours. Refusing it would
    // mean the first upgrade silently resets everything the wearer had chosen.
    let read = Stored::Read { keyboard_click: None };
    assert_eq!(Prefs::load(read), (Prefs::default(), File::Keep));
}

#[test]
fn an_unreadable_file_is_kept_rather_than_replaced() {
    // Overwriting what we could not parse is how one bad character costs the wearer every
    // setting in the file.
    assert_eq!(Prefs::load(Stored::Broken), (Prefs::default(), File::KeepAndWarn));
}
