//! What the wearer has chosen, kept between sessions.
//!
//! The file it is kept in is **forgiving**. A missing field falls back to its default and an
//! unrecognised one is ignored, so a file written by a newer build still opens in an older one and
//! vice versa. A stale preference is at worst a keyboard that clicks when you did not want it to,
//! and you can see the control that turns it off.
//!
//! Written whenever something changes, which is a few bytes on a control the wearer had to
//! deliberately press. There is no flush-on-exit path on purpose: a session that ends by the
//! headset being unplugged should not be the one that loses the setting.

use vstd::prelude::*;

verus! {

#[derive(Debug, Clone, Copy, PartialEq, Eq, Structural)]
pub struct Prefs {
    /// Whether the on-screen keyboards make a sound.
    pub keyboard_click: bool,
}

impl Default for Prefs {
    /// The same default the shell's own keyboard carries, so a session with no file behaves exactly
    /// like one whose file says what the defaults are.
    fn default() -> (out: Prefs)
        ensures
            out == Prefs::usual(),
    {
        Prefs { keyboard_click: true }
    }
}

/// What became of reading the file.
#[derive(Debug, Clone, Copy, PartialEq, Eq)]
pub enum Stored {
    /// There is none, or it cannot be read.
    Missing,
    /// It does not parse.
    Broken,
    /// It parses, and says this of each preference it mentions.
    Read { keyboard_click: Option<bool> },
}

impl Stored {
    /// The file a session leaves behind.
    pub open spec fn of(prefs: Prefs) -> Stored {
        Stored::Read { keyboard_click: Some(prefs.keyboard_click) }
    }
}

/// What to do with the file a session started with.
#[derive(Debug, Clone, Copy, PartialEq, Eq, Structural)]
pub enum File {
    /// Leave it as it is.
    Keep,
    /// Leave it as it is, and say that it could not be parsed. Overwriting a file we could not read
    /// is how a typo in it turns into silently losing every setting in it.
    KeepAndWarn,
}

impl Prefs {
    /// The defaults.
    pub open spec fn usual() -> Prefs {
        Prefs { keyboard_click: true }
    }

    /// The preferences a stored file gives: the defaults for anything missing.
    pub open spec fn given(stored: Stored) -> Prefs {
        match stored {
            Stored::Read { keyboard_click: Some(keyboard_click) } => Prefs { keyboard_click },
            _ => Prefs::usual(),
        }
    }

    /// Read the stored preferences, falling back to the defaults for anything missing.
    pub fn load(stored: Stored) -> (out: (Prefs, File))
        ensures
            out.0 == Prefs::given(stored),
            out.1 == (if stored is Broken {
                File::KeepAndWarn
            } else {
                File::Keep
            }),
    {
        let usual = Prefs::default();
        match stored {
            Stored::Missing => (usual, File::Keep),
            Stored::Broken => (usual, File::KeepAndWarn),
            Stored::Read { keyboard_click } => {
                let keyboard_click = match keyboard_click {
                    Some(click) => click,
                    None => usual.keyboard_click,
                };
                (Prefs { keyboard_click }, File::Keep)
            },
        }
    }
}

/// A choice survives the session that made it.
pub proof fn a_choice_survives(prefs: Prefs)
    ensures
        Prefs::given(Stored::of(prefs)) == prefs,
{
}

/// Nothing that is missing, broken or left unsaid turns the click off: only a file that says so
/// does.
pub proof fn the_click_is_on_unless_it_was_turned_off(stored: Stored)
    ensures
        !Prefs::given(stored).keyboard_click <==> stored == (Stored::Read {
            keyboard_click: Some(false),
        }),
{
}

} // verus!
