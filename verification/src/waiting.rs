//! What the panel says when there is no world to show.
//!
//! A pair of glasses is two devices sharing one cable — a USB device carrying the IMU and the
//! control channel, and a DisplayPort sink carrying the picture — and they fail independently.
//! So "can the wearer see anything" has more than one negative answer, and the answers need
//! different words: one is fixed by plugging the glasses in, and the other is fixed by a
//! *different cable* while the glasses look, by every sign the wearer can check, already
//! plugged in.

use vstd::prelude::*;
use crate::text::{chars, push_str, string};

verus! {

/// What is stopping the world from being shown, when something is.
#[derive(Clone, Copy, PartialEq, Eq, Debug, Structural)]
pub enum Missing {
    /// Nothing is plugged in.
    Headset,
    /// The headset answered over USB, but no display came with it.
    Picture,
}

/// The longest a line may be.
///
/// The panel wraps on width, so nothing here *breaks* if a line runs long — it just wraps
/// somewhere the writing did not intend, and a sentence that folds mid-phrase reads as a bug in
/// the layout. Held to a width that fits the Deck's own panel, which is the screen these are
/// actually read on: the glasses, by definition, are not showing anything when they appear.
pub const MAX_LINE: usize = 34;

/// The offer of a way out.
pub open spec fn offer(has_controller: bool, had_headset: bool) -> Seq<char> {
    if !has_controller {
        ""@
    } else if had_headset {
        "\n\nHold any button for 2s\nto end the session."@
    } else {
        "\n\nHold any button for 2s\nto return to the desktop."@
    }
}

/// The offer of a way out, appended to whatever the screen is already saying.
///
/// Always a hold, never a press. The cost of leaving is not what makes an accidental exit feel like
/// a fault. Not having meant it is, and that is the same whether or not any windows were open.
/// Spatiand is also *started* with a button, so a press is the one input guaranteed to be arriving
/// at the moment this screen appears.
///
/// Empty when there is no controller to hold: an instruction naming hardware that is not
/// attached is worse than saying nothing.
pub fn exit_hint(has_controller: bool, had_headset: bool) -> (out: &'static str)
    ensures
        out@ == offer(has_controller, had_headset),
{
    match (has_controller, had_headset) {
        // The wording differs because the stakes do. With windows open this ends a session and
        // takes them with it; with nothing open it is simply a way back out.
        (true, true) => "\n\nHold any button for 2s\nto end the session.",
        (true, false) => "\n\nHold any button for 2s\nto return to the desktop.",
        (false, _) => "",
    }
}

/// What the screen says before any offer.
pub open spec fn said(missing: Missing, had_headset: bool) -> Seq<char> {
    match missing {
        Missing::Picture => "Glasses connected, but dark\n\nHead tracking works, so the USB\nside is fine — but no display\ncame with it, and there is\nnowhere to put the world.\n\nReseat the cable, or turn the\nplug over. A cable that carries\nonly data will do this too.\n\nStill dark? Shut the Deck fully\ndown — not restart. The USB-C\nport can stop offering video\nuntil it has been powered off."@,
        Missing::Headset => if had_headset {
            "Glasses disconnected\n\nYour windows are still open.\n\nSpatiand is waiting for the\nglasses to come back — plug\nthem in again and this screen\nwill hand over to them."@
        } else {
            "Plug in your XR glasses\n\nSpatiand is waiting.\n\nConnect XREAL Air glasses\nover USB-C and this screen\nwill hand over to them."@
        },
    }
}

fn plain(missing: Missing, had_headset: bool) -> (out: &'static str)
    ensures
        out@ == said(missing, had_headset),
{
    match missing {
        // The half-connected case, and the one that needs the most explaining: by every sign
        // the wearer can check, the glasses *are* plugged in. The head tracking even works.
        // Saying "connect your glasses" here would be telling them to do what they have done.
        Missing::Picture => "Glasses connected, but dark\n\nHead tracking works, so the USB\nside is fine — but no display\ncame with it, and there is\nnowhere to put the world.\n\nReseat the cable, or turn the\nplug over. A cable that carries\nonly data will do this too.\n\nStill dark? Shut the Deck fully\ndown — not restart. The USB-C\nport can stop offering video\nuntil it has been powered off.",
        Missing::Headset => if had_headset {
            "Glasses disconnected\n\nYour windows are still open.\n\nSpatiand is waiting for the\nglasses to come back — plug\nthem in again and this screen\nwill hand over to them."
        } else {
            "Plug in your XR glasses\n\nSpatiand is waiting.\n\nConnect XREAL Air glasses\nover USB-C and this screen\nwill hand over to them."
        },
    }
}

/// What to say, given which half is missing and whether there is anything open to lose. An offer of
/// a way out is appended rather than replacing anything.
pub fn message(missing: Missing, had_headset: bool, exit_hint: &str) -> (out: String)
    ensures
        out@ == said(missing, had_headset) + exit_hint@,
{
    let mut text = chars(plain(missing, had_headset));
    push_str(&mut text, exit_hint);
    string(text.as_slice())
}

/// Whether a line ends within as many characters as fit on the panel.
pub open spec fn breaks_in(s: Seq<char>, i: int) -> bool {
    exists|j: int| i <= j <= i + MAX_LINE && #[trigger] s[j] == '\n'
}

/// Whether no line of a text is longer than the panel can set it: wherever one starts, with more
/// than that many characters left, a line ends in time.
pub open spec fn fits_the_panel(s: Seq<char>) -> bool {
    forall|i: int| 0 <= i < s.len() - MAX_LINE ==> #[trigger] breaks_in(s, i)
}

proof fn lemma_dark(had: bool)
    ensures
        fits_the_panel(said(Missing::Picture, had)),
{
    reveal_strlit(
        "Glasses connected, but dark\n\nHead tracking works, so the USB\nside is fine — but no display\ncame with it, and there is\nnowhere to put the world.\n\nReseat the cable, or turn the\nplug over. A cable that carries\nonly data will do this too.\n\nStill dark? Shut the Deck fully\ndown — not restart. The USB-C\nport can stop offering video\nuntil it has been powered off.",
    );
    let s = said(Missing::Picture, had);
    assert forall|i: int| 0 <= i < s.len() - MAX_LINE implies #[trigger] breaks_in(s, i) by {
        if i <= 28 {
            assert(s[28] == '\n');
        } else if i <= 60 {
            assert(s[60] == '\n');
        } else if i <= 90 {
            assert(s[90] == '\n');
        } else if i <= 117 {
            assert(s[117] == '\n');
        } else if i <= 144 {
            assert(s[144] == '\n');
        } else if i <= 174 {
            assert(s[174] == '\n');
        } else if i <= 206 {
            assert(s[206] == '\n');
        } else if i <= 235 {
            assert(s[235] == '\n');
        } else if i <= 267 {
            assert(s[267] == '\n');
        } else if i <= 297 {
            assert(s[297] == '\n');
        } else {
            assert(s[326] == '\n');
        }
    }
}

proof fn lemma_disconnected()
    ensures
        fits_the_panel(said(Missing::Headset, true)),
{
    reveal_strlit(
        "Glasses disconnected\n\nYour windows are still open.\n\nSpatiand is waiting for the\nglasses to come back — plug\nthem in again and this screen\nwill hand over to them.",
    );
    let s = said(Missing::Headset, true);
    assert forall|i: int| 0 <= i < s.len() - MAX_LINE implies #[trigger] breaks_in(s, i) by {
        if i <= 21 {
            assert(s[21] == '\n');
        } else if i <= 51 {
            assert(s[51] == '\n');
        } else if i <= 79 {
            assert(s[79] == '\n');
        } else if i <= 107 {
            assert(s[107] == '\n');
        } else {
            assert(s[137] == '\n');
        }
    }
}

proof fn lemma_unplugged()
    ensures
        fits_the_panel(said(Missing::Headset, false)),
{
    reveal_strlit(
        "Plug in your XR glasses\n\nSpatiand is waiting.\n\nConnect XREAL Air glasses\nover USB-C and this screen\nwill hand over to them.",
    );
    let s = said(Missing::Headset, false);
    assert forall|i: int| 0 <= i < s.len() - MAX_LINE implies #[trigger] breaks_in(s, i) by {
        if i <= 24 {
            assert(s[24] == '\n');
        } else if i <= 46 {
            assert(s[46] == '\n');
        } else if i <= 72 {
            assert(s[72] == '\n');
        } else {
            assert(s[99] == '\n');
        }
    }
}

/// No line is wider than the panel can set it, whatever is missing and whatever is offered.
pub proof fn no_line_is_wider_than_the_panel(
    missing: Missing,
    had_headset: bool,
    has_controller: bool,
)
    ensures
        fits_the_panel(said(missing, had_headset) + offer(has_controller, had_headset)),
{
    reveal_strlit("");
    reveal_strlit("\n\nHold any button for 2s\nto end the session.");
    reveal_strlit("\n\nHold any button for 2s\nto return to the desktop.");
    let before = said(missing, had_headset);
    let after = offer(has_controller, had_headset);
    let s = before + after;
    let n: int = before.len() as int;
    assert(fits_the_panel(before)) by {
        lemma_dark(had_headset);
        lemma_disconnected();
        lemma_unplugged();
    }
    assert forall|i: int| 0 <= i < s.len() - MAX_LINE implies #[trigger] breaks_in(s, i) by {
        if i < n - MAX_LINE {
            assert(breaks_in(before, i));
            let j = choose|j: int| i <= j <= i + MAX_LINE && #[trigger] before[j] == '\n';
            assert(s[j] == '\n');
        } else if i <= n {
            assert(s[n] == after[0]);
        } else {
            assert(s[n + 24] == after[24]);
        }
    }
}

/// Leaving is never offered as a single press: every offer is of a hold.
pub proof fn leaving_is_always_a_hold(had_headset: bool)
    ensures
        offer(true, had_headset).subrange(2, 6) == "Hold"@,
        offer(false, had_headset).len() == 0,
{
    reveal_strlit("");
    reveal_strlit("Hold");
    reveal_strlit("\n\nHold any button for 2s\nto end the session.");
    reveal_strlit("\n\nHold any button for 2s\nto return to the desktop.");
    assert(offer(true, had_headset).subrange(2, 6) =~= "Hold"@);
}

} // verus!
