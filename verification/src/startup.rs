//! What the panel says while the glasses are still dark.
//!
//! Starting a session takes about six seconds on the Deck, and for all of them both screens
//! are black. That reads as a machine that has hung, not one that is working — and the first
//! thing anyone does with a black screen is press something, which is the one input most
//! likely to make it worse. So the panel says what is happening, stage by stage.
//!
//! The sidecar is itself one of the stages, so nothing can be drawn before it exists. The
//! stages before it are listed here anyway, because the progress needs a denominator and
//! "step 2 of 3" would understate a wait the wearer is timing with their patience.

use vstd::prelude::*;

verus! {

/// One stage of bringing a session up, in the order they happen.
#[derive(Clone, Copy, PartialEq, Eq, Debug, Structural)]
pub enum Stage {
    Graphics,
    Environment,
    Headset,
    Sidecar,
    Link,
    Stereo,
    World,
}

/// Every stage, in order.
pub open spec fn every_stage() -> Seq<Stage> {
    seq![
        Stage::Graphics,
        Stage::Environment,
        Stage::Headset,
        Stage::Sidecar,
        Stage::Link,
        Stage::Stereo,
        Stage::World,
    ]
}

/// Every stage, in order.
pub fn stages() -> (out: [Stage; 7])
    ensures
        out@ == every_stage(),
{
    let out = [
        Stage::Graphics,
        Stage::Environment,
        Stage::Headset,
        Stage::Sidecar,
        Stage::Link,
        Stage::Stereo,
        Stage::World,
    ];
    assert(out@ =~= every_stage());
    out
}

/// The longest a label may be.
///
/// The panel is 800 px across in portrait and the text is set large enough to read at arm's
/// length on a screen resting beside you, so this is narrow. A label that wraps is not broken,
/// it just stops being a glance.
pub const MAX_LABEL: usize = 26;

impl Stage {
    /// What this stage tells the wearer it is doing.
    pub open spec fn says(self) -> Seq<char> {
        match self {
            Stage::Graphics => "Starting the graphics"@,
            Stage::Environment => "Loading the room"@,
            Stage::Headset => "Finding the glasses"@,
            Stage::Sidecar => "Waking this panel"@,
            Stage::Link => "Bringing up the display"@,
            Stage::Stereo => "Asking the glasses for 3D"@,
            Stage::World => "Building the world"@,
        }
    }

    /// What to tell the wearer this stage is doing.
    ///
    /// Present tense and plain. "Initialising display subsystem" tells someone waiting nothing
    /// they can act on; "Asking the glasses for 3D" at least says which box is busy, and if it
    /// stops there the message is the diagnosis.
    pub fn label(self) -> (out: &'static str)
        ensures
            out@ == self.says(),
    {
        match self {
            Stage::Graphics => "Starting the graphics",
            Stage::Environment => "Loading the room",
            Stage::Headset => "Finding the glasses",
            Stage::Sidecar => "Waking this panel",
            Stage::Link => "Bringing up the display",
            // Named for what it is waiting on, because this is the long one and the one that
            // fails. A wearer stuck here has glasses that answered over USB and will not
            // switch modes, which is a real fault with a real fix -- a different cable.
            Stage::Stereo => "Asking the glasses for 3D",
            Stage::World => "Building the world",
        }
    }

    /// How far through this is, counting from one.
    pub open spec fn place(self) -> nat {
        match self {
            Stage::Graphics => 1,
            Stage::Environment => 2,
            Stage::Headset => 3,
            Stage::Sidecar => 4,
            Stage::Link => 5,
            Stage::Stereo => 6,
            Stage::World => 7,
        }
    }

    /// How far through this is, counting from one.
    pub fn step(self) -> (out: usize)
        ensures
            out == self.place(),
            every_stage()[out - 1] == self,
    {
        match self {
            Stage::Graphics => 1,
            Stage::Environment => 2,
            Stage::Headset => 3,
            Stage::Sidecar => 4,
            Stage::Link => 5,
            Stage::Stereo => 6,
            Stage::World => 7,
        }
    }
}

/// Every label fits on the panel, and none reads like a prompt: these appear while the wearer can do
/// nothing but wait.
pub proof fn every_label_fits(stage: Stage)
    ensures
        0 < stage.says().len() <= MAX_LABEL,
        stage.says().last() != '.',
        forall|i: int| 0 <= i < stage.says().len() ==> #[trigger] stage.says()[i] != '?',
{
    reveal_strlit("Starting the graphics");
    reveal_strlit("Loading the room");
    reveal_strlit("Finding the glasses");
    reveal_strlit("Waking this panel");
    reveal_strlit("Bringing up the display");
    reveal_strlit("Asking the glasses for 3D");
    reveal_strlit("Building the world");
}

/// The steps run from one to the end, each stage at its own place, so a progress bar built from them
/// never goes backwards.
pub proof fn the_steps_run_in_order(i: int)
    requires
        0 <= i < every_stage().len(),
    ensures
        every_stage()[i].place() == i + 1,
{
}

/// No two stages say the same thing: what is on the screen says which of them is busy.
pub proof fn each_stage_says_its_own_thing(one: Stage, other: Stage)
    requires
        one != other,
    ensures
        one.says() != other.says(),
        one.place() != other.place(),
{
    reveal_strlit("Starting the graphics");
    reveal_strlit("Loading the room");
    reveal_strlit("Finding the glasses");
    reveal_strlit("Waking this panel");
    reveal_strlit("Bringing up the display");
    reveal_strlit("Asking the glasses for 3D");
    reveal_strlit("Building the world");
    assert(one.says().len() != other.says().len());
}

} // verus!
