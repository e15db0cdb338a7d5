//! The wearer's microphone, sent up to a host that is listening.
//!
//! **Only while the host is listening.** The host asks for it when one of its applications
//! opens a capture stream and withdraws the request when the last one closes — so a microphone
//! in this room is not open because a program on another machine happens to be running. If the
//! wearer would rather it never was, their preferences settle it and nothing here ever starts.

use vstd::prelude::*;

verus! {

/// Samples a second, the same both ways.
pub const RATE: u32 = 48_000;

/// One channel: a microphone is a voice, and stereo would be the same voice twice.
pub const CHANNELS: u16 = 1;

/// Ten milliseconds, to match the sound coming the other way.
pub const CHUNK_BYTES: usize = 960;

/// What a request about the microphone comes to.
#[derive(Debug, Clone, Copy, PartialEq, Eq, Structural)]
pub enum Change {
    Start,
    Stop,
    Nothing,
}

/// The wearer's microphone, if it is being sent.
#[derive(Debug, Clone, Copy, PartialEq, Eq, Structural)]
pub struct Microphone {
    pub sending: bool,
}

impl Default for Microphone {
    fn default() -> (out: Self)
        ensures
            !out.sending,
    {
        Microphone { sending: false }
    }
}

impl Microphone {
    /// Start or stop sending, as the host asks. Doing either twice is harmless.
    pub fn want(&mut self, wanted: bool) -> (out: Change)
        ensures
            final(self).sending == wanted,
            out == (if wanted && !old(self).sending {
                Change::Start
            } else if !wanted && old(self).sending {
                Change::Stop
            } else {
                Change::Nothing
            }),
    {
        if wanted && !self.sending {
            self.sending = true;
            Change::Start
        } else if !wanted && self.stop() {
            Change::Stop
        } else {
            Change::Nothing
        }
    }

    /// The link has gone; whatever was being captured stops with it. Returns whether anything
    /// was.
    pub fn stop(&mut self) -> (out: bool)
        ensures
            out == old(self).sending,
            !final(self).sending,
    {
        let was = self.sending;
        self.sending = false;
        was
    }
}

/// What came of waiting for the next piece of the recording.
#[derive(Debug, Clone, Copy, PartialEq, Eq, Structural)]
pub enum Waited {
    /// Nothing for a moment: only the chance to notice that the host has stopped asking.
    Nothing,
    /// The recording ended.
    Closed,
    /// A piece, and whether the host took it.
    Piece { taken: bool },
}

/// How the sending of a recording goes on.
#[derive(Debug, Clone, Copy, PartialEq, Eq, Structural)]
pub enum Sending {
    GoesOn,
    /// The host stopped asking.
    Ends,
    /// The recording ended.
    MicrophoneClosed,
    /// The host would not take any more.
    HostStopped,
}

/// How sending goes on after one wait for the recording.
///
/// Asked to stop, it stops before it looks at anything else.
pub fn carry_on(stop: bool, waited: Waited) -> (out: Sending)
    ensures
        out == (if stop {
            Sending::Ends
        } else {
            match waited {
                Waited::Nothing => Sending::GoesOn,
                Waited::Closed => Sending::MicrophoneClosed,
                Waited::Piece { taken } => if taken {
                    Sending::GoesOn
                } else {
                    Sending::HostStopped
                },
            }
        }),
{
    if stop {
        return Sending::Ends;
    }
    match waited {
        Waited::Nothing => Sending::GoesOn,
        Waited::Closed => Sending::MicrophoneClosed,
        Waited::Piece { taken } => if taken {
            Sending::GoesOn
        } else {
            Sending::HostStopped
        },
    }
}

} // verus!
