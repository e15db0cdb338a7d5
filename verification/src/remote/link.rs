//! Keeping a host's windows in the room for as long as the session runs.
//!
//! **Reconnects for ever**, with a growing pause. A host that is asleep, rebooting or out of
//! range is the normal case for something that runs on another machine, and the wearer should
//! not have to do anything for its windows to come back when it does: its applications never
//! stopped, so neither should this.

use vstd::prelude::*;
use crate::remote::hosts::Link;
use crate::text::{chars, decimal, push_all, push_str, same, string, to_decimal};

verus! {

/// The shortest a lost link waits before it is tried again, in milliseconds.
pub const FIRST_PAUSE: u64 = 1_000;

/// The longest.
pub const LAST_PAUSE: u64 = 20_000;

/// Why a connection ended.
#[derive(Debug)]
pub enum Ended {
    /// The session is closing; do not come back.
    Stopped,
    /// The link went. Try again.
    Lost(String),
    /// The host answered and would not have this headset.
    Refused(String),
    /// The compositor side is gone, so there is nothing to show windows on.
    NoCompositor(String),
}

/// What to do once a connection has ended.
#[derive(Debug)]
pub enum Next {
    /// Nothing more, ever. The reason is worth a line in the log, where there is one.
    Stop(Option<String>),
    /// Show the link like this, say why if it has not been said, wait, and try again.
    Retry { link: Link, say: bool, pause: u64 },
}

/// When a host is tried again, and what has been said about it.
#[derive(Debug)]
pub struct Reconnect {
    /// How long the next wait is, in milliseconds.
    pub pause: u64,
    /// The reason last said.
    pub last_said: String,
}

/// Twice as long, and never longer than the longest.
pub open spec fn doubled(pause: u64) -> u64 {
    if pause * 2 > LAST_PAUSE {
        LAST_PAUSE
    } else {
        (pause * 2) as u64
    }
}

impl Reconnect {
    /// Never impatient, and never asleep for long.
    pub open spec fn wf(self) -> bool {
        FIRST_PAUSE <= self.pause <= LAST_PAUSE
    }

    pub fn new() -> (out: Reconnect)
        ensures
            out.wf(),
            out.pause == FIRST_PAUSE,
            out.last_said@.len() == 0,
    {
        Reconnect { pause: FIRST_PAUSE, last_said: String::new() }
    }

    /// The host answered: the next wait is a short one, and whatever goes wrong next is news.
    pub fn connected(&mut self)
        ensures
            final(self).wf(),
            final(self).pause == FIRST_PAUSE,
            final(self).last_said@.len() == 0,
    {
        self.pause = FIRST_PAUSE;
        self.last_said = String::new();
    }

    /// A connection has ended, or could not be made.
    ///
    /// A reason is said once, not once per attempt: a host that is off for a night would
    /// otherwise write a line every twenty seconds until morning.
    pub fn ended(&mut self, ended: Ended) -> (out: Next)
        requires
            old(self).wf(),
        ensures
            final(self).wf(),
            match ended {
                Ended::Stopped => out == Next::Stop(None::<String>) && *final(self) == *old(self),
                Ended::NoCompositor(e) => out == Next::Stop(Some(e)) && *final(self) == *old(self),
                Ended::Lost(reason) => {
                    &&& out matches Next::Retry { link, say, pause } && link == Link::Offline(reason)
                        && say == (reason@ != old(self).last_said@) && pause == old(self).pause
                    &&& final(self).last_said@ == reason@
                    &&& final(self).pause == doubled(old(self).pause)
                },
                Ended::Refused(reason) => {
                    &&& out matches Next::Retry { link, say, pause } && link == Link::Refused(reason)
                        && say == (reason@ != old(self).last_said@) && pause == old(self).pause
                    &&& final(self).last_said@ == reason@
                    &&& final(self).pause == doubled(old(self).pause)
                },
            },
    {
        match ended {
            Ended::Stopped => Next::Stop(None),
            Ended::NoCompositor(e) => Next::Stop(Some(e)),
            Ended::Lost(reason) => {
                let (say, pause) = self.retry(&reason);
                Next::Retry { link: Link::Offline(reason), say, pause }
            },
            Ended::Refused(reason) => {
                let (say, pause) = self.retry(&reason);
                Next::Retry { link: Link::Refused(reason), say, pause }
            },
        }
    }

    fn retry(&mut self, reason: &String) -> (out: (bool, u64))
        requires
            old(self).wf(),
        ensures
            final(self).wf(),
            out.0 == (reason@ != old(self).last_said@),
            out.1 == old(self).pause,
            final(self).last_said@ == reason@,
            final(self).pause == doubled(old(self).pause),
    {
        let new = chars(reason.as_str());
        let old_said = chars(self.last_said.as_str());
        let say = !same(new.as_slice(), old_said.as_slice());
        if say {
            self.last_said = reason.clone();
        }
        let pause: u64 = self.pause;
        self.pause = if pause * 2 > LAST_PAUSE {
            LAST_PAUSE
        } else {
            pause * 2
        };
        (say, pause)
    }
}

/// How long the wait is after `n` failures in a row.
pub open spec fn pause_after(n: nat) -> u64
    decreases n,
{
    if n == 0 {
        FIRST_PAUSE
    } else {
        doubled(pause_after((n - 1) as nat))
    }
}

/// However often a host cannot be reached, it is tried again, at least every twenty seconds: from
/// the fifth failure on every wait is the longest one.
pub proof fn a_host_is_always_tried_again(n: nat)
    ensures
        FIRST_PAUSE <= pause_after(n) <= LAST_PAUSE,
        n >= 5 ==> pause_after(n) == LAST_PAUSE,
    decreases n,
{
    if n > 0 {
        a_host_is_always_tried_again((n - 1) as nat);
    }
    reveal_with_fuel(pause_after, 6);
}

/// Each wait is twice the last, until that would be longer than the longest: one second, two, four,
/// eight, sixteen, and twenty from then on.
pub proof fn each_wait_is_twice_the_last(n: nat)
    ensures
        pause_after(0) == 1_000,
        2 * pause_after(n) <= 20_000 ==> pause_after(n + 1) == 2 * pause_after(n),
        2 * pause_after(n) > 20_000 ==> pause_after(n + 1) == 20_000,
{
}

/// Why a link that closed did.
#[derive(Debug)]
pub enum Closed {
    TimedOut,
    /// The other end gave a reason.
    Because(String),
    /// Only the control stream ended.
    Quietly,
}

/// What to say of a link that closed.
pub open spec fn closed_text(closed: Closed, idle_timeout_ms: nat) -> Seq<char> {
    match closed {
        Closed::TimedOut => "the link went quiet for "@ + decimal(idle_timeout_ms / 1000)
            + " s and was given up on"@,
        Closed::Because(reason) => "the host closed the link: "@ + reason@,
        Closed::Quietly => "the host closed the control stream"@,
    }
}

/// What to say of a link that closed: which it was. Whether the host had gone, refused us, or the
/// link had simply timed out are three different faults with three different fixes.
pub fn closed_reason(closed: &Closed, idle_timeout_ms: u64) -> (out: String)
    ensures
        out@ == closed_text(*closed, idle_timeout_ms as nat),
{
    let mut out: Vec<char> = Vec::new();
    match closed {
        Closed::TimedOut => {
            out = chars("the link went quiet for ");
            let seconds = to_decimal(idle_timeout_ms / 1000);
            push_all(&mut out, seconds.as_slice());
            push_str(&mut out, " s and was given up on");
        },
        Closed::Because(reason) => {
            out = chars("the host closed the link: ");
            push_str(&mut out, reason.as_str());
        },
        Closed::Quietly => {
            out = chars("the host closed the control stream");
        },
    }
    string(out.as_slice())
}

/// What to say of a host that would not open the first exchange: one that does not know this
/// headset lets the handshake finish and refuses there.
pub fn refused_reason(error: &str) -> (out: String)
    ensures
        out@ == "the host would not talk to this headset ("@ + error@ + "); pair it again"@,
{
    let mut out = chars("the host would not talk to this headset (");
    push_str(&mut out, error);
    push_str(&mut out, "); pair it again");
    string(out.as_slice())
}

} // verus!
