//! One remote window's frames, from the link to the decoder to the room.
//!
//! * **Decode every frame; show only the newest.** A compressed frame is not a picture, it is
//!   the *difference* from the one before, so skipping one to save time corrupts every frame
//!   after it until the next keyframe. What may be skipped is *showing* a picture that a newer
//!   one has already overtaken.
//! * **Never feed a decoder a frame with a hole in it**, or anything after one. A missing piece
//!   loses its frame and asks the host for a keyframe, and until that keyframe arrives nothing
//!   is decoded at all: the window keeps its last good picture rather than a broken new one.

use std::collections::VecDeque;
use vstd::prelude::*;

verus! {

/// How many frames may wait to be decoded before it is cheaper to start again from a
/// keyframe. Half a second at the glasses' rate: beyond that the wearer is watching the past.
pub const BACKLOG: usize = 36;

/// How long a stream waits for a keyframe before it asks again, in nanoseconds.
pub const ASK_EVERY: u64 = 500_000_000;

/// How many of a window's buffers the compositor may hold before another picture would only
/// queue behind them.
pub const HELD: usize = 2;

/// One compressed frame, whole.
#[derive(Debug)]
pub struct Frame {
    /// The host numbers each window's frames one after another.
    pub number: u32,
    pub keyframe: bool,
    /// When the host captured it, in microseconds of the host's clock.
    pub captured: u64,
    pub bytes: Vec<u8>,
}

/// What there is to do next for a stream.
#[derive(Debug)]
pub enum Turn {
    Decode(Frame),
    Show(u64),
    Rest,
}

/// The number after this one. Numbers run round.
pub open spec fn following(n: u32) -> u32 {
    if n == u32::MAX {
        0
    } else {
        (n + 1) as u32
    }
}

/// One remote window's stream.
pub struct Stream {
    /// Every frame that has arrived and not been decoded yet, oldest first. All of them get
    /// decoded; see the module notes.
    pub queue: VecDeque<Frame>,
    /// Something was lost, so nothing can be decoded correctly until a keyframe arrives.
    pub broken: bool,
    /// The number the next frame should carry. A frame carrying any other number means one went
    /// missing whole — every piece lost, which nothing else can see, since it never heard of it.
    pub expected: Option<u32>,
    /// Frames found missing that way.
    pub gaps: u64,
    /// When a keyframe was last asked for, so a stream waiting for one keeps asking.
    pub asked: Option<u64>,
    /// The newest decoded picture, not yet shown because the compositor had no room. Kept so
    /// a window that goes still still ends on its last frame.
    pub unshown: Option<u64>,
    /// Pictures decoded and never shown, because a newer one overtook them.
    pub dropped: u64,
    /// Frames thrown away undecoded while waiting for a keyframe.
    pub skipped: u64,
    pub shown: u64,
    /// The number of the frame the decoder was last given.
    pub fed: Ghost<Option<u32>>,
}

impl Stream {
    /// Whether a frame follows straight on from the one the decoder was last given.
    pub open spec fn follows(fed: Option<u32>, frame: Frame) -> bool {
        frame.keyframe || (fed matches Some(last) && frame.number == following(last))
    }

    /// What waits to be decoded can be decoded.
    ///
    /// While something is missing, nothing waits. Otherwise each frame that waits follows on
    /// from the one before it, the first of them from what the decoder has had, and the number
    /// expected next is the one after the last.
    pub open spec fn wf(self) -> bool {
        if self.broken {
            self.queue@.len() == 0
        } else if self.queue@.len() == 0 {
            self.fed@ matches Some(last) && self.expected == Some(following(last))
        } else {
            &&& Self::follows(self.fed@, self.queue@[0])
            &&& forall|i: int|
                1 <= i < self.queue@.len() ==> (#[trigger] self.queue@[i]).number == following(
                    self.queue@[i - 1].number,
                )
            &&& self.expected == Some(following(self.queue@.last().number))
            &&& self.queue@.len() <= BACKLOG
        }
    }

    /// Whether the counters have room for one more of anything.
    pub open spec fn has_room(self) -> bool {
        &&& self.skipped + self.queue@.len() + 1 <= u64::MAX
        &&& self.gaps < u64::MAX
        &&& self.dropped < u64::MAX
        &&& self.shown < u64::MAX
    }

    /// A stream that has just been announced. Nothing has been decoded yet, so the first thing
    /// decodable is a keyframe.
    pub fn new() -> (out: Stream)
        ensures
            out.wf(),
            out.broken,
            out.queue@.len() == 0,
            out.expected is None,
            out.asked is None,
            out.unshown is None,
            out.gaps == 0 && out.dropped == 0 && out.skipped == 0 && out.shown == 0,
            out.fed@ is None,
    {
        Stream {
            queue: VecDeque::new(),
            broken: true,
            expected: None,
            gaps: 0,
            asked: None,
            unshown: None,
            dropped: 0,
            skipped: 0,
            shown: 0,
            fed: Ghost(None),
        }
    }

    /// Whether a frame's number says that one went missing before it.
    pub open spec fn gap(self, frame: Frame) -> bool {
        self.expected matches Some(n) && n != frame.number
    }

    /// What a frame that has arrived whole does to a stream, and whether it asks for a keyframe.
    ///
    /// A keyframe starts afresh: everything before it is irrelevant to everything after it, so a
    /// backlog can go. While something is missing anything else is skipped. A hole in the
    /// numbering, or a backlog too long to catch up with, loses what was waiting too.
    pub open spec fn arrives(self, frame: Frame, now: u64, after: Stream, ask: bool) -> bool {
        &&& after.expected == Some(following(frame.number))
        &&& after.unshown == self.unshown
        &&& after.dropped == self.dropped
        &&& after.shown == self.shown
        &&& after.fed == self.fed
        &&& if frame.keyframe {
            &&& !ask
            &&& !after.broken
            &&& after.queue@ == seq![frame]
            &&& after.skipped == self.skipped + self.queue@.len()
            &&& after.gaps == self.gaps
            &&& after.asked == self.asked
        } else if self.broken {
            &&& !ask
            &&& after.broken
            &&& after.queue@ == self.queue@
            &&& after.skipped == self.skipped + 1
            &&& after.gaps == self.gaps
            &&& after.asked == self.asked
        } else if self.gap(frame) {
            &&& ask
            &&& after.broken
            &&& after.queue@.len() == 0
            &&& after.skipped == self.skipped + self.queue@.len() + 1
            &&& after.gaps == self.gaps + 1
            &&& after.asked == Some(now)
        } else if self.queue@.len() >= BACKLOG {
            &&& ask
            &&& after.broken
            &&& after.queue@.len() == 0
            &&& after.skipped == self.skipped + self.queue@.len() + 1
            &&& after.gaps == self.gaps
            &&& after.asked == self.asked
        } else {
            &&& !ask
            &&& !after.broken
            &&& after.queue@ == self.queue@.push(frame)
            &&& after.skipped == self.skipped
            &&& after.gaps == self.gaps
            &&& after.asked == self.asked
        }
    }

    /// What losing a frame does to a stream: what was waiting is thrown away, and nothing is
    /// decoded until a keyframe comes.
    pub open spec fn loses(self, after: Stream) -> bool {
        &&& after.broken
        &&& after.queue@.len() == 0
        &&& after.skipped == self.skipped + self.queue@.len()
        &&& after.expected == self.expected
        &&& after.gaps == self.gaps
        &&& after.asked == self.asked
        &&& after.unshown == self.unshown
        &&& after.dropped == self.dropped
        &&& after.shown == self.shown
        &&& after.fed == self.fed
    }

    /// Whether a stream is as it was but for when it last asked.
    pub open spec fn only_asked(self, after: Stream) -> bool {
        &&& after.queue == self.queue
        &&& after.broken == self.broken
        &&& after.expected == self.expected
        &&& after.gaps == self.gaps
        &&& after.unshown == self.unshown
        &&& after.dropped == self.dropped
        &&& after.skipped == self.skipped
        &&& after.shown == self.shown
        &&& after.fed == self.fed
    }

    /// A frame has arrived whole. Returns whether to ask the host for a keyframe.
    pub fn arrive(&mut self, frame: Frame, now: u64) -> (ask: bool)
        requires
            old(self).wf(),
            old(self).has_room(),
        ensures
            final(self).wf(),
            old(self).arrives(frame, now, *final(self), ask),
    {
        let gap = match self.expected {
            Some(n) => n != frame.number,
            None => false,
        };
        self.expected = Some(frame.number.wrapping_add(1));
        assert(self.expected == Some(following(frame.number)));
        if frame.keyframe {
            self.skipped = self.skipped + self.queue.len() as u64;
            self.queue.clear();
            self.broken = false;
            self.queue.push_back(frame);
            assert(self.queue@ =~= seq![frame]);
            return false;
        }
        if self.broken {
            self.skipped = self.skipped + 1;
            return false;
        }
        if gap {
            self.gaps = self.gaps + 1;
            self.skipped = self.skipped + self.queue.len() as u64 + 1;
            self.queue.clear();
            self.broken = true;
            self.asked = Some(now);
            return true;
        }
        if self.queue.len() >= BACKLOG {
            // Too far behind to catch up by decoding: start again.
            self.skipped = self.skipped + self.queue.len() as u64 + 1;
            self.queue.clear();
            self.broken = true;
            return true;
        }
        self.queue.push_back(frame);
        false
    }

    /// Throw away what is waiting, and wait for a keyframe.
    fn give_up(&mut self)
        requires
            old(self).has_room(),
        ensures
            final(self).wf(),
            old(self).loses(*final(self)),
    {
        self.skipped = self.skipped + self.queue.len() as u64;
        self.queue.clear();
        self.broken = true;
    }

    /// A piece of a frame was lost, and the frame with it. The host is asked for a keyframe.
    pub fn lost(&mut self)
        requires
            old(self).has_room(),
        ensures
            final(self).wf(),
            old(self).loses(*final(self)),
    {
        self.give_up();
    }

    /// The decoder would not take a frame. The host is asked for a keyframe.
    pub fn undecodable(&mut self)
        requires
            old(self).has_room(),
        ensures
            final(self).wf(),
            old(self).loses(*final(self)),
    {
        self.give_up();
    }

    /// Whether a stream that is waiting for a keyframe should ask for it (again) now.
    pub open spec fn asks(self, now: u64) -> bool {
        self.broken && (self.asked matches Some(at) ==> now - at >= ASK_EVERY)
    }

    /// **A stream without a keyframe asks for one, and keeps asking.** A keyframe can overtake
    /// the message saying the stream exists, arrive for a window this session does not know yet,
    /// and be thrown away; waiting for the next one then waits for ever. Asking costs one small
    /// message every half second, and only while a picture is actually missing.
    pub fn ask(&mut self, now: u64) -> (ask: bool)
        requires
            old(self).wf(),
        ensures
            final(self).wf(),
            ask == old(self).asks(now),
            final(self).asked == (if ask {
                Some(now)
            } else {
                old(self).asked
            }),
            old(self).only_asked(*final(self)),
    {
        if !self.broken {
            return false;
        }
        let due = match self.asked {
            Some(at) => at <= now && now - at >= ASK_EVERY,
            None => true,
        };
        if due {
            self.asked = Some(now);
        }
        due
    }

    /// The next frame to decode, oldest first.
    ///
    /// It is a keyframe, or it follows straight on from the frame decoded before it: a decoder
    /// is never fed a frame with a hole in front of it.
    pub fn next(&mut self) -> (out: Option<Frame>)
        requires
            old(self).wf(),
        ensures
            final(self).wf(),
            out is None <==> old(self).queue@.len() == 0,
            out is None ==> *final(self) == *old(self),
            out matches Some(frame) ==> {
                &&& frame == old(self).queue@[0]
                &&& Self::follows(old(self).fed@, frame)
                &&& final(self).fed@ == Some(frame.number)
                &&& final(self).queue@ == old(self).queue@.skip(1)
            },
            final(self).broken == old(self).broken,
            final(self).expected == old(self).expected,
            final(self).gaps == old(self).gaps,
            final(self).asked == old(self).asked,
            final(self).unshown == old(self).unshown,
            final(self).dropped == old(self).dropped,
            final(self).skipped == old(self).skipped,
            final(self).shown == old(self).shown,
    {
        let ghost was = self.queue@;
        if self.queue.len() == 0 {
            return None;
        }
        match self.queue.pop_front() {
            Some(frame) => {
                assert(self.queue@ =~= was.skip(1));
                proof {
                    self.fed@ = Some(frame.number);
                }
                assert forall|i: int| 1 <= i < self.queue@.len() implies (
                #[trigger] self.queue@[i]).number == following(self.queue@[i - 1].number) by {
                    assert(was[i + 1].number == following(was[i].number));
                }
                if self.queue.len() > 0 {
                    assert(self.queue@[0] == was[1]);
                    assert(self.queue@.last() == was.last());
                }
                Some(frame)
            },
            None => None,
        }
    }

    /// A picture came out of the decoder. Only the newest is worth showing; the ones it
    /// overtakes are dropped, and counted.
    pub fn picture(&mut self, picture: u64) -> (overtaken: Option<u64>)
        requires
            old(self).wf(),
            old(self).has_room(),
        ensures
            final(self).wf(),
            overtaken == old(self).unshown,
            final(self).unshown == Some(picture),
            final(self).dropped == old(self).dropped + (if overtaken is Some {
                1int
            } else {
                0
            }),
            final(self).queue == old(self).queue,
            final(self).broken == old(self).broken,
            final(self).expected == old(self).expected,
            final(self).gaps == old(self).gaps,
            final(self).asked == old(self).asked,
            final(self).skipped == old(self).skipped,
            final(self).shown == old(self).shown,
            final(self).fed == old(self).fed,
    {
        let overtaken = self.unshown;
        if overtaken.is_some() {
            self.dropped = self.dropped + 1;
        }
        self.unshown = Some(picture);
        overtaken
    }

    /// The picture to show now, if there is one and there is room for it.
    ///
    /// While the compositor is still holding two of this window's buffers, another picture would
    /// only queue behind them — so wait, and **keep the picture**. For a window that has just
    /// gone still no other is coming, and dropping this one would leave the wearer looking at
    /// the one before, for ever.
    pub fn show(&mut self, in_flight: usize) -> (out: Option<u64>)
        requires
            old(self).wf(),
        ensures
            final(self).wf(),
            in_flight >= HELD ==> out is None && *final(self) == *old(self),
            in_flight < HELD ==> out == old(self).unshown && final(self).unshown is None,
            final(self).queue == old(self).queue,
            final(self).broken == old(self).broken,
            final(self).expected == old(self).expected,
            final(self).gaps == old(self).gaps,
            final(self).asked == old(self).asked,
            final(self).dropped == old(self).dropped,
            final(self).skipped == old(self).skipped,
            final(self).shown == old(self).shown,
            final(self).fed == old(self).fed,
    {
        if in_flight >= HELD {
            return None;
        }
        self.unshown.take()
    }

    /// What to do next for this stream.
    ///
    /// Everything that has arrived is decoded, in order, before anything is shown: the frames a
    /// newer one overtakes are built on all the same.
    pub fn turn(&mut self, in_flight: usize) -> (out: Turn)
        requires
            old(self).wf(),
        ensures
            final(self).wf(),
            match out {
                Turn::Decode(frame) => {
                    &&& old(self).queue@.len() > 0
                    &&& frame == old(self).queue@[0]
                    &&& Self::follows(old(self).fed@, frame)
                    &&& final(self).fed@ == Some(frame.number)
                    &&& final(self).queue@ == old(self).queue@.skip(1)
                    &&& final(self).unshown == old(self).unshown
                },
                Turn::Show(picture) => {
                    &&& old(self).queue@.len() == 0
                    &&& in_flight < HELD
                    &&& old(self).unshown == Some(picture)
                    &&& final(self).unshown is None
                    &&& final(self).queue == old(self).queue
                    &&& final(self).fed == old(self).fed
                },
                Turn::Rest => {
                    &&& old(self).queue@.len() == 0
                    &&& in_flight >= HELD || old(self).unshown is None
                    &&& *final(self) == *old(self)
                },
            },
            final(self).broken == old(self).broken,
            final(self).expected == old(self).expected,
            final(self).gaps == old(self).gaps,
            final(self).asked == old(self).asked,
            final(self).dropped == old(self).dropped,
            final(self).skipped == old(self).skipped,
            final(self).shown == old(self).shown,
    {
        if let Some(frame) = self.next() {
            return Turn::Decode(frame);
        }
        if self.unshown.is_none() {
            return Turn::Rest;
        }
        match self.show(in_flight) {
            Some(picture) => Turn::Show(picture),
            None => Turn::Rest,
        }
    }

    /// A picture went on screen.
    pub fn showed(&mut self)
        requires
            old(self).wf(),
            old(self).has_room(),
        ensures
            final(self).wf(),
            final(self).shown == old(self).shown + 1,
            final(self).queue == old(self).queue,
            final(self).broken == old(self).broken,
            final(self).expected == old(self).expected,
            final(self).gaps == old(self).gaps,
            final(self).asked == old(self).asked,
            final(self).unshown == old(self).unshown,
            final(self).dropped == old(self).dropped,
            final(self).skipped == old(self).skipped,
            final(self).fed == old(self).fed,
    {
        self.shown = self.shown + 1;
    }

    /// Whether there is anything to do for this stream: a frame to decode or a picture to show.
    pub fn waiting(&self) -> (out: bool)
        ensures
            out == (self.queue@.len() > 0 || self.unshown is Some),
    {
        self.queue.len() > 0 || self.unshown.is_some()
    }
}

/// Numbers run round: after the largest comes nought, and after any other the next.
pub proof fn numbers_run_round(n: u32)
    ensures
        following(n) == (n + 1) % 0x1_0000_0000,
        following(n) != n,
{
}

/// Every frame is accounted for: one that arrives waits to be decoded or is counted as skipped, and
/// so does every one that was waiting. Nothing about what has been decoded or shown changes.
pub proof fn every_frame_is_accounted_for(
    stream: Stream,
    frame: Frame,
    now: u64,
    after: Stream,
    ask: bool,
)
    requires
        stream.wf(),
        stream.arrives(frame, now, after, ask),
    ensures
        after.queue@.len() + after.skipped == stream.queue@.len() + stream.skipped + 1,
        after.queue@.len() <= BACKLOG,
        after.expected == Some(following(frame.number)),
        after.broken ==> after.queue@.len() == 0,
        after.unshown == stream.unshown && after.shown == stream.shown && after.dropped
            == stream.dropped && after.fed == stream.fed,
{
}

/// A keyframe always mends a stream, and is the next thing to be decoded. Any other frame waits
/// behind what was waiting if nothing is missing: if the stream was whole, the frame is the one
/// that was expected, and there is room for it. Otherwise it does not wait and nothing does, until
/// a keyframe comes.
pub proof fn a_frame_waits_only_where_it_can_be_decoded(
    stream: Stream,
    frame: Frame,
    now: u64,
    after: Stream,
    ask: bool,
)
    requires
        stream.wf(),
        stream.arrives(frame, now, after, ask),
    ensures
        frame.keyframe ==> !after.broken && after.queue@ == seq![frame],
        !frame.keyframe && !stream.broken && stream.expected == Some(frame.number)
            && stream.queue@.len() < BACKLOG ==> !after.broken && after.queue@
            == stream.queue@.push(frame) && !ask,
        !frame.keyframe && (stream.broken || stream.expected != Some(frame.number)
            || stream.queue@.len() >= BACKLOG) ==> after.broken && after.queue@.len() == 0,
{
}

/// The host is asked for a keyframe when a stream breaks, and only then: once, and not again by
/// every frame that comes while it is broken. A hole is counted when it is what broke the stream,
/// and the moment of asking is noted.
pub proof fn a_break_is_asked_about_once(
    stream: Stream,
    frame: Frame,
    now: u64,
    after: Stream,
    ask: bool,
)
    requires
        stream.wf(),
        stream.arrives(frame, now, after, ask),
    ensures
        ask <==> !stream.broken && after.broken,
        after.gaps == stream.gaps + (if !stream.broken && !frame.keyframe && stream.expected
            != Some(frame.number) {
            1int
        } else {
            0
        }),
        after.gaps > stream.gaps ==> after.asked == Some(now),
        after.gaps == stream.gaps ==> after.asked == stream.asked,
{
}

/// A stream that is waiting for a keyframe asks for it straight away, and again every half second;
/// one that is waiting for nothing never asks.
pub proof fn a_broken_stream_keeps_asking(stream: Stream, now: u64)
    ensures
        stream.asks(now) ==> stream.broken,
        stream.broken && stream.asked is None ==> stream.asks(now),
        stream.broken && (stream.asked is Some) ==> (stream.asks(now) <==> stream.asked->0
            + 500_000_000 <= now),
{
}

/// Losing a frame throws away what was waiting and says so in the count; no more is decoded until a
/// keyframe comes, whatever its number.
pub proof fn a_loss_is_counted(stream: Stream, after: Stream, frame: Frame, now: u64, last: Stream)
    requires
        stream.loses(after),
        after.arrives(frame, now, last, false),
    ensures
        after.skipped - stream.skipped == stream.queue@.len(),
        after.queue@.len() == 0 && after.broken,
        last.broken <==> !frame.keyframe,
        !frame.keyframe ==> last.skipped == after.skipped + 1,
{
}

} // verus!
