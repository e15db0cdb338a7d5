//! A remote application's sound, played where its window is.
//!
//! The host sends each application's sound on a stream of its own, and each stream gets a player
//! aimed at the sink of that application's window. Which sink that is, is the compositor's to
//! say; a player looks it up and moves when it changes — the sound usually starts before the
//! window has been placed.
//!
//! What is left here besides is the delay bound. A link that stalls delivers late and all at
//! once, and played as it came the sound would lag the picture by the length of the stall for
//! ever after; so nothing older than a quarter of a second waits.

use vstd::prelude::*;
use vstd::slice::slice_subrange;
use crate::text::{chars, decimal, push_str, same, string, to_decimal};
use crate::wpctl::arguments;

verus! {

/// Samples a second.
pub const RATE: u32 = 48_000;

pub const CHANNELS: u16 = 2;

/// Two channels of two bytes.
pub const FRAME_BYTES: usize = 4;

/// The most sound that may wait to be played: a quarter of a second.
pub const MAX_QUEUED_BYTES: usize = 48_000;

/// Kept back when the queue is trimmed, so trimming does not leave it empty: sixty milliseconds.
pub const KEEP_BYTES: usize = 11_520;

/// The most that is handed to a player at once.
pub const CHUNK: usize = 8_192;

/// A player with nothing to play for this long lets go of its output, in nanoseconds.
///
/// Long, because the host sends nothing during silence, and every pause in a video used to
/// end in a fresh player — whose start is itself a glitch — when the sound came back.
pub const IDLE: u64 = 60_000_000_000;

/// Nothing for longer than this is a gap that was heard, in nanoseconds.
pub const HEARD: u64 = 250_000_000;

/// How often a player looks for the sink it should be playing into, in nanoseconds.
pub const FOLLOW_EVERY: u64 = 500_000_000;

/// How often gaps that were heard are told, in nanoseconds.
pub const TELL_EVERY: u64 = 10_000_000_000;

/// How many bytes of sound last this many milliseconds, in whole frames.
pub open spec fn lasting(ms: nat) -> nat {
    (RATE as nat) * (FRAME_BYTES as nat) * ms / 1000 / (FRAME_BYTES as nat) * (FRAME_BYTES as nat)
}

/// How many bytes of sound last this many milliseconds, in whole frames.
pub fn bytes_for(ms: usize) -> (out: usize)
    requires
        RATE * FRAME_BYTES * ms <= usize::MAX,
    ensures
        out == lasting(ms as nat),
{
    192_000 * ms / 1000 / 4 * 4
}

/// The two lengths that the queue is kept to are a quarter of a second and sixty milliseconds.
pub proof fn the_bounds_are_what_they_say()
    ensures
        MAX_QUEUED_BYTES == lasting(250),
        KEEP_BYTES == lasting(60),
{
}

/// Which sink each remote application's sound belongs in, by app id. The compositor's call.
#[derive(Debug)]
pub struct Sinks {
    pub map: Vec<(String, String)>,
}

/// The first sink given for an app id.
pub open spec fn sink_in(map: Seq<(String, String)>, app_id: Seq<char>) -> Option<Seq<char>>
    decreases map.len(),
{
    if map.len() == 0 {
        None
    } else if map[0].0@ == app_id {
        Some(map[0].1@)
    } else {
        sink_in(map.skip(1), app_id)
    }
}

/// The model of a string that may not be there.
pub open spec fn written(s: Option<String>) -> Option<Seq<char>> {
    match s {
        Some(s) => Some(s@),
        None => None,
    }
}

impl Sinks {
    /// No sinks at all, before the compositor has said.
    pub fn sinks() -> (out: Sinks)
        ensures
            out.map@.len() == 0,
    {
        Sinks { map: Vec::new() }
    }

    /// Say which sink each application's sound belongs in, in place of what was said before.
    pub fn set_sinks(&mut self, map: Vec<(String, String)>)
        ensures
            final(self).map == map,
    {
        self.map = map;
    }

    /// Where an application's sound belongs, if anywhere.
    pub fn sink_for(&self, app_id: &str) -> (out: Option<String>)
        ensures
            written(out) == sink_in(self.map@, app_id@),
    {
        let wanted = chars(app_id);
        let mut i: usize = 0;
        assert(self.map@.skip(0) =~= self.map@);
        while i < self.map.len()
            invariant
                i <= self.map.len(),
                wanted@ == app_id@,
                sink_in(self.map@, app_id@) == sink_in(self.map@.skip(i as int), app_id@),
            decreases self.map.len() - i,
        {
            assert(self.map@.skip(i as int)[0] == self.map@[i as int]);
            assert(self.map@.skip(i as int).skip(1) =~= self.map@.skip(i + 1));
            let known = chars(self.map[i].0.as_str());
            if same(known.as_slice(), wanted.as_slice()) {
                return Some(self.map[i].1.clone());
            }
            i = i + 1;
        }
        None
    }
}

/// Whether a sound stream is one that can be played.
pub fn playable(rate: u32, channels: u16) -> (out: bool)
    ensures
        out == (rate == RATE && channels == CHANNELS),
{
    rate == RATE && channels == CHANNELS
}

/// Bytes of an incomplete frame, held until the rest arrives: dropping or queueing half a frame
/// would swap left and right from then on.
#[derive(Debug)]
pub struct Carry {
    pub bytes: Vec<u8>,
}

fn push_bytes(out: &mut Vec<u8>, more: &[u8])
    ensures
        final(out)@ == old(out)@ + more@,
{
    let ghost had = out@;
    let mut i: usize = 0;
    assert(had + more@.take(0) =~= had);
    while i < more.len()
        invariant
            i <= more.len(),
            out@ == had + more@.take(i as int),
        decreases more.len() - i,
    {
        assert(had + more@.take(i + 1) =~= (had + more@.take(i as int)).push(more@[i as int]));
        out.push(more[i]);
        i = i + 1;
    }
    assert(more@.take(more.len() as int) =~= more@);
}

fn bytes_of(s: &[u8]) -> (out: Vec<u8>)
    ensures
        out@ == s@,
{
    let mut out: Vec<u8> = Vec::new();
    push_bytes(&mut out, s);
    assert(out@ =~= s@);
    out
}

impl Carry {
    /// Less than a frame is ever held.
    pub open spec fn wf(self) -> bool {
        self.bytes@.len() < FRAME_BYTES
    }

    pub fn new() -> (out: Carry)
        ensures
            out.wf(),
            out.bytes@.len() == 0,
    {
        Carry { bytes: Vec::new() }
    }

    /// Take what has arrived, and hand on the whole frames of it.
    ///
    /// Nothing is lost and nothing changes places: what was held and what arrived are what is
    /// handed on and what is held.
    pub fn take(&mut self, arrived: &[u8]) -> (out: Vec<u8>)
        requires
            old(self).wf(),
            old(self).bytes@.len() + arrived@.len() <= usize::MAX,
        ensures
            final(self).wf(),
            out@.len() % (FRAME_BYTES as nat) == 0,
            out@ + final(self).bytes@ == old(self).bytes@ + arrived@,
    {
        push_bytes(&mut self.bytes, arrived);
        let whole: usize = self.bytes.len() / 4 * 4;
        let ghost all = self.bytes@;
        let out = bytes_of(slice_subrange(self.bytes.as_slice(), 0, whole));
        let rest = bytes_of(slice_subrange(self.bytes.as_slice(), whole, self.bytes.len()));
        self.bytes = rest;
        assert(out@ + self.bytes@ =~= all);
        out
    }
}

/// The sound waiting to be played.
#[derive(Debug)]
pub struct Queue {
    pub bytes: Vec<u8>,
}

/// What is kept of some sound: all of it, or the last of it where it has grown too long.
pub open spec fn bounded(all: Seq<u8>) -> Seq<u8> {
    if all.len() > MAX_QUEUED_BYTES {
        all.skip(all.len() - KEEP_BYTES)
    } else {
        all
    }
}

impl Queue {
    /// Nothing waits longer than it may, and only whole frames wait.
    pub open spec fn wf(self) -> bool {
        self.bytes@.len() <= MAX_QUEUED_BYTES && self.bytes@.len() % (FRAME_BYTES as nat) == 0
    }

    pub fn new() -> (out: Queue)
        ensures
            out.wf(),
            out.bytes@.len() == 0,
    {
        Queue { bytes: Vec::new() }
    }

    /// Add some sound. The oldest goes where there is too much, in whole frames.
    pub fn push(&mut self, pcm: &[u8])
        requires
            old(self).wf(),
            pcm@.len() % (FRAME_BYTES as nat) == 0,
            old(self).bytes@.len() + pcm@.len() <= usize::MAX,
        ensures
            final(self).wf(),
            final(self).bytes@ == bounded(old(self).bytes@ + pcm@),
    {
        push_bytes(&mut self.bytes, pcm);
        if self.bytes.len() > MAX_QUEUED_BYTES {
            let excess: usize = self.bytes.len() - KEEP_BYTES;
            let ghost all = self.bytes@;
            let kept = bytes_of(
                slice_subrange(self.bytes.as_slice(), excess, self.bytes.len()),
            );
            self.bytes = kept;
            assert(self.bytes@ =~= all.skip(all.len() - KEEP_BYTES));
        }
    }

    /// Take the next piece to play: all that waits, or as much of it as a player takes at once.
    pub fn pull(&mut self) -> (out: Vec<u8>)
        requires
            old(self).wf(),
        ensures
            final(self).wf(),
            out@ + final(self).bytes@ == old(self).bytes@,
            out@.len() == (if old(self).bytes@.len() < CHUNK {
                old(self).bytes@.len()
            } else {
                CHUNK as nat
            }),
    {
        let n: usize = if self.bytes.len() < CHUNK {
            self.bytes.len()
        } else {
            CHUNK
        };
        let ghost all = self.bytes@;
        let out = bytes_of(slice_subrange(self.bytes.as_slice(), 0, n));
        let rest = bytes_of(slice_subrange(self.bytes.as_slice(), n, self.bytes.len()));
        self.bytes = rest;
        assert(out@ + self.bytes@ =~= all);
        out
    }
}

/// Half a frame never gets into the queue or out of it: whatever has been pushed, the sound that
/// is dropped to keep to the bound is whole frames, so left stays left and right stays right.
pub proof fn left_and_right_stay_where_they_are(queued: Seq<u8>, pcm: Seq<u8>)
    requires
        queued.len() % (FRAME_BYTES as nat) == 0,
        pcm.len() % (FRAME_BYTES as nat) == 0,
    ensures
        ((queued + pcm).len() - bounded(queued + pcm).len()) % (FRAME_BYTES as int) == 0,
        bounded(queued + pcm).len() <= MAX_QUEUED_BYTES,
{
}

/// What one player is doing: where it plays into, and how long it has been quiet.
#[derive(Debug)]
pub struct Playback {
    /// The sink it plays into, with `Some(None)` for the default output; nothing while it holds
    /// no output at all.
    pub output: Option<Option<String>>,
    pub last_sound: u64,
    /// When it last looked for its sink.
    pub checked: u64,
    /// Gaps long enough to hear: the evidence when someone reports a flicker.
    pub dropouts: u32,
    /// When those were last told.
    pub said: u64,
    pub playing: bool,
}

/// The model of where a player plays into.
pub open spec fn aimed(output: Option<Option<String>>) -> Option<Option<Seq<char>>> {
    match output {
        Some(target) => Some(written(target)),
        None => None,
    }
}

fn same_target(a: &Option<String>, b: &Option<String>) -> (out: bool)
    ensures
        out == (written(*a) == written(*b)),
{
    match (a, b) {
        (Some(a), Some(b)) => {
            let a = chars(a.as_str());
            let b = chars(b.as_str());
            same(a.as_slice(), b.as_slice())
        },
        (None, None) => true,
        _ => false,
    }
}

impl Playback {
    pub fn new(now: u64) -> (out: Playback)
        ensures
            aimed(out.output) is None,
            out.last_sound == now && out.checked == now && out.said == now,
            out.dropouts == 0,
            !out.playing,
    {
        Playback {
            output: None,
            last_sound: now,
            checked: now,
            dropouts: 0,
            said: now,
            playing: false,
        }
    }

    /// Whether everything this remembers is in the past.
    pub open spec fn before(self, now: u64) -> bool {
        self.last_sound <= now && self.checked <= now && self.said <= now
    }

    /// How many gaps to tell of now, if it is time to tell of any.
    pub fn tell(&mut self, now: u64) -> (out: Option<u32>)
        requires
            old(self).before(now),
        ensures
            final(self).before(now),
            out == (if old(self).dropouts > 0 && now - old(self).said > TELL_EVERY {
                Some(old(self).dropouts)
            } else {
                None::<u32>
            }),
            out is Some ==> final(self).dropouts == 0 && final(self).said == now,
            out is None ==> *final(self) == *old(self),
            final(self).output == old(self).output,
            final(self).last_sound == old(self).last_sound,
            final(self).checked == old(self).checked,
            final(self).playing == old(self).playing,
    {
        if self.dropouts > 0 && now - self.said > TELL_EVERY {
            let told: u32 = self.dropouts;
            self.dropouts = 0;
            self.said = now;
            Some(told)
        } else {
            None
        }
    }

    /// There is nothing to play this time round. Returns whether to let go of the output.
    ///
    /// Nothing for longer than the pipe can cover is a gap that was heard, and counts once.
    /// Anything shorter is ordinary: what arrived has already gone into the pipe.
    pub fn quiet(&mut self, now: u64) -> (release: bool)
        requires
            old(self).before(now),
            old(self).dropouts < u32::MAX,
        ensures
            final(self).before(now),
            release == (old(self).output is Some && now - old(self).last_sound > IDLE),
            final(self).output == (if release {
                None
            } else {
                old(self).output
            }),
            final(self).dropouts == old(self).dropouts + (if old(self).playing && now
                - old(self).last_sound > HEARD {
                1int
            } else {
                0
            }),
            final(self).playing == (old(self).playing && now - old(self).last_sound <= HEARD),
            final(self).last_sound == old(self).last_sound,
            final(self).checked == old(self).checked,
            final(self).said == old(self).said,
    {
        let quiet: u64 = now - self.last_sound;
        if self.playing && quiet > HEARD {
            self.dropouts = self.dropouts + 1;
            self.playing = false;
        }
        let release = self.output.is_some() && quiet > IDLE;
        if release {
            self.output = None;
        }
        release
    }

    /// There is something to play. Returns whether to look for the sink it belongs in.
    pub fn sound(&mut self, now: u64) -> (look: bool)
        requires
            old(self).before(now),
        ensures
            final(self).before(now),
            look == (old(self).output is None || now - old(self).checked > FOLLOW_EVERY),
            final(self).checked == (if look {
                now
            } else {
                old(self).checked
            }),
            final(self).last_sound == now,
            final(self).playing,
            final(self).output == old(self).output,
            final(self).dropouts == old(self).dropouts,
            final(self).said == old(self).said,
    {
        self.last_sound = now;
        self.playing = true;
        let look = self.output.is_none() || now - self.checked > FOLLOW_EVERY;
        if look {
            self.checked = now;
        }
        look
    }

    /// Whether an output has to be started, or started again somewhere else, to play into this
    /// target. Follows the window's sink: it is often given one only after the sound has started.
    pub fn moves_to(&self, target: &Option<String>) -> (out: bool)
        ensures
            out == (aimed(self.output) != Some(written(*target))),
    {
        match &self.output {
            Some(current) => !same_target(current, target),
            None => true,
        }
    }
}

/// What a player is started with.
pub open spec fn player_arguments(app_id: Seq<char>, target: Option<Seq<char>>) -> Seq<Seq<char>> {
    let head = seq![
        "--playback"@,
        "--raw"@,
        "--format"@,
        "s16"@,
        "--rate"@,
        decimal(RATE as nat),
        "--channels"@,
        decimal(CHANNELS as nat),
        "--latency"@,
        "40ms"@,
        "-P"@,
        "{ media.name = \""@ + app_id + "\" }"@,
    ];
    match target {
        Some(sink) => head + seq!["--target"@, sink, "-"@],
        None => head + seq!["-"@],
    }
}

fn push_argument(out: &mut Vec<String>, s: &str)
    ensures
        arguments(final(out)@) == arguments(old(out)@).push(s@),
{
    let ghost had = arguments(out@);
    let cs = chars(s);
    out.push(string(cs.as_slice()));
    assert(arguments(out@) =~= had.push(s@));
}

/// The arguments of `pw-cat`, to play an application's sound into a sink or the default output.
pub fn playback_arguments(app_id: &str, target: Option<&str>) -> (out: Vec<String>)
    ensures
        arguments(out@) == player_arguments(
            app_id@,
            (match target {
                Some(sink) => Some(sink@),
                None => None,
            }),
        ),
{
    let mut out: Vec<String> = Vec::new();
    assert(arguments(out@) =~= Seq::empty());
    push_argument(&mut out, "--playback");
    push_argument(&mut out, "--raw");
    push_argument(&mut out, "--format");
    push_argument(&mut out, "s16");
    push_argument(&mut out, "--rate");
    let rate = to_decimal(RATE as u64);
    let rate = string(rate.as_slice());
    push_argument(&mut out, rate.as_str());
    push_argument(&mut out, "--channels");
    let channels = to_decimal(CHANNELS as u64);
    let channels = string(channels.as_slice());
    push_argument(&mut out, channels.as_str());
    push_argument(&mut out, "--latency");
    push_argument(&mut out, "40ms");
    push_argument(&mut out, "-P");
    let mut named = chars("{ media.name = \"");
    push_str(&mut named, app_id);
    push_str(&mut named, "\" }");
    let named = string(named.as_slice());
    push_argument(&mut out, named.as_str());
    if let Some(sink) = target {
        push_argument(&mut out, "--target");
        push_argument(&mut out, sink);
    }
    push_argument(&mut out, "-");
    assert(arguments(out@) =~= player_arguments(
        app_id@,
        (match target {
            Some(sink) => Some(sink@),
            None => None,
        }),
    ));
    out
}

/// So long a sound is so many bytes: a hundred and ninety-two of them a millisecond, rounded down to
/// a whole frame of four.
pub proof fn sound_is_counted_in_whole_frames(ms: nat)
    ensures
        lasting(ms) % 4 == 0,
        lasting(ms) <= 192 * ms < lasting(ms) + 4,
{
    assert((RATE as nat) * (FRAME_BYTES as nat) * ms / 1000 == 192 * ms) by {
        assert((RATE as nat) * (FRAME_BYTES as nat) == 192_000);
    }
}

/// What is kept of some sound is the newest of it: all of it up to a quarter of a second, and the
/// last sixty milliseconds where it has grown longer than that.
pub proof fn the_newest_sound_is_kept(all: Seq<u8>)
    ensures
        bounded(all).is_suffix_of(all),
        all.len() <= 48_000 ==> bounded(all) == all,
        all.len() > 48_000 ==> bounded(all).len() == 11_520,
{
    let kept = bounded(all);
    assert(kept =~= all.skip(all.len() - kept.len()));
}

/// An application's sound belongs in the first sink that was given for it, and in none where none
/// was.
pub proof fn a_sound_goes_where_it_was_sent(
    map: Seq<(String, String)>,
    app_id: Seq<char>,
    at: int,
)
    ensures
        0 <= at < map.len() && map[at].0@ == app_id && (forall|i: int|
            0 <= i < at ==> (#[trigger] map[i]).0@ != app_id) ==> sink_in(map, app_id) == Some(
            map[at].1@,
        ),
        (forall|i: int| 0 <= i < map.len() ==> (#[trigger] map[i]).0@ != app_id) ==> sink_in(
            map,
            app_id,
        ) is None,
    decreases map.len(),
{
    if map.len() > 0 {
        let rest = map.skip(1);
        a_sound_goes_where_it_was_sent(rest, app_id, at - 1);
        if forall|i: int| 0 <= i < map.len() ==> (#[trigger] map[i]).0@ != app_id {
            assert forall|i: int| 0 <= i < rest.len() implies (#[trigger] rest[i]).0@ != app_id by {
                assert(rest[i] == map[i + 1]);
            }
        }
        if 0 < at < map.len() && map[at].0@ == app_id && (forall|i: int|
            0 <= i < at ==> (#[trigger] map[i]).0@ != app_id) {
            assert forall|i: int| 0 <= i < at - 1 implies (#[trigger] rest[i]).0@ != app_id by {
                assert(rest[i] == map[i + 1]);
            }
            assert(rest[at - 1] == map[at]);
            assert(map[0].0@ != app_id);
        }
    }
}

/// A player plays what it is fed and is told where: its last argument is the one that stands for
/// its input, a sink is named before it where there is one, straight after the word for it, and
/// everything else is the same wherever it plays.
pub proof fn a_player_is_told_where(app_id: Seq<char>, sink: Seq<char>)
    ensures
        ({
            let anywhere = player_arguments(app_id, None);
            let there = player_arguments(app_id, Some(sink));
            &&& anywhere.last() == "-"@
            &&& there.last() == "-"@
            &&& there.len() == anywhere.len() + 2
            &&& there[there.len() - 2] == sink
            &&& there[there.len() - 3] == "--target"@
            &&& there.take(there.len() - 3) == anywhere.drop_last()
            &&& anywhere[0] == "--playback"@
        }),
{
    let anywhere = player_arguments(app_id, None);
    let there = player_arguments(app_id, Some(sink));
    assert(there.take(there.len() - 3) =~= anywhere.drop_last());
}

} // verus!
