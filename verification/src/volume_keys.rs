//! The volume buttons on the top of the Deck, and the volume keys on anything plugged in.
//!
//! These three keys are taken before anything else sees them, and do what the sidecar's volume
//! control does. Holding one repeats, on the frame clock. Changing the volume means asking the
//! audio server, which is slow, so it is done on a thread of its own, in order, and so is reading
//! it back: on one thread a reading and a change cannot overlap, and a reading that something was
//! asked for during is thrown away.
//!
//! A level is in millionths of full, and a moment in nanoseconds.

use vstd::prelude::*;
use crate::devices::Audio;
use crate::system::WHOLE;

verus! {

/// How far one press moves the volume.
///
/// Twenty presses from silence to full, which is what Plasma uses and close to what game mode
/// does, so the rocker feels the same in every mode on the machine.
pub const STEP: u32 = 50_000;

/// How close to a grid line counts as on it.
///
/// Generous on purpose: `wpctl` prints two decimals, so a level set to exactly half can read back
/// anywhere within half a hundredth of it -- a tenth of a step -- and a level that is really on
/// the grid must not be taken for one a hair short of it, or pressing up does nothing visible.
pub const ON_GRID: u32 = 7_500;

/// How long a button has to be held before it starts repeating.
///
/// Long enough that a single deliberate press never turns into two.
pub const REPEAT_DELAY: u64 = 400_000_000;

/// How often a held button steps once it is repeating.
///
/// Silence to full in about a second and a half: quick enough that nobody holds the button
/// wondering whether it is working, slow enough to let go on the level wanted.
pub const REPEAT_EVERY: u64 = 80_000_000;

/// How long the worker waits, after the last thing it was asked to do, before reading the
/// volume and the device lists again for the sidecar.
///
/// Counted from the last change rather than kept to a clock, so nothing is read back in the
/// middle of a slider drag: the finger is ahead of the sound server there, and a reading would
/// drag the handle back to where it had been.
pub const POLL_EVERY: u64 = 2_000_000_000;

/// Evdev codes, from `linux/input-event-codes.h`.
pub const KEY_MUTE: u32 = 113;

pub const KEY_VOLUMEDOWN: u32 = 114;

pub const KEY_VOLUMEUP: u32 = 115;

/// What a volume key asks for.
#[derive(Debug, Clone, Copy, PartialEq, Eq, Structural)]
pub enum Volume {
    Up,
    Down,
    Mute,
}

impl Volume {
    /// The volume key this evdev code is, if it is one.
    pub fn of(code: u32) -> (out: Option<Volume>)
        ensures
            out == (if code == KEY_VOLUMEUP {
                Some(Volume::Up)
            } else if code == KEY_VOLUMEDOWN {
                Some(Volume::Down)
            } else if code == KEY_MUTE {
                Some(Volume::Mute)
            } else {
                None
            }),
    {
        if code == KEY_VOLUMEUP {
            Some(Volume::Up)
        } else if code == KEY_VOLUMEDOWN {
            Some(Volume::Down)
        } else if code == KEY_MUTE {
            Some(Volume::Mute)
        } else {
            None
        }
    }
}

/// A level kept on the scale.
pub open spec fn on_scale(level: int) -> int {
    if level < 0 {
        0
    } else if level > WHOLE {
        WHOLE as int
    } else {
        level
    }
}

/// The level one step up or down, landing on the step grid.
pub open spec fn step_from(current: int, up: bool) -> int {
    let position = on_scale(current);
    let next = if up {
        // The last grid line at or below, give or take, and one more.
        (position + ON_GRID) / (STEP as int) + 1
    } else {
        // The first grid line at or above, give or take, and one less.
        (position - ON_GRID + STEP - 1) / (STEP as int) - 1
    };
    on_scale(next * STEP)
}

/// The level one step up or down from `current`, landing on the step grid.
///
/// On the grid rather than exactly one step away, so that a volume the sidecar's slider left at
/// 47% goes to 50% and 45% rather than 52% and 42% -- and so that a few presses always land on
/// a round number that can be found again. Kept on the scale: the slider will not go above unity
/// because the Deck's speakers distort there, and neither will this.
pub fn stepped(current: i64, up: bool) -> (out: u32)
    ensures
        out == step_from(current as int, up),
        out <= WHOLE,
{
    let position: u32 = if current < 0 {
        0
    } else if current > WHOLE as i64 {
        WHOLE
    } else {
        current as u32
    };
    if up {
        let next: u32 = (position + ON_GRID) / STEP + 1;
        if next * STEP > WHOLE {
            WHOLE
        } else {
            next * STEP
        }
    } else {
        let lines: u32 = (position + (STEP - 1 - ON_GRID)) / STEP;
        if lines == 0 {
            0
        } else {
            (lines - 1) * STEP
        }
    }
}

/// A step always lands on the grid, and within the scale.
pub proof fn a_step_lands_on_the_grid(current: int, up: bool)
    ensures
        step_from(current, up) % (STEP as int) == 0,
        0 <= step_from(current, up) <= WHOLE,
{
}

/// A level that is on the grid, or reads back a hair off it, moves by exactly one step, until an
/// end holds it.
pub proof fn a_level_on_the_grid_moves_by_one_step(line: int, current: int)
    requires
        0 <= line <= 20,
        line * STEP - ON_GRID < current < line * STEP + ON_GRID,
        0 <= current <= WHOLE,
    ensures
        step_from(current, true) == (if line < 20 {
            (line + 1) * STEP
        } else {
            WHOLE as int
        }),
        step_from(current, false) == (if line > 0 {
            (line - 1) * STEP
        } else {
            0
        }),
{
}

/// The level after some presses of one half of the rocker.
pub open spec fn pressed(current: int, up: bool, times: nat) -> int
    decreases times,
{
    if times == 0 {
        current
    } else {
        step_from(pressed(current, up, (times - 1) as nat), up)
    }
}

/// Twenty presses are silence to full, and twenty the other way full to silence.
pub proof fn twenty_presses_are_silence_to_full(times: nat)
    requires
        times <= 20,
    ensures
        pressed(0, true, times) == times * STEP,
        pressed(WHOLE as int, false, times) == WHOLE - times * STEP,
    decreases times,
{
    if times > 0 {
        twenty_presses_are_silence_to_full((times - 1) as nat);
        a_level_on_the_grid_moves_by_one_step(times - 1, (times - 1) * STEP);
        a_level_on_the_grid_moves_by_one_step(21 - times, WHOLE - (times - 1) * STEP);
    }
}

/// Which volume button is held, and when it next repeats.
#[derive(Debug, Clone, Copy)]
pub struct Repeat {
    pub held: Option<(Volume, u64)>,
}

impl Default for Repeat {
    fn default() -> (out: Self)
        ensures
            out.held is None,
    {
        Repeat { held: None }
    }
}

impl Repeat {
    /// Only the two steps are ever held.
    pub open spec fn wf(self) -> bool {
        self.held matches Some((key, _)) ==> key != Volume::Mute
    }

    /// A volume button went down. Mute does not repeat -- holding it toggling on and off would
    /// be nonsense -- so only the two steps are remembered.
    pub fn press(&mut self, key: Volume, now: u64)
        requires
            now + REPEAT_DELAY <= u64::MAX,
        ensures
            final(self).wf(),
            final(self).held == (if key == Volume::Mute {
                None
            } else {
                Some((key, (now + REPEAT_DELAY) as u64))
            }),
    {
        self.held = match key {
            Volume::Up | Volume::Down => Some((key, now + REPEAT_DELAY)),
            Volume::Mute => None,
        };
    }

    /// A volume button came up. Only the one being held stops it: releasing the other half of
    /// the rocker, which can happen when a thumb rolls across it, leaves the held one going.
    pub fn release(&mut self, key: Volume)
        requires
            old(self).wf(),
        ensures
            final(self).wf(),
            final(self).held == (match old(self).held {
                Some((held, next)) if held != key => Some((held, next)),
                _ => None,
            }),
    {
        if let Some((held, _)) = self.held {
            if held == key {
                self.held = None;
            }
        }
    }

    /// When the step after this one is due: in step with the last when on time, afresh from now
    /// when a frame has run long.
    pub open spec fn following(next: u64, now: u64) -> int {
        if next + REPEAT_EVERY > now {
            next + REPEAT_EVERY
        } else {
            now + REPEAT_EVERY
        }
    }

    /// The step due at a moment, if one is.
    pub open spec fn due_at(self, now: u64) -> Option<Volume> {
        match self.held {
            Some((key, next)) if now >= next => Some(key),
            _ => None,
        }
    }

    /// The button once the step due at a moment, if one is, has been paid.
    pub open spec fn stepped_at(self, now: u64) -> Repeat {
        match self.held {
            Some((key, next)) if now >= next => Repeat {
                held: Some((key, Self::following(next, now) as u64)),
            },
            _ => self,
        }
    }

    /// The step due this frame, if one is.
    ///
    /// At most one per call, however long the frame was: a stall should not turn into a jump,
    /// and the next frame is never more than a few milliseconds away.
    pub fn due(&mut self, now: u64) -> (out: Option<Volume>)
        requires
            old(self).wf(),
            now + REPEAT_EVERY <= u64::MAX,
        ensures
            final(self).wf(),
            out == old(self).due_at(now),
            *final(self) == old(self).stepped_at(now),
    {
        let (key, next) = match self.held {
            Some(held) => held,
            None => {
                return None;
            },
        };
        if now < next {
            return None;
        }
        let following: u64 = if next + REPEAT_EVERY > now {
            next + REPEAT_EVERY
        } else {
            now + REPEAT_EVERY
        };
        self.held = Some((key, following));
        Some(key)
    }
}

/// A stalled frame pays out one step, not a jump: asking again at the same moment pays nothing,
/// however late the first was. Where nothing is due nothing changes, and a step that is paid is of
/// the button that is held, which stays held, with its next step later than this moment.
pub proof fn a_long_frame_is_one_step_not_a_jump(repeat: Repeat, now: u64)
    requires
        now + REPEAT_EVERY <= u64::MAX,
    ensures
        repeat.stepped_at(now).due_at(now) is None,
        repeat.due_at(now) is None ==> repeat.stepped_at(now) == repeat,
        repeat.due_at(now) matches Some(key) ==> {
            &&& repeat.held matches Some((held, _)) && held == key
            &&& repeat.stepped_at(now).held matches Some((held, next)) && held == key && next > now
        },
{
}

/// A held button keeps time: a step paid less than a repeat late leaves the next one exactly a
/// repeat after the one that was due, and one paid later than that starts afresh from now. Nothing
/// is due before its moment, and something is from its moment on.
pub proof fn a_held_button_keeps_time(key: Volume, next: u64, now: u64)
    requires
        now + 80_000_000 <= u64::MAX,
    ensures
        ({
            let repeat = Repeat { held: Some((key, next)) };
            &&& now < next ==> repeat.due_at(now) is None
            &&& next <= now ==> repeat.due_at(now) == Some(key)
            &&& next <= now < next + 80_000_000 ==> repeat.stepped_at(now).held == Some(
                (key, (next + 80_000_000) as u64),
            )
            &&& next + 80_000_000 <= now ==> repeat.stepped_at(now).held == Some(
                (key, (now + 80_000_000) as u64),
            )
        }),
{
}

/// Something for the volume worker to do.
#[derive(Debug, Clone, Copy, PartialEq, Eq, Structural)]
pub enum Change {
    /// A volume key.
    Key(Volume),
    /// Go to this level, as the sidecar's slider does.
    To(i64),
}

/// What a run of changes adds up to: the level to set, if anything touched it, whether to flip
/// the mute and whether to clear it.
pub struct Settled {
    pub level: Option<int>,
    pub toggle: bool,
    pub unmute: bool,
}

/// What a run of changes adds up to, starting from `current`.
///
/// Changes are walked in order rather than netted, because a step lands on the grid: up then down
/// from 47% is 45%, not 47%. Turning it up is a request to hear something, so it clears the mute,
/// and a flip of it earlier in the same run, which it has outlived.
pub open spec fn settled(current: int, changes: Seq<Change>) -> Settled
    decreases changes.len(),
{
    if changes.len() == 0 {
        Settled { level: None, toggle: false, unmute: false }
    } else {
        let so_far = settled(current, changes.drop_last());
        let from = match so_far.level {
            Some(level) => level,
            None => current,
        };
        match changes.last() {
            Change::Key(Volume::Mute) => Settled { toggle: !so_far.toggle, ..so_far },
            Change::Key(Volume::Up) => Settled {
                level: Some(step_from(from, true)),
                toggle: false,
                unmute: true,
            },
            Change::Key(Volume::Down) => Settled { level: Some(step_from(from, false)), ..so_far },
            Change::To(level) => Settled { level: Some(on_scale(level as int)), ..so_far },
        }
    }
}

/// The model of a level that may not be there.
pub open spec fn as_level(level: Option<u32>) -> Option<int> {
    match level {
        Some(level) => Some(level as int),
        None => None,
    }
}

/// What a run of changes adds up to, starting from `current`.
///
/// Returned as the level to set -- nothing when nothing touched it -- and whether to flip the
/// mute and whether to clear it.
pub fn settle(current: i64, changes: &[Change]) -> (out: (Option<u32>, bool, bool))
    ensures
        as_level(out.0) == settled(current as int, changes@).level,
        out.1 == settled(current as int, changes@).toggle,
        out.2 == settled(current as int, changes@).unmute,
        out.0 matches Some(level) ==> level <= WHOLE,
{
    let mut level: Option<u32> = None;
    let mut toggle = false;
    let mut unmute = false;
    let mut i: usize = 0;
    assert(changes@.take(0) =~= Seq::empty());
    while i < changes.len()
        invariant
            i <= changes.len(),
            as_level(level) == settled(current as int, changes@.take(i as int)).level,
            toggle == settled(current as int, changes@.take(i as int)).toggle,
            unmute == settled(current as int, changes@.take(i as int)).unmute,
            level matches Some(l) ==> l <= WHOLE,
        decreases changes.len() - i,
    {
        assert(changes@.take(i + 1).drop_last() =~= changes@.take(i as int));
        let from: i64 = match level {
            Some(level) => level as i64,
            None => current,
        };
        match changes[i] {
            Change::Key(Volume::Mute) => {
                toggle = !toggle;
            },
            Change::Key(Volume::Up) => {
                level = Some(stepped(from, true));
                unmute = true;
                toggle = false;
            },
            Change::Key(Volume::Down) => {
                level = Some(stepped(from, false));
            },
            Change::To(value) => {
                level = Some(
                    if value < 0 {
                        0
                    } else if value > WHOLE as i64 {
                        WHOLE
                    } else {
                        value as u32
                    },
                );
            },
        }
        i = i + 1;
    }
    assert(changes@.take(i as int) =~= changes@);
    (level, toggle, unmute)
}

/// Two presses of mute in a row cancel, whatever came before them.
pub proof fn two_mute_presses_cancel(current: int, changes: Seq<Change>)
    ensures
        settled(
            current,
            changes.push(Change::Key(Volume::Mute)).push(Change::Key(Volume::Mute)),
        ) == settled(current, changes),
{
    let mute = Change::Key(Volume::Mute);
    assert(changes.push(mute).push(mute).drop_last() =~= changes.push(mute));
    assert(changes.push(mute).drop_last() =~= changes);
    let once = settled(current, changes.push(mute));
    assert(once == (Settled { toggle: !settled(current, changes).toggle, ..settled(
        current,
        changes,
    ) }));
    assert(settled(current, changes.push(mute).push(mute)) == (Settled {
        toggle: !once.toggle,
        ..once
    }));
}

/// Turning it up is heard, whatever was muted before it.
pub proof fn turning_it_up_is_heard(current: int, changes: Seq<Change>)
    ensures
        settled(current, changes.push(Change::Key(Volume::Up))).unmute,
        !settled(current, changes.push(Change::Key(Volume::Up))).toggle,
{
    assert(changes.push(Change::Key(Volume::Up)).drop_last() =~= changes);
}

/// A slider's position is absolute: what came before it makes no difference to the level after.
pub proof fn a_slider_position_is_absolute(current: int, other: int, changes: Seq<Change>, to: i64)
    ensures
        settled(current, changes.push(Change::To(to))).level == Some(on_scale(to as int)),
        settled(current, changes.push(Change::To(to))).level == settled(
            other,
            seq![Change::To(to)],
        ).level,
{
    assert(changes.push(Change::To(to)).drop_last() =~= changes);
    assert(seq![Change::To(to)].drop_last() =~= Seq::empty());
    assert(seq![Change::To(to)].last() == Change::To(to));
}

/// A slider move says nothing of the mute: whatever was asked of the mute before it is still what
/// is asked of it after, and the level is the one moved to, with an end of the scale for a level
/// beyond it.
pub proof fn a_slider_move_says_nothing_of_the_mute(current: int, changes: Seq<Change>, to: i64)
    ensures
        ({
            let before = settled(current, changes);
            let after = settled(current, changes.push(Change::To(to)));
            &&& after.toggle == before.toggle
            &&& after.unmute == before.unmute
            &&& 0 <= to <= WHOLE ==> after.level == Some(to as int)
            &&& to < 0 ==> after.level == Some(0int)
            &&& to > WHOLE ==> after.level == Some(WHOLE as int)
        }),
{
    assert(changes.push(Change::To(to)).drop_last() =~= changes);
}

/// A run of slider moves alone neither flips nor clears the mute, and leaves the level at the last
/// of them; a run of nothing at all leaves everything alone.
pub proof fn slider_moves_alone_leave_the_mute(current: int, changes: Seq<Change>)
    requires
        forall|i: int| 0 <= i < changes.len() ==> (#[trigger] changes[i]) is To,
    ensures
        !settled(current, changes).toggle,
        !settled(current, changes).unmute,
        changes.len() == 0 <==> settled(current, changes).level is None,
        changes.len() > 0 && 0 <= changes.last()->To_0 <= WHOLE ==> settled(
            current,
            changes,
        ).level == Some(changes.last()->To_0 as int),
    decreases changes.len(),
{
    if changes.len() > 0 {
        slider_moves_alone_leave_the_mute(current, changes.drop_last());
        a_slider_move_says_nothing_of_the_mute(
            current,
            changes.drop_last(),
            changes.last()->To_0,
        );
        assert(changes.drop_last().push(changes.last()) =~= changes);
        assert(changes.last() == Change::To(changes.last()->To_0));
    }
}

/// The level a run of changes has come to: what was last set, or where it began.
pub open spec fn stands_at(current: int, changes: Seq<Change>) -> int {
    match settled(current, changes).level {
        Some(level) => level,
        None => current,
    }
}

/// Each key does one thing to a run. Mute turns the flip over and touches neither the level nor
/// the clearing. Down never rises from where the run stood, and says nothing of the mute. Up never
/// falls, clears the mute, and forgets the flip. Either step leaves a level to set, at most one
/// step away and on the grid, and past what counts as where it already was.
pub proof fn each_key_does_one_thing(current: int, changes: Seq<Change>)
    requires
        0 <= current <= WHOLE,
    ensures
        ({
            let before = settled(current, changes);
            let mute = settled(current, changes.push(Change::Key(Volume::Mute)));
            let down = settled(current, changes.push(Change::Key(Volume::Down)));
            let up = settled(current, changes.push(Change::Key(Volume::Up)));
            let from = stands_at(current, changes);
            &&& 0 <= from <= WHOLE
            &&& mute.level == before.level
            &&& mute.unmute == before.unmute
            &&& mute.toggle == !before.toggle
            &&& down.toggle == before.toggle
            &&& down.unmute == before.unmute
            &&& up.unmute
            &&& !up.toggle
            &&& down.level matches Some(level) && level % 50_000 == 0 && 0 <= level <= from && (
            level > 0 ==> from <= level + 57_500) && (from > 7_500 ==> level + 7_500 <= from)
            &&& up.level matches Some(level) && level % 50_000 == 0 && from <= level <= WHOLE && (
            level < WHOLE ==> level <= from + 57_500) && (from + 7_500 <= WHOLE ==> from + 7_500
                <= level)
        }),
    decreases changes.len(),
{
    let mute = Change::Key(Volume::Mute);
    let down = Change::Key(Volume::Down);
    let up = Change::Key(Volume::Up);
    assert(changes.push(mute).drop_last() =~= changes);
    assert(changes.push(down).drop_last() =~= changes);
    assert(changes.push(up).drop_last() =~= changes);
    if changes.len() > 0 {
        each_key_does_one_thing(current, changes.drop_last());
        assert(changes.drop_last().push(changes.last()) =~= changes);
    }
}

/// Whether a step is among some changes, which needs somewhere to start from.
pub open spec fn needs_level(changes: Seq<Change>) -> bool {
    exists|i: int|
        0 <= i < changes.len() && (#[trigger] changes[i] == Change::Key(Volume::Up) || changes[i]
            == Change::Key(Volume::Down))
}

/// Whether the volume has to be read before these changes can be made.
///
/// A slider position is absolute and a mute flip does not care, and each read is slow.
pub fn needs_current(changes: &[Change]) -> (out: bool)
    ensures
        out == needs_level(changes@),
{
    let mut i: usize = 0;
    while i < changes.len()
        invariant
            i <= changes.len(),
            forall|k: int|
                0 <= k < i ==> #[trigger] changes@[k] != Change::Key(Volume::Up) && changes@[k]
                    != Change::Key(Volume::Down),
        decreases changes.len() - i,
    {
        match changes[i] {
            Change::Key(Volume::Up) | Change::Key(Volume::Down) => {
                assert(changes@[i as int] == Change::Key(Volume::Up) || changes@[i as int]
                    == Change::Key(Volume::Down));
                return true;
            },
            _ => {},
        }
        i = i + 1;
    }
    false
}

/// What is done to the mute.
#[derive(Debug, Clone, Copy, PartialEq, Eq, Structural)]
pub enum Mute {
    Leave,
    Clear,
    Flip,
}

/// What to do to the audio server, and what to tell the sidecar.
#[derive(Debug, Clone, Copy, PartialEq, Eq, Structural)]
pub struct Applied {
    pub set: Option<u32>,
    pub mute: Mute,
    /// The level to show. Only when a button moved it: a slider already shows where it is, and
    /// during a drag this run is behind the finger.
    pub report: Option<u32>,
}

/// Make a run of changes, given what the volume reads where that is needed.
///
/// A step with nothing to start from does nothing at all, and neither does anything with it.
pub fn apply(changes: &[Change], read: Option<i64>) -> (out: Applied)
    ensures
        needs_level(changes@) && read is None ==> out.set is None && out.mute == Mute::Leave
            && out.report is None,
        !(needs_level(changes@) && read is None) ==> {
            let current = if needs_level(changes@) {
                read->0 as int
            } else {
                0
            };
            let all = settled(current, changes@);
            &&& as_level(out.set) == all.level
            &&& out.mute == (if all.unmute {
                Mute::Clear
            } else if all.toggle {
                Mute::Flip
            } else {
                Mute::Leave
            })
            &&& out.report == (if needs_level(changes@) {
                out.set
            } else {
                None
            })
        },
{
    let stepping = needs_current(changes);
    let current: i64 = if stepping {
        match read {
            Some(level) => level,
            None => {
                return Applied { set: None, mute: Mute::Leave, report: None };
            },
        }
    } else {
        0
    };
    let (level, toggle, unmute) = settle(current, changes);
    let report = if stepping {
        level
    } else {
        None
    };
    let mute = if unmute {
        Mute::Clear
    } else if toggle {
        Mute::Flip
    } else {
        Mute::Leave
    };
    Applied { set: level, mute, report }
}

/// Something for the worker to do.
#[derive(Debug, Clone, Copy, PartialEq, Eq, Structural)]
pub enum Job {
    Volume(Change),
    /// Make this device, by PipeWire node id, the default.
    Default(u32),
}

/// The run of volume changes that some jobs begin with.
pub open spec fn run_of(jobs: Seq<Job>) -> Seq<Change>
    decreases jobs.len(),
{
    if jobs.len() == 0 {
        Seq::empty()
    } else {
        match jobs[0] {
            Job::Volume(change) => seq![change] + run_of(jobs.skip(1)),
            Job::Default(_) => Seq::empty(),
        }
    }
}

/// The run is taken in order and stops at the first switch of device: each change in it is the job
/// that stands where it does, and what stands after the run, if anything does, is a switch.
pub proof fn the_run_ends_at_a_switch(jobs: Seq<Job>)
    ensures
        run_of(jobs).len() <= jobs.len(),
        forall|i: int|
            0 <= i < run_of(jobs).len() ==> jobs[i] == Job::Volume(#[trigger] run_of(jobs)[i]),
        run_of(jobs).len() < jobs.len() ==> jobs[run_of(jobs).len() as int] is Default,
    decreases jobs.len(),
{
    if jobs.len() > 0 {
        the_run_ends_at_a_switch(jobs.skip(1));
        if let Job::Volume(_) = jobs[0] {
            let rest = run_of(jobs.skip(1));
            assert forall|i: int| 0 <= i < run_of(jobs).len() implies jobs[i] == Job::Volume(
                #[trigger] run_of(jobs)[i],
            ) by {
                if i > 0 {
                    assert(rest[i - 1] == run_of(jobs)[i]);
                    assert(jobs.skip(1)[i - 1] == jobs[i]);
                }
            }
            assert(jobs.skip(1).len() == jobs.len() - 1);
        }
    }
}

/// What the worker does next.
#[derive(Debug)]
pub enum Work {
    /// Nothing, unless something is asked for, until this moment.
    Wait(u64),
    /// Read the volume and both device lists.
    Poll,
    /// Make a device the default, and read everything again: the level shown belongs to
    /// whichever output is the default and has to follow the choice.
    Switch(u32),
    /// Make these changes.
    Make(Vec<Change>),
}

/// What the frame loop asks for and what the worker hands back.
#[derive(Debug)]
pub struct Mixer {
    /// What has been asked for and not been done.
    pub jobs: Vec<Job>,
    /// The volume, as a button last set it or a poll last read it. `Some(None)` is a reading
    /// that found none to read.
    pub level: Option<Option<u32>>,
    /// The outputs and inputs, as a poll last read them.
    pub devices: Option<Audio>,
    /// Whether the lists have been looked for since the last poll.
    pub watching: bool,
    pub next_poll: u64,
}

impl Mixer {
    /// A poll is due straight away and wanted, so the sidecar has a volume and its lists before
    /// its first frame rather than two seconds into the session.
    pub fn start(now: u64) -> (out: Mixer)
        ensures
            out.jobs@.len() == 0,
            out.level is None,
            out.devices is None,
            out.watching,
            out.next_poll == now,
    {
        Mixer { jobs: Vec::new(), level: None, devices: None, watching: true, next_poll: now }
    }

    /// Ask for a change. Never waits.
    pub fn send(&mut self, change: Change)
        ensures
            final(self).jobs@ == old(self).jobs@.push(Job::Volume(change)),
            final(self).level is None,
            final(self).devices == old(self).devices,
            final(self).watching == old(self).watching,
            final(self).next_poll == old(self).next_poll,
    {
        self.ask(Job::Volume(change));
    }

    /// Make a device the default. Never waits. Lists read before this would have the tick jump
    /// back to the old one, and go.
    pub fn choose_device(&mut self, id: u32)
        ensures
            final(self).jobs@ == old(self).jobs@.push(Job::Default(id)),
            final(self).level is None,
            final(self).devices is None,
            final(self).watching == old(self).watching,
            final(self).next_poll == old(self).next_poll,
    {
        self.ask(Job::Default(id));
        self.devices = None;
    }

    /// Hand a job over, and drop any level still waiting to be picked up: it was set or read
    /// before this job, which makes it out of date the moment the job is done.
    fn ask(&mut self, job: Job)
        ensures
            final(self).jobs@ == old(self).jobs@.push(job),
            final(self).level is None,
            final(self).devices == old(self).devices,
            final(self).watching == old(self).watching,
            final(self).next_poll == old(self).next_poll,
    {
        self.jobs.push(job);
        self.level = None;
    }

    /// The volume the worker last set or read, once, for the sidecar to show.
    pub fn take_level(&mut self) -> (out: Option<Option<u32>>)
        ensures
            out == old(self).level,
            final(self).level is None,
            final(self).jobs == old(self).jobs,
            final(self).devices == old(self).devices,
            final(self).watching == old(self).watching,
            final(self).next_poll == old(self).next_poll,
    {
        self.level.take()
    }

    /// The outputs and inputs as last read, once.
    ///
    /// Also what keeps them being read. The sidecar calls this every frame it is up; with no
    /// sidecar nothing does, and the worker stops asking the sound server for lists nobody
    /// will see.
    pub fn take_devices(&mut self) -> (out: Option<Audio>)
        ensures
            out == old(self).devices,
            final(self).devices is None,
            final(self).watching,
            final(self).jobs == old(self).jobs,
            final(self).level == old(self).level,
            final(self).next_poll == old(self).next_poll,
    {
        self.watching = true;
        self.devices.take()
    }

    /// What the worker does next.
    ///
    /// Everything that queued up while the last job was being done, in one go: a held button
    /// sends faster than the audio server answers, and working through a backlog one call at a
    /// time would carry on changing the volume after the button had been let go. But only up to
    /// the next device switch, which is done on its own: a step taken before the switch was a
    /// step on the old output.
    ///
    /// [`Mixer::done`] is owed once the work has been done.
    pub fn next(&mut self, now: u64) -> (out: Work)
        requires
            now + POLL_EVERY <= u64::MAX,
        ensures
            final(self).level == old(self).level,
            final(self).devices == old(self).devices,
            old(self).jobs@.len() == 0 && now < old(self).next_poll ==> out == Work::Wait(
                old(self).next_poll,
            ) && final(self).jobs == old(self).jobs && final(self).watching == old(self).watching
                && final(self).next_poll == old(self).next_poll,
            old(self).jobs@.len() == 0 && now >= old(self).next_poll ==> {
                &&& out == (if old(self).watching {
                    Work::Poll
                } else {
                    Work::Wait((now + POLL_EVERY) as u64)
                })
                &&& !final(self).watching
                &&& final(self).next_poll == (if old(self).watching {
                    old(self).next_poll
                } else {
                    (now + POLL_EVERY) as u64
                })
                &&& final(self).jobs == old(self).jobs
            },
            old(self).jobs@.len() > 0 ==> {
                &&& final(self).watching == old(self).watching
                &&& final(self).next_poll == old(self).next_poll
                &&& match old(self).jobs@[0] {
                    Job::Default(id) => out == Work::Switch(id) && final(self).jobs@ == old(
                        self,
                    ).jobs@.skip(1),
                    Job::Volume(_) => {
                        &&& out matches Work::Make(changes) && changes@ == run_of(old(self).jobs@)
                        &&& final(self).jobs@ == old(self).jobs@.skip(
                            run_of(old(self).jobs@).len() as int,
                        )
                    },
                }
            },
    {
        if self.jobs.len() == 0 {
            if now < self.next_poll {
                return Work::Wait(self.next_poll);
            }
            if self.watching {
                self.watching = false;
                return Work::Poll;
            }
            self.next_poll = now + POLL_EVERY;
            return Work::Wait(self.next_poll);
        }
        if let Job::Default(id) = self.jobs[0] {
            let ghost all = self.jobs@;
            let _ = self.jobs.remove(0);
            assert(self.jobs@ =~= all.skip(1));
            return Work::Switch(id);
        }
        let ghost all = self.jobs@;
        let total: usize = self.jobs.len();
        let mut changes: Vec<Change> = Vec::new();
        assert(all.skip(0) =~= all);
        assert(changes@ + run_of(all) =~= run_of(all));
        let mut stop = false;
        while !stop
            invariant
                changes@.len() + self.jobs@.len() == all.len(),
                all.len() == total,
                self.jobs@ == all.skip(changes@.len() as int),
                changes@ + run_of(self.jobs@) == run_of(all),
                stop ==> run_of(self.jobs@).len() == 0,
                self.level == old(self).level,
                self.devices == old(self).devices,
                self.watching == old(self).watching,
                self.next_poll == old(self).next_poll,
            decreases self.jobs@.len() + (if stop {
                0int
            } else {
                1
            }),
        {
            if self.jobs.len() == 0 {
                stop = true;
            } else {
                match self.jobs[0] {
                    Job::Volume(change) => {
                        let ghost before = self.jobs@;
                        let ghost so_far = changes@;
                        let _ = self.jobs.remove(0);
                        assert(self.jobs@ =~= before.skip(1));
                        assert(self.jobs@ =~= all.skip((so_far.len() + 1) as int));
                        changes.push(change);
                        assert(changes@ + run_of(self.jobs@) =~= so_far + run_of(before));
                    },
                    Job::Default(_) => {
                        stop = true;
                    },
                }
            }
        }
        assert(changes@ + run_of(self.jobs@) =~= changes@);
        Work::Make(changes)
    }

    /// The work that was handed out has been done: the next poll is due so long from now, however
    /// long the work took.
    pub fn done(&mut self, now: u64)
        requires
            now + POLL_EVERY <= u64::MAX,
        ensures
            final(self).next_poll == now + POLL_EVERY,
            final(self).jobs == old(self).jobs,
            final(self).level == old(self).level,
            final(self).devices == old(self).devices,
            final(self).watching == old(self).watching,
    {
        self.next_poll = now + POLL_EVERY;
    }

    /// Hand a level the worker set or read to the frame loop -- unless a job arrived while it was
    /// being done, which makes it out of date. Returns whether it was handed over.
    ///
    /// A reading describes the sound server as it was before that job. Handed over anyway, it
    /// would put back what the job replaced: a slider set just as a poll finished would snap
    /// back to the old level and stay there until the next poll.
    pub fn publish_level(&mut self, level: Option<u32>) -> (out: bool)
        ensures
            out == (old(self).jobs@.len() == 0),
            final(self).level == (if out {
                Some(level)
            } else {
                old(self).level
            }),
            final(self).jobs == old(self).jobs,
            final(self).devices == old(self).devices,
            final(self).watching == old(self).watching,
            final(self).next_poll == old(self).next_poll,
    {
        if self.jobs.len() == 0 {
            self.level = Some(level);
            true
        } else {
            false
        }
    }

    /// The same for the device lists.
    pub fn publish_devices(&mut self, devices: Audio) -> (out: bool)
        ensures
            out == (old(self).jobs@.len() == 0),
            final(self).devices == (if out {
                Some(devices)
            } else {
                old(self).devices
            }),
            final(self).jobs == old(self).jobs,
            final(self).level == old(self).level,
            final(self).watching == old(self).watching,
            final(self).next_poll == old(self).next_poll,
    {
        if self.jobs.len() == 0 {
            self.devices = Some(devices);
            true
        } else {
            false
        }
    }
}

} // verus!
