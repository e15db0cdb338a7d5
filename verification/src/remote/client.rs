//! The remote windows as a client of the compositor sees them: which are open, what the wearer is
//! doing to them, and which pictures the compositor still has a hold of.
//!
//! The remote side is an ordinary Wayland client, so everything here is bookkeeping between two
//! sets of numbers: the host's windows on one side, the compositor's surfaces and buffers on the
//! other.

use vstd::prelude::*;
use crate::table::{Table, key_at};

verus! {

/// What the wearer did to a window.
#[derive(Debug, Clone, Copy, PartialEq, Eq, Structural)]
pub enum Input {
    /// Where the pointer is, in 256ths of a pixel.
    Motion { x: i32, y: i32 },
    Leave,
    Button { button: u32, pressed: bool },
    /// How far, in 256ths of a pixel.
    Scroll { horizontal: i32, vertical: i32 },
    Key { code: u32, pressed: bool },
}

/// One remote window, as a client sees it.
#[derive(Debug)]
pub struct Window {
    /// The surface it is drawn on.
    pub surface: u64,
    /// Pictures still held by the compositor, by the key of the buffer made from each.
    ///
    /// A buffer may not be reused until the compositor says it has finished with it, and the
    /// picture behind it may not be freed either — the buffer *is* that picture.
    pub in_flight: Table<u64>,
    /// The picture currently on screen, kept alive for as long as it is on screen.
    ///
    /// **A release is not permission to free this.** A compositor releases a buffer when it has
    /// taken what it needs to *draw* — but what it took is a handle to this memory, and it keeps
    /// drawing from it every frame until something replaces it.
    pub showing: Option<u64>,
    pub next_buffer: u32,
    /// What the compositor last asked this window to be, if anything.
    pub configured: Option<(i32, i32)>,
    /// Whether the compositor's first configure has come. That one is only its default for a
    /// window it has just been handed, and the window already has a size -- the host's.
    pub first_configured: bool,
    pub closed: bool,
}

/// Everything the client half remembers.
#[derive(Debug)]
pub struct Client {
    pub windows: Table<Window>,
    /// Buffers the compositor has released since the last look: whose, and which.
    pub released: Vec<(u32, u32)>,
    /// Sizes the compositor has asked for since the last look.
    pub resized: Vec<(u32, i32, i32)>,
    pub closing: Vec<u32>,
    /// What the wearer has done, waiting to be sent to the host.
    pub input: Vec<(u32, Input)>,
    /// Which window the pointer is over, so a button knows where it landed.
    pub pointer_on: Option<u32>,
    /// Which window has the keys.
    pub keyboard_on: Option<u32>,
    /// What is being held down, so it can be let go of when focus leaves.
    ///
    /// Wayland says a client may hear no more key events after a leave, and a key whose release
    /// never happens is a key the application at the other end holds for ever.
    pub held_keys: Vec<(u32, u32)>,
    pub held_buttons: Vec<(u32, u32)>,
    /// Which window each surface is.
    pub ids: Vec<(u64, u32)>,
}

/// The entries of a list that are not this one.
pub open spec fn without(held: Seq<(u32, u32)>, one: (u32, u32)) -> Seq<(u32, u32)>
    decreases held.len(),
{
    if held.len() == 0 {
        Seq::empty()
    } else if held.last() == one {
        without(held.drop_last(), one)
    } else {
        without(held.drop_last(), one).push(held.last())
    }
}

/// The entries of a list that are other windows'.
pub open spec fn elsewhere(held: Seq<(u32, u32)>, window: u32) -> Seq<(u32, u32)>
    decreases held.len(),
{
    if held.len() == 0 {
        Seq::empty()
    } else if held.last().0 == window {
        elsewhere(held.drop_last(), window)
    } else {
        elsewhere(held.drop_last(), window).push(held.last())
    }
}

/// What is held once something has gone down or come up.
pub open spec fn held_after(
    held: Seq<(u32, u32)>,
    one: (u32, u32),
    pressed: bool,
) -> Seq<(u32, u32)> {
    if pressed {
        without(held, one).push(one)
    } else {
        without(held, one)
    }
}

/// The letting go of every key that is down.
pub open spec fn keys_up(held: Seq<(u32, u32)>) -> Seq<(u32, Input)> {
    Seq::new(held.len(), |i: int| (held[i].0, Input::Key { code: held[i].1, pressed: false }))
}

/// The letting go of every button that is down.
pub open spec fn buttons_up(held: Seq<(u32, u32)>) -> Seq<(u32, Input)> {
    Seq::new(held.len(), |i: int| (held[i].0, Input::Button { button: held[i].1, pressed: false }))
}

fn drop_one(held: &Vec<(u32, u32)>, one: (u32, u32)) -> (out: Vec<(u32, u32)>)
    ensures
        out@ == without(held@, one),
{
    let mut out: Vec<(u32, u32)> = Vec::new();
    let mut i: usize = 0;
    assert(held@.take(0) =~= Seq::empty());
    while i < held.len()
        invariant
            i <= held.len(),
            out@ == without(held@.take(i as int), one),
        decreases held.len() - i,
    {
        assert(held@.take(i + 1).drop_last() =~= held@.take(i as int));
        let entry = held[i];
        if !(entry.0 == one.0 && entry.1 == one.1) {
            out.push(entry);
        }
        i = i + 1;
    }
    assert(held@.take(i as int) =~= held@);
    out
}

fn drop_window(held: &Vec<(u32, u32)>, window: u32) -> (out: Vec<(u32, u32)>)
    ensures
        out@ == elsewhere(held@, window),
{
    let mut out: Vec<(u32, u32)> = Vec::new();
    let mut i: usize = 0;
    assert(held@.take(0) =~= Seq::empty());
    while i < held.len()
        invariant
            i <= held.len(),
            out@ == elsewhere(held@.take(i as int), window),
        decreases held.len() - i,
    {
        assert(held@.take(i + 1).drop_last() =~= held@.take(i as int));
        let entry = held[i];
        if entry.0 != window {
            out.push(entry);
        }
        i = i + 1;
    }
    assert(held@.take(i as int) =~= held@);
    out
}

/// The window a surface is, if it is one of ours. The newest, where a number has come round.
pub open spec fn window_on(ids: Seq<(u64, u32)>, surface: u64) -> Option<u32>
    decreases ids.len(),
{
    if ids.len() == 0 {
        None
    } else if ids.last().0 == surface {
        Some(ids.last().1)
    } else {
        window_on(ids.drop_last(), surface)
    }
}

/// The surfaces that are not this one.
pub open spec fn other_surfaces(ids: Seq<(u64, u32)>, surface: u64) -> Seq<(u64, u32)>
    decreases ids.len(),
{
    if ids.len() == 0 {
        Seq::empty()
    } else if ids.last().0 == surface {
        other_surfaces(ids.drop_last(), surface)
    } else {
        other_surfaces(ids.drop_last(), surface).push(ids.last())
    }
}

/// The entries of a list that are none of these windows'.
pub open spec fn held_elsewhere(held: Seq<(u32, u32)>, windows: Seq<(u32, Window)>) -> Seq<
    (u32, u32),
>
    decreases windows.len(),
{
    if windows.len() == 0 {
        held
    } else {
        held_elsewhere(elsewhere(held, windows[0].0), windows.skip(1))
    }
}

/// The surfaces that are none of these windows'.
pub open spec fn surfaces_elsewhere(ids: Seq<(u64, u32)>, windows: Seq<(u32, Window)>) -> Seq<
    (u64, u32),
>
    decreases windows.len(),
{
    if windows.len() == 0 {
        ids
    } else {
        surfaces_elsewhere(other_surfaces(ids, windows[0].1.surface), windows.skip(1))
    }
}

/// A window that is gone has nothing held down any more, and every other window's stays held:
/// nothing is left behind to be released against whatever wears that number next.
pub proof fn a_closed_window_holds_nothing(held: Seq<(u32, u32)>, window: u32)
    ensures
        forall|i: int|
            0 <= i < elsewhere(held, window).len() ==> (#[trigger] elsewhere(held, window)[i]).0
                != window,
        forall|i: int|
            0 <= i < held.len() && held[i].0 != window ==> elsewhere(held, window).contains(
                #[trigger] held[i],
            ),
    decreases held.len(),
{
    if held.len() > 0 {
        let fewer = held.drop_last();
        a_closed_window_holds_nothing(fewer, window);
        let left = elsewhere(held, window);
        let before = elsewhere(fewer, window);
        assert forall|i: int| 0 <= i < left.len() implies (#[trigger] left[i]).0 != window by {
            if i < before.len() {
                assert(left[i] == before[i]);
            }
        }
        assert forall|i: int| 0 <= i < held.len() && held[i].0 != window implies left.contains(
            #[trigger] held[i],
        ) by {
            if i < fewer.len() {
                assert(fewer[i] == held[i]);
                assert(before.contains(held[i]));
                let k = choose|k: int| 0 <= k < before.len() && before[k] == held[i];
                assert(left[k] == held[i]);
            } else {
                assert(left[left.len() - 1] == held[i]);
            }
        }
    }
}

/// What leaves a list is exactly what was to leave it, and the rest stays in order: one key of one
/// window, everything of one window, or one surface.
pub proof fn the_rest_stay_held(
    held: Seq<(u32, u32)>,
    one: (u32, u32),
    window: u32,
    ids: Seq<(u64, u32)>,
    surface: u64,
)
    ensures
        without(held, one) == held.filter(|entry: (u32, u32)| entry != one),
        elsewhere(held, window) == held.filter(|entry: (u32, u32)| entry.0 != window),
        other_surfaces(ids, surface) == ids.filter(|entry: (u64, u32)| entry.0 != surface),
    decreases held.len() + ids.len(),
{
    reveal(Seq::filter);
    if held.len() > 0 {
        the_rest_stay_held(held.drop_last(), one, window, ids, surface);
    }
    if ids.len() > 0 {
        the_rest_stay_held(held, one, window, ids.drop_last(), surface);
    }
}

/// What has gone down is held, once, and what has come up is not; and nothing else that was held
/// comes or goes with it.
pub proof fn what_goes_down_is_held(held: Seq<(u32, u32)>, one: (u32, u32), other: (u32, u32))
    ensures
        held_after(held, one, true).contains(one),
        held_after(held, one, true).last() == one,
        !held_after(held, one, true).drop_last().contains(one),
        !held_after(held, one, false).contains(one),
        other != one ==> (held_after(held, one, true).contains(other) <==> held.contains(other)),
        other != one ==> (held_after(held, one, false).contains(other) <==> held.contains(other)),
{
    lemma_without(held, one, other);
    lemma_without(held, one, one);
    let down = held_after(held, one, true);
    let rest = without(held, one);
    assert(down[down.len() - 1] == one);
    assert(down.drop_last() =~= rest);
    if other != one {
        if rest.contains(other) {
            let k = choose|k: int| 0 <= k < rest.len() && rest[k] == other;
            assert(down[k] == other);
        }
        if down.contains(other) {
            let k = choose|k: int| 0 <= k < down.len() && down[k] == other;
            assert(rest[k] == other);
        }
    }
}

proof fn lemma_without(held: Seq<(u32, u32)>, one: (u32, u32), other: (u32, u32))
    ensures
        without(held, one).contains(other) <==> held.contains(other) && other != one,
    decreases held.len(),
{
    if held.len() > 0 {
        let fewer = held.drop_last();
        let before = without(fewer, one);
        let after = without(held, one);
        lemma_without(fewer, one, other);
        if held.contains(other) && other != one {
            let k = choose|k: int| 0 <= k < held.len() && held[k] == other;
            if k < fewer.len() {
                assert(fewer[k] == other);
                let j = choose|j: int| 0 <= j < before.len() && before[j] == other;
                assert(after[j] == other);
            } else {
                assert(after[after.len() - 1] == other);
            }
        }
        if after.contains(other) {
            let j = choose|j: int| 0 <= j < after.len() && after[j] == other;
            if j < before.len() {
                assert(before[j] == other);
                let k = choose|k: int| 0 <= k < fewer.len() && fewer[k] == other;
                assert(held[k] == other);
            } else {
                assert(held[held.len() - 1] == other);
            }
        }
    }
}

/// Letting go of what is held lets go of each of them once, in order, in the window it was held in:
/// a key as a key and a button as a button, and none is pressed by it.
pub proof fn everything_held_is_let_go(held: Seq<(u32, u32)>, i: int)
    requires
        0 <= i < held.len(),
    ensures
        keys_up(held).len() == held.len(),
        buttons_up(held).len() == held.len(),
        keys_up(held)[i].0 == held[i].0,
        keys_up(held)[i].1 == (Input::Key { code: held[i].1, pressed: false }),
        buttons_up(held)[i].0 == held[i].0,
        buttons_up(held)[i].1 == (Input::Button { button: held[i].1, pressed: false }),
{
}

/// A surface is the window it was last made for, and one that was made for none is no window.
pub proof fn a_surface_is_its_newest_window(ids: Seq<(u64, u32)>, surface: u64, at: int)
    ensures
        0 <= at < ids.len() && ids[at].0 == surface && (forall|i: int|
            at < i < ids.len() ==> (#[trigger] ids[i]).0 != surface) ==> window_on(ids, surface)
            == Some(ids[at].1),
        (forall|i: int| 0 <= i < ids.len() ==> (#[trigger] ids[i]).0 != surface) ==> window_on(
            ids,
            surface,
        ) is None,
    decreases ids.len(),
{
    if ids.len() > 0 {
        let fewer = ids.drop_last();
        a_surface_is_its_newest_window(fewer, surface, at);
        assert(ids.last() == ids[ids.len() - 1]);
        if forall|i: int| 0 <= i < ids.len() ==> (#[trigger] ids[i]).0 != surface {
            assert forall|i: int| 0 <= i < fewer.len() implies (#[trigger] fewer[i]).0
                != surface by {
                assert(fewer[i] == ids[i]);
            }
        }
        if 0 <= at < ids.len() - 1 && ids[at].0 == surface && (forall|i: int|
            at < i < ids.len() ==> (#[trigger] ids[i]).0 != surface) {
            assert forall|i: int| at < i < fewer.len() implies (#[trigger] fewer[i]).0
                != surface by {
                assert(fewer[i] == ids[i]);
            }
            assert(ids[ids.len() - 1].0 != surface);
        }
    }
}

/// When every window goes, what stays held is what was held in none of them.
pub proof fn nothing_is_held_in_a_window_that_went(
    held: Seq<(u32, u32)>,
    windows: Seq<(u32, Window)>,
    one: (u32, u32),
)
    ensures
        held_elsewhere(held, windows).contains(one) <==> held.contains(one) && forall|i: int|
            0 <= i < windows.len() ==> (#[trigger] windows[i]).0 != one.0,
    decreases windows.len(),
{
    if windows.len() > 0 {
        let rest = windows.skip(1);
        let first = windows[0].0;
        nothing_is_held_in_a_window_that_went(elsewhere(held, first), rest, one);
        a_closed_window_holds_nothing(held, first);
        lemma_elsewhere_is_held(held, first, one);
        if elsewhere(held, first).contains(one) {
            let k = choose|k: int|
                0 <= k < elsewhere(held, first).len() && elsewhere(held, first)[k] == one;
            assert(elsewhere(held, first)[k].0 != first);
        }
        if held.contains(one) && one.0 != first {
            let k = choose|k: int| 0 <= k < held.len() && held[k] == one;
            assert(elsewhere(held, first).contains(held[k]));
        }
        if forall|i: int| 0 <= i < windows.len() ==> (#[trigger] windows[i]).0 != one.0 {
            assert forall|i: int| 0 <= i < rest.len() implies (#[trigger] rest[i]).0 != one.0 by {
                assert(rest[i] == windows[i + 1]);
            }
        }
        if one.0 != first && (forall|i: int|
            0 <= i < rest.len() ==> (#[trigger] rest[i]).0 != one.0) {
            assert forall|i: int| 0 <= i < windows.len() implies (#[trigger] windows[i]).0
                != one.0 by {
                if i > 0 {
                    assert(rest[i - 1] == windows[i]);
                }
            }
        }
    }
}

proof fn lemma_elsewhere_is_held(held: Seq<(u32, u32)>, window: u32, one: (u32, u32))
    ensures
        elsewhere(held, window).contains(one) ==> held.contains(one),
    decreases held.len(),
{
    if held.len() > 0 {
        let fewer = held.drop_last();
        let after = elsewhere(held, window);
        let before = elsewhere(fewer, window);
        lemma_elsewhere_is_held(fewer, window, one);
        if after.contains(one) {
            let j = choose|j: int| 0 <= j < after.len() && after[j] == one;
            if j < before.len() {
                assert(before[j] == one);
                let k = choose|k: int| 0 <= k < fewer.len() && fewer[k] == one;
                assert(held[k] == one);
            } else {
                assert(held[held.len() - 1] == one);
            }
        }
    }
}

impl Window {
    /// A window on a surface that has just been made.
    pub fn new(surface: u64) -> (out: Window)
        ensures
            out.surface == surface,
            out.in_flight.wf(),
            out.in_flight.map() == Map::<u32, u64>::empty(),
            out.in_flight.entries@.len() == 0,
            out.showing is None,
            out.next_buffer == 0,
            out.configured is None,
            !out.first_configured,
            !out.closed,
    {
        Window {
            surface,
            in_flight: Table::new(),
            showing: None,
            next_buffer: 0,
            configured: None,
            first_configured: false,
            closed: false,
        }
    }
}

/// The number after this one, running round.
pub open spec fn up(n: u32) -> u32 {
    if n == u32::MAX {
        0
    } else {
        (n + 1) as u32
    }
}

/// The number before this one, running round.
pub open spec fn down(n: u32) -> u32 {
    if n == 0 {
        u32::MAX
    } else {
        (n - 1) as u32
    }
}

/// What a window is once a new picture is on it: what was on screen until a moment ago may go
/// once the compositor lets it go, and what is on screen now may not.
///
/// What the compositor still holds of it, besides what was on screen until now, is `held`.
pub open spec fn shows(
    before: Window,
    held: Map<u32, u64>,
    after: Window,
    picture: u64,
) -> bool {
    &&& after.showing == Some(picture)
    &&& after.next_buffer == up(before.next_buffer)
    &&& after.in_flight.map() == (match before.showing {
        Some(was) => held.insert(down(before.next_buffer), was),
        None => held,
    })
    &&& after.surface == before.surface
    &&& after.configured == before.configured
    &&& after.first_configured == before.first_configured
    &&& after.closed == before.closed
}

impl Client {
    /// Each window is there once, and each of its buffers.
    pub open spec fn wf(self) -> bool {
        &&& self.windows.wf()
        &&& forall|id: u32|
            self.windows.map().contains_key(id) ==> (
            #[trigger] self.windows.map()[id]).in_flight.wf()
    }

    /// Whether everything but the windows is as it was.
    pub open spec fn keeps_rest(self, was: Client) -> bool {
        &&& self.released == was.released
        &&& self.resized == was.resized
        &&& self.closing == was.closing
        &&& self.input == was.input
        &&& self.pointer_on == was.pointer_on
        &&& self.keyboard_on == was.keyboard_on
        &&& self.held_keys == was.held_keys
        &&& self.held_buttons == was.held_buttons
        &&& self.ids == was.ids
    }

    /// Whether everything but the wearer's doings is as it was.
    pub open spec fn keeps_windows(self, was: Client) -> bool {
        &&& self.windows == was.windows
        &&& self.released == was.released
        &&& self.resized == was.resized
        &&& self.closing == was.closing
        &&& self.ids == was.ids
    }

    pub fn new() -> (out: Client)
        ensures
            out.wf(),
            out.windows.map() == Map::<u32, Window>::empty(),
            out.released@.len() == 0 && out.resized@.len() == 0 && out.closing@.len() == 0,
            out.input@.len() == 0,
            out.pointer_on is None && out.keyboard_on is None,
            out.held_keys@.len() == 0 && out.held_buttons@.len() == 0,
            out.ids@.len() == 0,
    {
        Client {
            windows: Table::new(),
            released: Vec::new(),
            resized: Vec::new(),
            closing: Vec::new(),
            input: Vec::new(),
            pointer_on: None,
            keyboard_on: None,
            held_keys: Vec::new(),
            held_buttons: Vec::new(),
            ids: Vec::new(),
        }
    }

    /// Open a window for a remote one, on a surface made for it.
    pub fn open(&mut self, id: u32, surface: u64)
        requires
            old(self).wf(),
        ensures
            final(self).wf(),
            final(self).ids@ == old(self).ids@.push((surface, id)),
            final(self).windows.map().contains_key(id),
            final(self).windows.map() == old(self).windows.map().insert(
                id,
                final(self).windows.map()[id],
            ),
            ({
                let window = final(self).windows.map()[id];
                &&& window.surface == surface
                &&& window.in_flight.map() == Map::<u32, u64>::empty()
                &&& window.showing is None
                &&& window.next_buffer == 0
                &&& window.configured is None
                &&& !window.first_configured
                &&& !window.closed
            }),
            final(self).input == old(self).input,
            final(self).held_keys == old(self).held_keys,
            final(self).held_buttons == old(self).held_buttons,
            final(self).pointer_on == old(self).pointer_on,
            final(self).keyboard_on == old(self).keyboard_on,
            final(self).released == old(self).released,
            final(self).resized == old(self).resized,
            final(self).closing == old(self).closing,
    {
        self.ids.push((surface, id));
        self.windows.insert(id, Window::new(surface));
    }

    /// A window has gone. Returns what is to be destroyed, if it was there.
    pub fn close(&mut self, id: u32) -> (out: Option<Window>)
        requires
            old(self).wf(),
        ensures
            final(self).wf(),
            out is Some <==> old(self).windows.map().contains_key(id),
            out matches Some(window) ==> window == old(self).windows.map()[id],
            final(self).windows.map() == old(self).windows.map().remove(id),
            final(self).windows.entries@.len() == old(self).windows.entries@.len() - (if out is Some {
                1int
            } else {
                0
            }),
            final(self).ids@ == (match out {
                Some(window) => other_surfaces(old(self).ids@, window.surface),
                None => old(self).ids@,
            }),
            final(self).held_keys@ == elsewhere(old(self).held_keys@, id),
            final(self).held_buttons@ == elsewhere(old(self).held_buttons@, id),
            final(self).input == old(self).input,
            final(self).pointer_on == old(self).pointer_on,
            final(self).keyboard_on == old(self).keyboard_on,
            final(self).released == old(self).released,
            final(self).resized == old(self).resized,
            final(self).closing == old(self).closing,
    {
        self.held_keys = drop_window(&self.held_keys, id);
        self.held_buttons = drop_window(&self.held_buttons, id);
        let out = self.windows.remove(id);
        if let Some(window) = &out {
            let surface: u64 = window.surface;
            self.forget_surface(surface);
        }
        out
    }

    /// Close every window, as the link to their host goes. The host still has them: they come
    /// back, announced afresh, when the link does.
    pub fn close_all(&mut self) -> (out: Vec<Window>)
        requires
            old(self).wf(),
        ensures
            final(self).wf(),
            final(self).windows.map() == Map::<u32, Window>::empty(),
            out@.len() == old(self).windows.entries@.len(),
            forall|i: int|
                0 <= i < out@.len() ==> #[trigger] out@[i] == old(self).windows.entries@[i].1,
            final(self).held_keys@ == held_elsewhere(
                old(self).held_keys@,
                old(self).windows.entries@,
            ),
            final(self).held_buttons@ == held_elsewhere(
                old(self).held_buttons@,
                old(self).windows.entries@,
            ),
            final(self).ids@ == surfaces_elsewhere(old(self).ids@, old(self).windows.entries@),
            final(self).pointer_on == old(self).pointer_on,
            final(self).keyboard_on == old(self).keyboard_on,
            final(self).input == old(self).input,
            final(self).released == old(self).released,
            final(self).resized == old(self).resized,
            final(self).closing == old(self).closing,
    {
        let ghost all = self.windows.entries@;
        let total: usize = self.windows.entries.len();
        let mut out: Vec<Window> = Vec::new();
        while self.windows.entries.len() > 0
            invariant
                self.wf(),
                out@.len() + self.windows.entries@.len() == all.len(),
                all.len() == total,
                all == old(self).windows.entries@,
                self.windows.entries@ == all.skip(out@.len() as int),
                forall|i: int| 0 <= i < out@.len() ==> #[trigger] out@[i] == all[i].1,
                held_elsewhere(old(self).held_keys@, all) == held_elsewhere(
                    self.held_keys@,
                    self.windows.entries@,
                ),
                held_elsewhere(old(self).held_buttons@, all) == held_elsewhere(
                    self.held_buttons@,
                    self.windows.entries@,
                ),
                surfaces_elsewhere(old(self).ids@, all) == surfaces_elsewhere(
                    self.ids@,
                    self.windows.entries@,
                ),
                self.pointer_on == old(self).pointer_on,
                self.keyboard_on == old(self).keyboard_on,
                self.input == old(self).input,
                self.released == old(self).released,
                self.resized == old(self).resized,
                self.closing == old(self).closing,
            decreases self.windows.entries.len(),
        {
            let ghost before = *self;
            let id: u32 = self.windows.entries[0].0;
            proof {
                before.windows.lemma_at(0);
            }
            self.held_keys = drop_window(&self.held_keys, id);
            self.held_buttons = drop_window(&self.held_buttons, id);
            let (_, window) = self.windows.entries.remove(0);
            assert(self.windows.entries@ =~= all.skip((out@.len() + 1) as int));
            assert(self.windows.entries@ =~= before.windows.entries@.skip(1));
            assert forall|a: int, b: int| 0 <= a < b < self.windows.entries@.len() implies (
            #[trigger] self.windows.entries@[a]).0 != (#[trigger] self.windows.entries@[b]).0 by {
                assert(before.windows.entries@[a + 1].0 != before.windows.entries@[b + 1].0);
            }
            assert forall|k: u32| self.windows.map().contains_key(k) implies (
            #[trigger] self.windows.map()[k]).in_flight.wf() by {
                let at = key_at(self.windows.entries@, k);
                self.windows.lemma_at(at);
                before.windows.lemma_at(at + 1);
                assert(before.windows.map()[k].in_flight.wf());
            }
            let surface: u64 = window.surface;
            self.forget_surface(surface);
            out.push(window);
        }
        assert(self.windows.map() =~= Map::<u32, Window>::empty());
        out
    }

    fn forget_surface(&mut self, surface: u64)
        ensures
            final(self).ids@ == other_surfaces(old(self).ids@, surface),
            final(self).windows == old(self).windows,
            final(self).released == old(self).released,
            final(self).resized == old(self).resized,
            final(self).closing == old(self).closing,
            final(self).input == old(self).input,
            final(self).pointer_on == old(self).pointer_on,
            final(self).keyboard_on == old(self).keyboard_on,
            final(self).held_keys == old(self).held_keys,
            final(self).held_buttons == old(self).held_buttons,
    {
        let mut ids: Vec<(u64, u32)> = Vec::new();
        let mut i: usize = 0;
        assert(self.ids@.take(0) =~= Seq::empty());
        while i < self.ids.len()
            invariant
                i <= self.ids.len(),
                ids@ == other_surfaces(self.ids@.take(i as int), surface),
            decreases self.ids.len() - i,
        {
            assert(self.ids@.take(i + 1).drop_last() =~= self.ids@.take(i as int));
            let entry = self.ids[i];
            if entry.0 != surface {
                ids.push(entry);
            }
            i = i + 1;
        }
        assert(self.ids@.take(i as int) =~= self.ids@);
        self.ids = ids;
    }
}

/// The picture under a released buffer, where there is one: it may be freed.
pub open spec fn freed(windows: Map<u32, Window>, window: u32, buffer: u32) -> Option<u64> {
    if windows.contains_key(window) && windows[window].in_flight.map().contains_key(buffer) {
        Some(windows[window].in_flight.map()[buffer])
    } else {
        None
    }
}

/// The pictures that may be freed for some released buffers, in order: each once, and none that
/// is not held.
pub open spec fn taken_back(windows: Map<u32, Window>, released: Seq<(u32, u32)>) -> Seq<u64>
    decreases released.len(),
{
    if released.len() == 0 {
        Seq::empty()
    } else {
        let before = taken_back(windows, released.drop_last());
        let (window, buffer) = released.last();
        match freed(windows, window, buffer) {
            Some(picture) if !released.drop_last().contains((window, buffer)) => before.push(
                picture,
            ),
            _ => before,
        }
    }
}

/// A picture is freed only where the compositor held it in a buffer that it has now given back, and
/// then it is; one that is given back twice is freed once.
pub proof fn a_picture_is_freed_once(
    windows: Map<u32, Window>,
    released: Seq<(u32, u32)>,
    window: u32,
    buffer: u32,
)
    ensures
        ({
            let before = taken_back(windows, released);
            let after = taken_back(windows, released.push((window, buffer)));
            let held = windows.contains_key(window) && windows[window].in_flight.map().contains_key(
                buffer,
            );
            &&& held && !released.contains((window, buffer)) ==> after == before.push(
                windows[window].in_flight.map()[buffer],
            )
            &&& !held || released.contains((window, buffer)) ==> after == before
            &&& taken_back(windows, Seq::empty()).len() == 0
        }),
{
    assert(released.push((window, buffer)).drop_last() =~= released);
}

/// A new picture takes the screen and the one before it waits to be given back, under the number it
/// was shown by, which is the last that was handed out; numbers run round.
pub proof fn what_was_on_screen_may_go(
    before: Window,
    held: Map<u32, u64>,
    after: Window,
    picture: u64,
    last: Window,
    next: u64,
)
    requires
        shows(before, held, after, picture),
        shows(after, after.in_flight.map(), last, next),
    ensures
        last.showing == Some(next),
        last.in_flight.map().contains_key(before.next_buffer),
        last.in_flight.map()[before.next_buffer] == picture,
        forall|buffer: u32|
            #![trigger last.in_flight.map().contains_key(buffer)]
            after.in_flight.map().contains_key(buffer) && buffer != before.next_buffer
                ==> last.in_flight.map().contains_key(buffer)
                && last.in_flight.map()[buffer] == after.in_flight.map()[buffer],
        last.next_buffer == (before.next_buffer + 2) % 0x1_0000_0000,
{
}

impl Client {
    /// Take back one buffer the compositor has finished with. Returns the picture behind it,
    /// which may be freed now.
    fn reap_one(&mut self, window: u32, buffer: u32) -> (out: Option<u64>)
        requires
            old(self).wf(),
        ensures
            final(self).wf(),
            final(self).keeps_rest(*old(self)),
            out == freed(old(self).windows.map(), window, buffer),
            final(self).windows.map().dom() == old(self).windows.map().dom(),
            forall|id: u32| #[trigger]
                final(self).windows.map().contains_key(id) ==> reaped(
                    old(self).windows.map()[id],
                    final(self).windows.map()[id],
                    (if id == window {
                        Some(buffer)
                    } else {
                        None
                    }),
                ),
    {
        let ghost before = self.windows.map();
        match self.windows.remove(window) {
            Some(mut found) => {
                let out = found.in_flight.remove(buffer);
                self.windows.insert(window, found);
                assert(self.windows.map().dom() =~= before.dom());
                out
            },
            None => {
                assert(self.windows.map() =~= before);
                None
            },
        }
    }

    /// Take back the buffers the compositor has finished with. Returns the pictures behind them,
    /// which may be freed now: never the one on screen.
    ///
    /// **Called every time round the loop, not only when a frame is shown.** Showing is skipped
    /// while too many buffers are outstanding, so the count could never come down again.
    pub fn reap(&mut self) -> (out: Vec<u64>)
        requires
            old(self).wf(),
        ensures
            final(self).wf(),
            out@ == taken_back(old(self).windows.map(), old(self).released@),
            final(self).released@.len() == 0,
            final(self).windows.map().dom() == old(self).windows.map().dom(),
            forall|id: u32| #[trigger]
                final(self).windows.map().contains_key(id) ==> gave_back(
                    old(self).windows.map()[id],
                    final(self).windows.map()[id],
                    released_of(old(self).released@, id),
                ),
            final(self).resized == old(self).resized,
            final(self).closing == old(self).closing,
            final(self).input == old(self).input,
            final(self).pointer_on == old(self).pointer_on,
            final(self).keyboard_on == old(self).keyboard_on,
            final(self).held_keys == old(self).held_keys,
            final(self).held_buttons == old(self).held_buttons,
            final(self).ids == old(self).ids,
    {
        let mut released: Vec<(u32, u32)> = Vec::new();
        std::mem::swap(&mut released, &mut self.released);
        let ghost all = released@;
        let mut out: Vec<u64> = Vec::new();
        let mut i: usize = 0;
        proof {
            assert forall|id: u32| #[trigger] self.windows.map().contains_key(id) implies
                self.windows.map()[id].in_flight.map() == old(
                self,
            ).windows.map()[id].in_flight.map().remove_keys(released_of(all.take(0), id)) by {
                assert(released_of(all.take(0), id) =~= Set::<u32>::empty());
                assert(self.windows.map()[id].in_flight.map() =~= old(
                    self,
                ).windows.map()[id].in_flight.map().remove_keys(released_of(all.take(0), id)));
            }
        }
        while i < released.len()
            invariant
                i <= released.len(),
                all == released@,
                all == old(self).released@,
                self.wf(),
                out@ == taken_back(old(self).windows.map(), all.take(i as int)),
                self.released@.len() == 0,
                self.windows.map().dom() == old(self).windows.map().dom(),
                forall|id: u32| #[trigger]
                    self.windows.map().contains_key(id) ==> {
                        let before = old(self).windows.map()[id];
                        let after = self.windows.map()[id];
                        &&& after.showing == before.showing
                        &&& after.surface == before.surface
                        &&& after.next_buffer == before.next_buffer
                        &&& after.configured == before.configured
                        &&& after.first_configured == before.first_configured
                        &&& after.closed == before.closed
                        &&& after.in_flight.map() == before.in_flight.map().remove_keys(
                            released_of(all.take(i as int), id),
                        )
                    },
                self.resized == old(self).resized,
                self.closing == old(self).closing,
                self.input == old(self).input,
                self.pointer_on == old(self).pointer_on,
                self.keyboard_on == old(self).keyboard_on,
                self.held_keys == old(self).held_keys,
                self.held_buttons == old(self).held_buttons,
                self.ids == old(self).ids,
            decreases released.len() - i,
        {
            let (window, buffer) = released[i];
            let ghost before = self.windows.map();
            proof {
                assert(all.take(i + 1).drop_last() =~= all.take(i as int));
                if before.contains_key(window) {
                    assert(released_of(all.take(i as int), window).contains(buffer) == all.take(
                        i as int,
                    ).contains((window, buffer)));
                    assert(old(self).windows.map().contains_key(window));
                }
                assert(before.contains_key(window) == old(self).windows.map().contains_key(window))
                    by {
                    assert(before.dom() == old(self).windows.map().dom());
                }
            }
            if let Some(picture) = self.reap_one(window, buffer) {
                out.push(picture);
            }
            proof {
                assert forall|id: u32| #[trigger] self.windows.map().contains_key(id) implies
                    self.windows.map()[id].in_flight.map() == old(
                    self,
                ).windows.map()[id].in_flight.map().remove_keys(
                    released_of(all.take(i + 1), id),
                ) by {
                    assert(before.contains_key(id));
                    lemma_released_more(all, i as int, id);
                    assert(self.windows.map()[id].in_flight.map() =~= old(
                        self,
                    ).windows.map()[id].in_flight.map().remove_keys(
                        released_of(all.take(i + 1), id),
                    ));
                }
            }
            i = i + 1;
        }
        assert(all.take(i as int) =~= all);
        out
    }

    /// Show a picture on a window, once the buffers the compositor has finished with have been
    /// taken back. Returns the key of the buffer to make from it, or nothing where the window is
    /// gone, and the pictures behind the buffers that were taken back.
    pub fn show(&mut self, id: u32, picture: u64) -> (out: (Option<u32>, Vec<u64>))
        requires
            old(self).wf(),
        ensures
            final(self).wf(),
            out.1@ == taken_back(old(self).windows.map(), old(self).released@),
            out.0 == (if old(self).windows.map().contains_key(id) {
                Some(old(self).windows.map()[id].next_buffer)
            } else {
                None
            }),
            final(self).windows.map().dom() == old(self).windows.map().dom(),
            forall|other: u32| #[trigger]
                final(self).windows.map().contains_key(other) && other != id ==> gave_back(
                    old(self).windows.map()[other],
                    final(self).windows.map()[other],
                    released_of(old(self).released@, other),
                ),
            old(self).windows.map().contains_key(id) ==> shows(
                old(self).windows.map()[id],
                old(self).windows.map()[id].in_flight.map().remove_keys(
                    released_of(old(self).released@, id),
                ),
                final(self).windows.map()[id],
                picture,
            ),
            final(self).released@.len() == 0,
            final(self).resized == old(self).resized,
            final(self).closing == old(self).closing,
            final(self).input == old(self).input,
            final(self).pointer_on == old(self).pointer_on,
            final(self).keyboard_on == old(self).keyboard_on,
            final(self).held_keys == old(self).held_keys,
            final(self).held_buttons == old(self).held_buttons,
            final(self).ids == old(self).ids,
    {
        let freed = self.reap();
        let ghost cleared = self.windows.map();
        assert(cleared.contains_key(id) == old(self).windows.map().contains_key(id)) by {
            assert(cleared.dom() == old(self).windows.map().dom());
        }
        let key = self.put_up(id, picture);
        proof {
            assert(self.windows.map().dom() =~= old(self).windows.map().dom());
            assert forall|other: u32| #[trigger]
                self.windows.map().contains_key(other) && other != id implies gave_back(
                old(self).windows.map()[other],
                self.windows.map()[other],
                released_of(old(self).released@, other),
            ) by {
                assert(cleared.contains_key(other));
                assert(self.windows.map()[other] == cleared[other]);
            }
        }
        (key, freed)
    }

    /// Put a picture on a window.
    fn put_up(&mut self, id: u32, picture: u64) -> (out: Option<u32>)
        requires
            old(self).wf(),
        ensures
            final(self).wf(),
            final(self).keeps_rest(*old(self)),
            out is Some <==> old(self).windows.map().contains_key(id),
            out is None ==> final(self).windows.map() == old(self).windows.map(),
            out matches Some(key) ==> {
                &&& key == old(self).windows.map()[id].next_buffer
                &&& final(self).windows.map().contains_key(id)
                &&& final(self).windows.map() == old(self).windows.map().insert(
                    id,
                    final(self).windows.map()[id],
                )
                &&& shows(
                    old(self).windows.map()[id],
                    old(self).windows.map()[id].in_flight.map(),
                    final(self).windows.map()[id],
                    picture,
                )
            },
    {
        let ghost before = self.windows.map();
        let mut window = match self.windows.remove(id) {
            Some(window) => window,
            None => {
                assert(self.windows.map() =~= before);
                return None;
            },
        };
        let key: u32 = window.next_buffer;
        window.next_buffer = key.wrapping_add(1);
        if let Some(was) = window.showing.take() {
            window.in_flight.insert(key.wrapping_sub(1), was);
        }
        window.showing = Some(picture);
        self.windows.insert(id, window);
        assert(self.windows.map() =~= before.insert(id, window));
        Some(key)
    }

    /// How many buffers this window is waiting to get back, including the one on screen.
    ///
    /// The answer is the whole flow control: while the compositor is holding several, sending
    /// it more only builds a queue of pictures that will be stale by the time they are shown.
    pub fn in_flight(&self, id: u32) -> (out: usize)
        requires
            self.wf(),
            self.windows.map().contains_key(id)
                ==> self.windows.map()[id].in_flight.entries@.len() < usize::MAX,
        ensures
            out == (if self.windows.map().contains_key(id) {
                let window = self.windows.map()[id];
                window.in_flight.entries@.len() + (if window.showing is Some {
                    1int
                } else {
                    0
                })
            } else {
                0
            }),
    {
        match self.windows.get(id) {
            Some(window) => if window.showing.is_some() {
                window.in_flight.len() + 1
            } else {
                window.in_flight.len()
            },
            None => 0,
        }
    }

    /// The compositor released a buffer.
    pub fn release(&mut self, window: u32, buffer: u32)
        requires
            old(self).wf(),
        ensures
            final(self).wf(),
            final(self).released@ == old(self).released@.push((window, buffer)),
            final(self).windows == old(self).windows,
            final(self).resized == old(self).resized,
            final(self).closing == old(self).closing,
            final(self).input == old(self).input,
            final(self).pointer_on == old(self).pointer_on,
            final(self).keyboard_on == old(self).keyboard_on,
            final(self).held_keys == old(self).held_keys,
            final(self).held_buttons == old(self).held_buttons,
            final(self).ids == old(self).ids,
    {
        self.released.push((window, buffer));
    }

    /// The compositor asks a window to be some size. Remembered until the configure settles it;
    /// no size at all is "pick your own", and asks for nothing.
    pub fn configure_toplevel(&mut self, id: u32, width: i32, height: i32)
        requires
            old(self).wf(),
        ensures
            final(self).wf(),
            final(self).keeps_rest(*old(self)),
            width > 0 && height > 0 && old(self).windows.map().contains_key(id) ==> {
                &&& final(self).windows.map().contains_key(id)
                &&& final(self).windows.map() == old(self).windows.map().insert(
                    id,
                    (Window {
                        configured: Some((width, height)),
                        ..old(self).windows.map()[id]
                    }),
                )
            },
            !(width > 0 && height > 0 && old(self).windows.map().contains_key(id))
                ==> final(self).windows.map() == old(self).windows.map(),
    {
        if width > 0 && height > 0 {
            let ghost before = self.windows.map();
            match self.windows.remove(id) {
                Some(mut window) => {
                    window.configured = Some((width, height));
                    self.windows.insert(id, window);
                    assert(self.windows.map() =~= before.insert(id, window));
                },
                None => {
                    assert(self.windows.map() =~= before);
                },
            }
        }
    }

    /// A configure is complete. Only now is a size settled, so this is where the host is to be
    /// told -- unless it is the compositor's opening suggestion, which the wearer never asked
    /// for.
    pub fn configure(&mut self, id: u32)
        requires
            old(self).wf(),
        ensures
            final(self).wf(),
            old(self).windows.map().contains_key(id) ==> {
                let before = old(self).windows.map()[id];
                &&& final(self).windows.map() == old(self).windows.map().insert(
                    id,
                    (Window { configured: None, first_configured: true, ..before }),
                )
                &&& final(self).resized@ == (match before.configured {
                    Some((width, height)) if before.first_configured => old(self).resized@.push(
                        (id, width, height),
                    ),
                    _ => old(self).resized@,
                })
            },
            !old(self).windows.map().contains_key(id) ==> final(self).windows.map() == old(
                self,
            ).windows.map() && final(self).resized == old(self).resized,
            final(self).released == old(self).released,
            final(self).closing == old(self).closing,
            final(self).input == old(self).input,
            final(self).pointer_on == old(self).pointer_on,
            final(self).keyboard_on == old(self).keyboard_on,
            final(self).held_keys == old(self).held_keys,
            final(self).held_buttons == old(self).held_buttons,
            final(self).ids == old(self).ids,
    {
        let ghost before = self.windows.map();
        match self.windows.remove(id) {
            Some(mut window) => {
                let first = !window.first_configured;
                window.first_configured = true;
                if let Some((width, height)) = window.configured.take() {
                    if !first {
                        self.resized.push((id, width, height));
                    }
                }
                self.windows.insert(id, window);
                assert(self.windows.map() =~= before.insert(id, window));
            },
            None => {
                assert(self.windows.map() =~= before);
            },
        }
    }

    /// The wearer asked a window to close.
    pub fn close_asked(&mut self, id: u32)
        requires
            old(self).wf(),
        ensures
            final(self).wf(),
            final(self).closing@ == old(self).closing@.push(id),
            final(self).windows.map() == (if old(self).windows.map().contains_key(id) {
                old(self).windows.map().insert(
                    id,
                    (Window { closed: true, ..old(self).windows.map()[id] }),
                )
            } else {
                old(self).windows.map()
            }),
            final(self).released == old(self).released,
            final(self).resized == old(self).resized,
            final(self).input == old(self).input,
            final(self).pointer_on == old(self).pointer_on,
            final(self).keyboard_on == old(self).keyboard_on,
            final(self).held_keys == old(self).held_keys,
            final(self).held_buttons == old(self).held_buttons,
            final(self).ids == old(self).ids,
    {
        let ghost before = self.windows.map();
        match self.windows.remove(id) {
            Some(mut window) => {
                window.closed = true;
                self.windows.insert(id, window);
                assert(self.windows.map() =~= before.insert(id, window));
            },
            None => {
                assert(self.windows.map() =~= before);
            },
        }
        self.closing.push(id);
    }

    /// The window a surface is.
    pub fn window_of(&self, surface: u64) -> (out: Option<u32>)
        ensures
            out == window_on(self.ids@, surface),
    {
        let mut n: usize = self.ids.len();
        assert(self.ids@.take(n as int) =~= self.ids@);
        while n > 0
            invariant
                n <= self.ids.len(),
                window_on(self.ids@, surface) == window_on(self.ids@.take(n as int), surface),
            decreases n,
        {
            assert(self.ids@.take(n as int).drop_last() =~= self.ids@.take(n - 1));
            if self.ids[n - 1].0 == surface {
                return Some(self.ids[n - 1].1);
            }
            n = n - 1;
        }
        None
    }

    /// The pointer came onto a surface.
    pub fn pointer_enter(&mut self, surface: u64, x: i32, y: i32)
        ensures
            final(self).keeps_windows(*old(self)),
            final(self).pointer_on == window_on(old(self).ids@, surface),
            final(self).input@ == (match final(self).pointer_on {
                Some(id) => old(self).input@.push((id, Input::Motion { x, y })),
                None => old(self).input@,
            }),
            final(self).keyboard_on == old(self).keyboard_on,
            final(self).held_keys == old(self).held_keys,
            final(self).held_buttons == old(self).held_buttons,
    {
        self.pointer_on = self.window_of(surface);
        self.pointer_motion(x, y);
    }

    /// The pointer moved. Nobody is told while it is over none of these windows.
    pub fn pointer_motion(&mut self, x: i32, y: i32)
        ensures
            final(self).keeps_windows(*old(self)),
            final(self).input@ == (match old(self).pointer_on {
                Some(id) => old(self).input@.push((id, Input::Motion { x, y })),
                None => old(self).input@,
            }),
            final(self).pointer_on == old(self).pointer_on,
            final(self).keyboard_on == old(self).keyboard_on,
            final(self).held_keys == old(self).held_keys,
            final(self).held_buttons == old(self).held_buttons,
    {
        if let Some(id) = self.pointer_on {
            self.input.push((id, Input::Motion { x, y }));
        }
    }

    /// The pointer left. Every button that is down is let go of first: an unreleased button is
    /// a drag that never ends.
    pub fn pointer_leave(&mut self)
        ensures
            final(self).keeps_windows(*old(self)),
            final(self).pointer_on is None,
            final(self).held_buttons@.len() == 0,
            final(self).input@ == old(self).input@ + buttons_up(old(self).held_buttons@) + (
            match old(self).pointer_on {
                Some(id) => seq![(id, Input::Leave)],
                None => Seq::<(u32, Input)>::empty(),
            }),
            final(self).keyboard_on == old(self).keyboard_on,
            final(self).held_keys == old(self).held_keys,
    {
        self.let_go_of_buttons();
        let ghost so_far = self.input@;
        assert(so_far + Seq::<(u32, Input)>::empty() =~= so_far);
        if let Some(id) = self.pointer_on.take() {
            self.input.push((id, Input::Leave));
            assert(self.input@ =~= so_far + seq![(id, Input::Leave)]);
        }
    }

    /// A button went down or came up.
    pub fn pointer_button(&mut self, button: u32, pressed: bool)
        ensures
            final(self).keeps_windows(*old(self)),
            match old(self).pointer_on {
                Some(id) => {
                    &&& final(self).held_buttons@ == held_after(
                        old(self).held_buttons@,
                        (id, button),
                        pressed,
                    )
                    &&& final(self).input@ == old(self).input@.push(
                        (id, Input::Button { button, pressed }),
                    )
                },
                None => final(self).held_buttons == old(self).held_buttons && final(self).input
                    == old(self).input,
            },
            final(self).pointer_on == old(self).pointer_on,
            final(self).keyboard_on == old(self).keyboard_on,
            final(self).held_keys == old(self).held_keys,
    {
        if let Some(id) = self.pointer_on {
            self.held_buttons = drop_one(&self.held_buttons, (id, button));
            if pressed {
                self.held_buttons.push((id, button));
            }
            self.input.push((id, Input::Button { button, pressed }));
        }
    }

    /// The wearer scrolled, one way or the other.
    pub fn pointer_axis(&mut self, sideways: bool, value: i32)
        ensures
            final(self).keeps_windows(*old(self)),
            final(self).input@ == (match old(self).pointer_on {
                Some(id) => old(self).input@.push(
                    (
                        id,
                        if sideways {
                            Input::Scroll { horizontal: value, vertical: 0 }
                        } else {
                            Input::Scroll { horizontal: 0, vertical: value }
                        },
                    ),
                ),
                None => old(self).input@,
            }),
            final(self).pointer_on == old(self).pointer_on,
            final(self).keyboard_on == old(self).keyboard_on,
            final(self).held_keys == old(self).held_keys,
            final(self).held_buttons == old(self).held_buttons,
    {
        if let Some(id) = self.pointer_on {
            self.input.push(
                (
                    id,
                    if sideways {
                        Input::Scroll { horizontal: value, vertical: 0 }
                    } else {
                        Input::Scroll { horizontal: 0, vertical: value }
                    },
                ),
            );
        }
    }

    /// A surface was given the keys.
    pub fn keyboard_enter(&mut self, surface: u64)
        ensures
            final(self).keeps_windows(*old(self)),
            final(self).keyboard_on == window_on(old(self).ids@, surface),
            final(self).input == old(self).input,
            final(self).pointer_on == old(self).pointer_on,
            final(self).held_keys == old(self).held_keys,
            final(self).held_buttons == old(self).held_buttons,
    {
        self.keyboard_on = self.window_of(surface);
    }

    /// The keys went elsewhere. Every key that is down is let go of: after this the release will
    /// never arrive and the application would hold the key for ever.
    pub fn keyboard_leave(&mut self)
        ensures
            final(self).keeps_windows(*old(self)),
            final(self).keyboard_on is None,
            final(self).held_keys@.len() == 0,
            final(self).input@ == old(self).input@ + keys_up(old(self).held_keys@),
            final(self).pointer_on == old(self).pointer_on,
            final(self).held_buttons == old(self).held_buttons,
    {
        self.let_go_of_keys();
        self.keyboard_on = None;
    }

    /// A key went down or came up. Its number is already what the wire carries.
    pub fn key(&mut self, code: u32, pressed: bool)
        ensures
            final(self).keeps_windows(*old(self)),
            match old(self).keyboard_on {
                Some(id) => {
                    &&& final(self).held_keys@ == held_after(
                        old(self).held_keys@,
                        (id, code),
                        pressed,
                    )
                    &&& final(self).input@ == old(self).input@.push(
                        (id, Input::Key { code, pressed }),
                    )
                },
                None => final(self).held_keys == old(self).held_keys && final(self).input == old(
                    self,
                ).input,
            },
            final(self).pointer_on == old(self).pointer_on,
            final(self).keyboard_on == old(self).keyboard_on,
            final(self).held_buttons == old(self).held_buttons,
    {
        if let Some(id) = self.keyboard_on {
            self.held_keys = drop_one(&self.held_keys, (id, code));
            if pressed {
                self.held_keys.push((id, code));
            }
            self.input.push((id, Input::Key { code, pressed }));
        }
    }

    /// Let go of every key that is down.
    fn let_go_of_keys(&mut self)
        ensures
            final(self).keeps_windows(*old(self)),
            final(self).held_keys@.len() == 0,
            final(self).input@ == old(self).input@ + keys_up(old(self).held_keys@),
            final(self).pointer_on == old(self).pointer_on,
            final(self).keyboard_on == old(self).keyboard_on,
            final(self).held_buttons == old(self).held_buttons,
    {
        let mut held: Vec<(u32, u32)> = Vec::new();
        std::mem::swap(&mut held, &mut self.held_keys);
        let ghost before = self.input@;
        let mut i: usize = 0;
        assert(before + keys_up(held@).take(0) =~= before);
        while i < held.len()
            invariant
                i <= held.len(),
                self.keeps_windows(*old(self)),
                self.held_keys@.len() == 0,
                self.input@ == before + keys_up(held@).take(i as int),
                self.pointer_on == old(self).pointer_on,
                self.keyboard_on == old(self).keyboard_on,
                self.held_buttons == old(self).held_buttons,
            decreases held.len() - i,
        {
            let (id, code) = held[i];
            self.input.push((id, Input::Key { code, pressed: false }));
            assert(before + keys_up(held@).take(i + 1) =~= (before + keys_up(held@).take(
                i as int,
            )).push((id, Input::Key { code, pressed: false })));
            i = i + 1;
        }
        assert(keys_up(held@).take(i as int) =~= keys_up(held@));
    }

    /// Let go of every button that is down.
    fn let_go_of_buttons(&mut self)
        ensures
            final(self).keeps_windows(*old(self)),
            final(self).held_buttons@.len() == 0,
            final(self).input@ == old(self).input@ + buttons_up(old(self).held_buttons@),
            final(self).pointer_on == old(self).pointer_on,
            final(self).keyboard_on == old(self).keyboard_on,
            final(self).held_keys == old(self).held_keys,
    {
        let mut held: Vec<(u32, u32)> = Vec::new();
        std::mem::swap(&mut held, &mut self.held_buttons);
        let ghost before = self.input@;
        let mut i: usize = 0;
        assert(before + buttons_up(held@).take(0) =~= before);
        while i < held.len()
            invariant
                i <= held.len(),
                self.keeps_windows(*old(self)),
                self.held_buttons@.len() == 0,
                self.input@ == before + buttons_up(held@).take(i as int),
                self.pointer_on == old(self).pointer_on,
                self.keyboard_on == old(self).keyboard_on,
                self.held_keys == old(self).held_keys,
            decreases held.len() - i,
        {
            let (id, button) = held[i];
            self.input.push((id, Input::Button { button, pressed: false }));
            assert(before + buttons_up(held@).take(i + 1) =~= (before + buttons_up(held@).take(
                i as int,
            )).push((id, Input::Button { button, pressed: false })));
            i = i + 1;
        }
        assert(buttons_up(held@).take(i as int) =~= buttons_up(held@));
    }
}

/// The buffers of one window among those released.
pub open spec fn released_of(released: Seq<(u32, u32)>, window: u32) -> Set<u32> {
    Set::new(|buffer: u32| released.contains((window, buffer)))
}

/// What a window is once one of its buffers has been taken back, or none.
pub open spec fn reaped(before: Window, after: Window, buffer: Option<u32>) -> bool {
    &&& after.showing == before.showing
    &&& after.surface == before.surface
    &&& after.next_buffer == before.next_buffer
    &&& after.configured == before.configured
    &&& after.first_configured == before.first_configured
    &&& after.closed == before.closed
    &&& after.in_flight.map() == (match buffer {
        Some(buffer) => before.in_flight.map().remove(buffer),
        None => before.in_flight.map(),
    })
}

/// Whether a window is as it was, but for the buffers the compositor has given back.
pub open spec fn gave_back(before: Window, after: Window, back: Set<u32>) -> bool {
    &&& after.showing == before.showing
    &&& after.surface == before.surface
    &&& after.next_buffer == before.next_buffer
    &&& after.configured == before.configured
    &&& after.first_configured == before.first_configured
    &&& after.closed == before.closed
    &&& after.in_flight.map() == before.in_flight.map().remove_keys(back)
}

proof fn lemma_released_more(all: Seq<(u32, u32)>, i: int, window: u32)
    requires
        0 <= i < all.len(),
    ensures
        forall|buffer: u32| #[trigger]
            released_of(all.take(i + 1), window).contains(buffer) <==> released_of(
                all.take(i),
                window,
            ).contains(buffer) || all[i] == (window, buffer),
{
    assert forall|buffer: u32| #[trigger]
        released_of(all.take(i + 1), window).contains(buffer) <==> released_of(
            all.take(i),
            window,
        ).contains(buffer) || all[i] == (window, buffer) by {
        let more = all.take(i + 1);
        let fewer = all.take(i);
        if more.contains((window, buffer)) {
            let k = choose|k: int| 0 <= k < more.len() && more[k] == (window, buffer);
            if k < i {
                assert(fewer[k] == (window, buffer));
            }
        }
        if fewer.contains((window, buffer)) {
            let k = choose|k: int| 0 <= k < fewer.len() && fewer[k] == (window, buffer);
            assert(more[k] == (window, buffer));
        }
        if all[i] == (window, buffer) {
            assert(more[i] == (window, buffer));
        }
    }
}

impl Client {
    /// Whether a window can be told what it is in the room and how its eyes are packed: the
    /// compositor has to offer it, and the window has to be there.
    pub fn can_present(&self, offered: Option<u32>, id: u32) -> (out: bool)
        requires
            self.wf(),
        ensures
            out == (offered is Some && self.windows.map().contains_key(id)),
    {
        offered.is_some() && self.windows.contains(id)
    }

    /// Whether a window's application can be said to draw its own pointer. Only a compositor at
    /// version 4 understands it; an older one keeps drawing its own reticle, which is the right
    /// thing to fall back to.
    pub fn can_draw_cursor(&self, offered: Option<u32>, id: u32) -> (out: bool)
        requires
            self.wf(),
        ensures
            out == (offered matches Some(version) && version >= 4 && self.windows.map().contains_key(
                id,
            )),
    {
        match offered {
            Some(version) => version >= 4 && self.windows.contains(id),
            None => false,
        }
    }
}

/// A format's tiling, out of the two halves it is told in.
pub fn modifier(high: u32, low: u32) -> (out: u64)
    ensures
        out == high * 0x1_0000_0000 + low,
{
    high as u64 * 0x1_0000_0000 + low as u64
}

/// The two halves a tiling is told in.
pub fn modifier_halves(modifier: u64) -> (out: (u32, u32))
    ensures
        out.0 == modifier / 0x1_0000_0000,
        out.1 == modifier % 0x1_0000_0000,
{
    ((modifier / 0x1_0000_0000) as u32, (modifier % 0x1_0000_0000) as u32)
}

/// A tiling told in two halves is the one that was taken apart.
pub proof fn a_modifier_survives_the_wire(modifier: u64)
    ensures
        (modifier / 0x1_0000_0000) * 0x1_0000_0000 + modifier % 0x1_0000_0000 == modifier,
{
}

/// When every window goes, the surfaces that are still known are those that were none of theirs.
pub proof fn no_surface_is_known_of_a_window_that_went(
    ids: Seq<(u64, u32)>,
    windows: Seq<(u32, Window)>,
    one: (u64, u32),
)
    ensures
        surfaces_elsewhere(ids, windows).contains(one) <==> ids.contains(one) && forall|i: int|
            0 <= i < windows.len() ==> (#[trigger] windows[i]).1.surface != one.0,
    decreases windows.len(),
{
    if windows.len() > 0 {
        let rest = windows.skip(1);
        let first = windows[0].1.surface;
        no_surface_is_known_of_a_window_that_went(other_surfaces(ids, first), rest, one);
        lemma_other_surfaces(ids, first, one);
        if forall|i: int| 0 <= i < windows.len() ==> (#[trigger] windows[i]).1.surface != one.0 {
            assert forall|i: int| 0 <= i < rest.len() implies (#[trigger] rest[i]).1.surface
                != one.0 by {
                assert(rest[i] == windows[i + 1]);
            }
        }
        if one.0 != first && (forall|i: int|
            0 <= i < rest.len() ==> (#[trigger] rest[i]).1.surface != one.0) {
            assert forall|i: int| 0 <= i < windows.len() implies (#[trigger] windows[i]).1.surface
                != one.0 by {
                if i > 0 {
                    assert(rest[i - 1] == windows[i]);
                }
            }
        }
    }
}

proof fn lemma_other_surfaces(ids: Seq<(u64, u32)>, surface: u64, one: (u64, u32))
    ensures
        other_surfaces(ids, surface).contains(one) <==> ids.contains(one) && one.0 != surface,
    decreases ids.len(),
{
    if ids.len() > 0 {
        let fewer = ids.drop_last();
        let before = other_surfaces(fewer, surface);
        let after = other_surfaces(ids, surface);
        lemma_other_surfaces(fewer, surface, one);
        if ids.contains(one) && one.0 != surface {
            let k = choose|k: int| 0 <= k < ids.len() && ids[k] == one;
            if k < fewer.len() {
                assert(fewer[k] == one);
                let j = choose|j: int| 0 <= j < before.len() && before[j] == one;
                assert(after[j] == one);
            } else {
                assert(after[after.len() - 1] == one);
            }
        }
        if after.contains(one) {
            let j = choose|j: int| 0 <= j < after.len() && after[j] == one;
            if j < before.len() {
                assert(before[j] == one);
                let k = choose|k: int| 0 <= k < fewer.len() && fewer[k] == one;
                assert(ids[k] == one);
            } else {
                assert(ids[ids.len() - 1] == one);
            }
        }
    }
}

} // verus!
