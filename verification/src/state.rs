//! What the compositor decides about its clients' windows.
//!
//! Both protocols, throughout: an X11 window has no xdg toplevel, and a question asked only of one
//! leaves every X11 window unnamed, unclosed, unfocused or unsized. The answers are here; what
//! carries them to a client is not.

use vstd::prelude::*;
use crate::table::Table;
use crate::text::{chars, trim, trimmed};

verus! {

/// Pixel size proposed to a new toplevel.
///
/// 1280x800 across a window that fills a third of a 40 degree field works out at roughly one
/// surface pixel per display pixel, so text is neither soft nor pointlessly oversampled.
pub const DEFAULT_WINDOW_SIZE: (i32, i32) = (1_280, 800);

/// The step a screen grows by. Wide enough that a drag crosses one now and then, small enough that
/// the screen is never far bigger than the window that asked for it.
pub const STEP: i32 = 256;

/// The smallest whole number of steps that holds a length.
pub open spec fn stepped(n: int) -> int {
    (n + 255) / 256 * 256
}

/// The larger of two lengths.
pub open spec fn larger(a: int, b: int) -> int {
    if a < b {
        b
    } else {
        a
    }
}

/// How big the screen has to be to hold some windows: never smaller than a window is offered, and
/// in steps of what each needs.
pub open spec fn holding(windows: Seq<(i32, i32)>) -> (int, int)
    decreases windows.len(),
{
    if windows.len() == 0 {
        (DEFAULT_WINDOW_SIZE.0 as int, DEFAULT_WINDOW_SIZE.1 as int)
    } else {
        let before = holding(windows.drop_last());
        (
            larger(before.0, stepped(windows.last().0 as int)),
            larger(before.1, stepped(windows.last().1 as int)),
        )
    }
}

/// Whether every window is one a screen can be rounded up to.
pub open spec fn roundable(windows: Seq<(i32, i32)>) -> bool {
    forall|i: int|
        0 <= i < windows.len() ==> (#[trigger] windows[i]).0 <= i32::MAX - 255 && windows[i].1
            <= i32::MAX - 255
}

fn up(n: i32) -> (out: i32)
    requires
        0 <= n <= i32::MAX - 255,
    ensures
        out == stepped(n as int),
{
    (n + (STEP - 1)) / STEP * STEP
}

/// How big the screen has to be to hold these X11 windows.
///
/// Rounded up in steps rather than fitted exactly, because a resize drag changes a window's
/// size on almost every frame and every change is broadcast to every client as a mode change.
/// In steps, dragging a window across half the room crosses two or three of them.
pub fn screen_size_for(windows: &[(i32, i32)]) -> (out: (i32, i32))
    requires
        roundable(windows@),
    ensures
        (out.0 as int, out.1 as int) == holding(windows@),
{
    let mut w: i32 = DEFAULT_WINDOW_SIZE.0;
    let mut h: i32 = DEFAULT_WINDOW_SIZE.1;
    let mut i: usize = 0;
    while i < windows.len()
        invariant
            i <= windows.len(),
            roundable(windows@),
            (w as int, h as int) == holding(windows@.take(i as int)),
            w >= 1_280,
            h >= 800,
        decreases windows.len() - i,
    {
        assert(windows@.take(i + 1).drop_last() =~= windows@.take(i as int));
        let (wide, tall) = windows[i];
        // A window with no size asks for nothing.
        let need_w: i32 = if wide > 0 {
            up(wide)
        } else {
            0
        };
        let need_h: i32 = if tall > 0 {
            up(tall)
        } else {
            0
        };
        if need_w > w {
            w = need_w;
        }
        if need_h > h {
            h = need_h;
        }
        i = i + 1;
    }
    assert(windows@.take(i as int) =~= windows@);
    (w, h)
}

/// Every window fits on the screen, which is never smaller than a window is offered: the pointer of
/// an X11 window cannot leave the screen, so one bigger than it has a corner nothing can reach.
pub proof fn every_window_is_held(windows: Seq<(i32, i32)>, i: int)
    requires
        0 <= i < windows.len(),
    ensures
        windows[i].0 <= holding(windows).0,
        windows[i].1 <= holding(windows).1,
        1_280 <= holding(windows).0,
        800 <= holding(windows).1,
    decreases windows.len(),
{
    reveal_with_fuel(holding, 2);
    if i < windows.len() - 1 {
        every_window_is_held(windows.drop_last(), i);
    } else {
        lemma_floor(windows.drop_last());
    }
}

proof fn lemma_floor(windows: Seq<(i32, i32)>)
    ensures
        1_280 <= holding(windows).0,
        800 <= holding(windows).1,
    decreases windows.len(),
{
    if windows.len() > 0 {
        lemma_floor(windows.drop_last());
    }
}

/// A drag of a few pixels does not change the screen: one window between the same two steps as it
/// was asks for the same screen, and that is never a whole step more than it needs.
pub proof fn a_small_drag_leaves_the_screen(w: i32, h: i32, wider: i32)
    requires
        0 < w <= wider,
        (w - 1) / 256 == (wider - 1) / 256,
    ensures
        holding(seq![(wider, h)]) == holding(seq![(w, h)]),
        stepped(w as int) < w + 256,
{
    reveal_with_fuel(holding, 2);
    assert(seq![(w, h)].drop_last() =~= Seq::empty());
    assert(seq![(wider, h)].drop_last() =~= Seq::empty());
    assert((w + 255) / 256 == (w - 1) / 256 + 1);
    assert((wider + 255) / 256 == (wider - 1) / 256 + 1);
}

/// A mode clients are told of: so many pixels, so many thousandths of a redraw a second.
#[derive(Debug, Clone, Copy, PartialEq, Eq)]
pub struct Mode {
    pub size: (i32, i32),
    pub refresh: i32,
}

/// The one display clients are told about, and it is not a display.
///
/// Its mode is the size of a *window*, not the size of the glasses' framebuffer, because there is
/// no fullscreen: a window is a quad in a room, and the largest thing a client can ever fill is its
/// own surface.
#[derive(Debug, Clone, Copy, PartialEq, Eq)]
pub struct Screen {
    pub mode: Option<Mode>,
}

impl Screen {
    /// The screen before anything is known: the size every toplevel is offered, and a placeholder
    /// rate.
    pub fn new() -> (out: Screen)
        ensures
            out.mode == Some((Mode { size: DEFAULT_WINDOW_SIZE, refresh: 60_000 })),
    {
        Screen { mode: Some(Mode { size: DEFAULT_WINDOW_SIZE, refresh: 60_000 }) }
    }

    /// Tell clients how often the world is redrawn: the mode to send them, where it is not the one
    /// they have.
    ///
    /// The size stays a window's size; only the rate is real. 60 when the glasses are running
    /// at 72 is the kind of small lie that shows up as judder.
    pub fn set_screen_refresh(&mut self, refresh: i32) -> (out: Option<Mode>)
        ensures
            out is None <==> (old(self).mode matches Some(mode) && mode.refresh == refresh),
            out is None ==> *final(self) == *old(self),
            out is Some ==> final(self).mode == out,
            out matches Some(mode) ==> mode == (Mode {
                size: match old(self).mode {
                    Some(was) => was.size,
                    None => DEFAULT_WINDOW_SIZE,
                },
                refresh,
            }),
    {
        let size = match self.mode {
            Some(mode) => {
                if mode.refresh == refresh {
                    return None;
                }
                mode.size
            },
            None => DEFAULT_WINDOW_SIZE,
        };
        self.mode = Some(Mode { size, refresh });
        self.mode
    }

    /// Keep the screen at least as big as the biggest X11 window: the mode to send, where it is not
    /// the one clients have.
    ///
    /// Grown to fit rather than simply made huge, because the screen's size is also the answer
    /// to "how big is the display". It shrinks back, so closing a large window does not leave every
    /// game after it opening at that size for the rest of the session.
    pub fn fit_screen_to_windows(&mut self, windows: &[(i32, i32)]) -> (out: Option<Mode>)
        requires
            roundable(windows@),
        ensures
            out is None <==> (old(self).mode matches Some(mode) && (
                mode.size.0 as int,
                mode.size.1 as int,
            ) == holding(windows@)),
            out is None ==> *final(self) == *old(self),
            out is Some ==> final(self).mode == out,
            out matches Some(mode) ==> (mode.size.0 as int, mode.size.1 as int) == holding(windows@)
                && mode.refresh == (match old(self).mode {
                Some(was) => was.refresh,
                None => 60_000,
            }),
    {
        let (w, h) = screen_size_for(windows);
        let refresh: i32 = match self.mode {
            Some(mode) => {
                if mode.size.0 == w && mode.size.1 == h {
                    return None;
                }
                mode.refresh
            },
            None => 60_000,
        };
        self.mode = Some(Mode { size: (w, h), refresh });
        self.mode
    }
}

/// What a window says it is, whichever protocol it speaks.
#[derive(Debug, Clone, PartialEq, Eq)]
pub enum Names {
    X11 { title: String, class: String },
    Wayland { title: Option<String>, app_id: Option<String> },
    /// It speaks neither, or has no toplevel to ask.
    Neither,
}

/// Whether a text says anything.
pub open spec fn is_blank(s: Seq<char>) -> bool {
    trimmed(s).len() == 0
}

/// A text, where it says anything.
pub open spec fn told(s: Seq<char>) -> Option<Seq<char>> {
    if is_blank(s) {
        None
    } else {
        Some(s)
    }
}

/// A string as its characters, where there is one.
pub open spec fn shown(s: Option<String>) -> Option<Seq<char>> {
    match s {
        Some(s) => Some(s@),
        None => None,
    }
}

/// The title a client has set. An X11 window that has set none is called by its class, where it has
/// one.
pub open spec fn title_given(names: Names) -> Option<Seq<char>> {
    match names {
        Names::X11 { title, class } => if is_blank(title@) {
            told(class@)
        } else {
            Some(title@)
        },
        Names::Wayland { title, .. } => shown(title),
        Names::Neither => None,
    }
}

/// What an icon can be looked up by. X11's nearest equivalent is the class, which is what desktop
/// files are matched against.
pub open spec fn app_given(names: Names) -> Option<Seq<char>> {
    match names {
        Names::X11 { class, .. } => told(class@),
        Names::Wayland { app_id, .. } => shown(app_id),
        Names::Neither => None,
    }
}

/// What a window with nothing to call it by is called.
pub open spec fn untitled() -> Seq<char> {
    "Untitled"@
}

/// What a window is called: its title where that says anything, failing that its application where
/// that does, and failing that untitled.
pub open spec fn called(names: Names) -> Seq<char> {
    match title_given(names) {
        Some(title) if !is_blank(title) => title,
        _ => match app_given(names) {
            Some(app) if !is_blank(app) => app,
            _ => untitled(),
        },
    }
}

fn blank(s: &String) -> (out: bool)
    ensures
        out == is_blank(s@),
{
    let letters = chars(s.as_str());
    trim(letters.as_slice()).len() == 0
}

fn unless_blank(s: &String) -> (out: Option<String>)
    ensures
        shown(out) == told(s@),
{
    if blank(s) {
        None
    } else {
        Some(s.clone())
    }
}

fn copied(s: &Option<String>) -> (out: Option<String>)
    ensures
        shown(out) == shown(*s),
{
    match s {
        Some(s) => Some(s.clone()),
        None => None,
    }
}

/// The title a client has set.
pub fn title_of(names: &Names) -> (out: Option<String>)
    ensures
        shown(out) == title_given(*names),
{
    match names {
        Names::X11 { title, class } => if blank(title) {
            unless_blank(class)
        } else {
            Some(title.clone())
        },
        Names::Wayland { title, .. } => copied(title),
        Names::Neither => None,
    }
}

/// The window's application id, which is what an icon can be looked up by.
///
/// Not the title: a title is whatever the application decided to write there this second,
/// and changes with the open document.
pub fn app_id_of(names: &Names) -> (out: Option<String>)
    ensures
        shown(out) == app_given(*names),
{
    match names {
        Names::X11 { class, .. } => unless_blank(class),
        Names::Wayland { app_id, .. } => copied(app_id),
        Names::Neither => None,
    }
}

/// What to write on a window's title bar. Never blank.
pub fn display_title(names: &Names) -> (out: String)
    ensures
        out@ == called(*names),
{
    if let Some(title) = title_of(names) {
        if !blank(&title) {
            return title;
        }
    }
    if let Some(app) = app_id_of(names) {
        if !blank(&app) {
            return app;
        }
    }
    "Untitled".to_owned()
}

/// A title bar is never blank, whatever the window says of itself.
pub proof fn a_title_bar_says_something(names: Names)
    ensures
        !is_blank(called(names)),
{
    reveal_strlit("Untitled");
    let word = untitled();
    assert(word.len() == 8);
    assert(!crate::text::is_space(word[0]));
    assert(!crate::text::is_space(word[7]));
    assert(crate::text::without_leading(word, crate::text::Class::Space) == word);
    assert(crate::text::without_trailing(word, crate::text::Class::Space) == word);
}

/// What the keyboard is pointed at: a Wayland surface, or an X11 window.
///
/// For an X11 window its surface is only half of it: XWayland draws every X window into one, so
/// handing over that surface delivers the keys to the X server — where they stop, because X decides
/// which of its own windows gets a key from its own input focus.
#[derive(Debug, Clone, Copy, PartialEq, Eq, Structural)]
pub enum KeyboardFocus {
    Wayland(u32),
    X11(u32),
}

/// What of a window can be typed into.
#[derive(Debug, Clone, Copy, PartialEq, Eq, Structural)]
pub enum Typed {
    /// An X11 window, and whether XWayland has given it a surface yet.
    X11 { window: u32, has_surface: bool },
    /// A toplevel's surface.
    Toplevel(u32),
    Neither,
}

/// What the seat should be given for a window: the X11 window itself where there is one. One with no
/// surface yet cannot be typed into: XWayland has nothing to deliver to.
pub open spec fn target_of(window: Typed) -> Option<KeyboardFocus> {
    match window {
        Typed::X11 { window, has_surface } => if has_surface {
            Some(KeyboardFocus::X11(window))
        } else {
            None
        },
        Typed::Toplevel(surface) => Some(KeyboardFocus::Wayland(surface)),
        Typed::Neither => None,
    }
}

/// What the seat should be given for a window.
pub fn keyboard_target(window: Typed) -> (out: Option<KeyboardFocus>)
    ensures
        out == target_of(window),
{
    match window {
        Typed::X11 { window, has_surface } => if has_surface {
            Some(KeyboardFocus::X11(window))
        } else {
            None
        },
        Typed::Toplevel(surface) => Some(KeyboardFocus::Wayland(surface)),
        Typed::Neither => None,
    }
}

/// What to do so that the keyboard agrees with the window in front.
#[derive(Debug, Clone, Copy, PartialEq, Eq, Structural)]
pub enum Settle {
    /// Nothing: it already does.
    Leave,
    /// Give it to the window in front.
    Focus,
    /// Take it from whatever has it: there is nothing left to type into.
    Clear,
}

/// How giving a window the keyboard is done, in order: a window losing it is told so, and one
/// gaining it, before the keyboard moves.
#[derive(Debug, Clone, Copy, PartialEq, Eq)]
pub struct Focusing {
    /// The X11 window to raise in X's own stacking order.
    pub raise: Option<u32>,
    /// The X11 window to take the focused state off: two windows both convinced they are focused is
    /// how a game ends up ignoring a keyboard that is being typed on.
    pub deactivate: Option<u32>,
    pub activate: Option<u32>,
    pub keyboard: Option<KeyboardFocus>,
}

/// The keyboard's focus, as last settled.
#[derive(Debug, Clone, Copy, PartialEq, Eq)]
pub struct Focus {
    pub settled: Option<KeyboardFocus>,
}

/// How giving a window the keyboard is done.
pub open spec fn focusing(
    window: Typed,
    has_manager: bool,
    has_keyboard: bool,
    current: Option<KeyboardFocus>,
) -> Focusing {
    let target = if has_keyboard {
        target_of(window)
    } else {
        None
    };
    Focusing {
        raise: match window {
            Typed::X11 { window, .. } => if has_manager {
                Some(window)
            } else {
                None
            },
            _ => None,
        },
        deactivate: match (target, current) {
            (Some(target), Some(KeyboardFocus::X11(held))) => if target == KeyboardFocus::X11(
                held,
            ) {
                None
            } else {
                Some(held)
            },
            _ => None,
        },
        activate: match target {
            Some(KeyboardFocus::X11(window)) => Some(window),
            _ => None,
        },
        keyboard: target,
    }
}

impl Focus {
    pub fn new() -> (out: Focus)
        ensures
            out.settled is None,
    {
        Focus { settled: None }
    }

    /// Make the keyboard agree with the window in front, if there is one.
    ///
    /// Held against the last focus this settled rather than against the seat's current one,
    /// because a client that has taken a keyboard grab for a menu *should* hold the keyboard
    /// and its grab declines to give it back.
    pub fn settle_keyboard_focus(&mut self, front: Option<Typed>) -> (out: Settle)
        ensures
            ({
                let wanted = match front {
                    Some(window) => target_of(window),
                    None => None,
                };
                &&& out == (if wanted == old(self).settled {
                    Settle::Leave
                } else if wanted is Some {
                    Settle::Focus
                } else {
                    Settle::Clear
                })
                &&& *final(self) == (if wanted is None {
                    (Focus { settled: None })
                } else {
                    *old(self)
                })
            }),
    {
        let wanted = match front {
            Some(window) => keyboard_target(window),
            None => None,
        };
        match (wanted, self.settled) {
            (Some(wanted), Some(settled)) => if wanted == settled {
                Settle::Leave
            } else {
                Settle::Focus
            },
            (Some(_), None) => Settle::Focus,
            (None, None) => Settle::Leave,
            (None, Some(_)) => {
                self.settled = None;
                Settle::Clear
            },
        }
    }

    /// Give a window focus: what is to be done, and from here on it is taken to be.
    pub fn focus_window(
        &mut self,
        window: Typed,
        has_manager: bool,
        has_keyboard: bool,
        current: Option<KeyboardFocus>,
    ) -> (out: Focusing)
        ensures
            out == focusing(window, has_manager, has_keyboard, current),
            final(self).settled == (if out.keyboard is Some {
                out.keyboard
            } else {
                old(self).settled
            }),
    {
        let target = if has_keyboard {
            keyboard_target(window)
        } else {
            None
        };
        if target.is_some() {
            self.settled = target;
        }
        Focusing {
            raise: match window {
                Typed::X11 { window, .. } => if has_manager {
                    Some(window)
                } else {
                    None
                },
                _ => None,
            },
            deactivate: match (target, current) {
                (Some(target), Some(KeyboardFocus::X11(held))) => if target == KeyboardFocus::X11(
                    held,
                ) {
                    None
                } else {
                    Some(held)
                },
                _ => None,
            },
            activate: match target {
                Some(KeyboardFocus::X11(window)) => Some(window),
                _ => None,
            },
            keyboard: target,
        }
    }
}

/// Settling the keyboard settles it: once the window in front has been given it, there is nothing
/// more to do until another comes in front; and of two X11 windows never both are left focused.
pub proof fn settled_is_settled(
    window: Typed,
    has_manager: bool,
    current: Option<KeyboardFocus>,
    held: u32,
)
    requires
        target_of(window) is Some,
        current == Some(KeyboardFocus::X11(held)),
    ensures
        focusing(window, has_manager, true, current).keyboard == target_of(window),
        focusing(window, has_manager, true, current).activate != Some(held) ==> focusing(
            window,
            has_manager,
            true,
            current,
        ).deactivate == Some(held),
        focusing(window, has_manager, true, current).activate == Some(held) ==> focusing(
            window,
            has_manager,
            true,
            current,
        ).deactivate is None,
{
}

/// A window a size can be asked of.
#[derive(Debug, Clone, Copy, PartialEq, Eq)]
pub enum Sizing {
    /// An X11 window, and the size it has.
    X11 { size: (i32, i32) },
    /// A toplevel, and the size it was last given, if any.
    Toplevel { size: Option<(i32, i32)> },
    Neither,
}

/// Whether a window is asked for a size: only when the size is new. A resize drag asks every frame,
/// and a configure the client has already been sent is one more thing for it to answer for no
/// reason.
pub fn request_size(window: Sizing, size: (i32, i32)) -> (out: bool)
    ensures
        out == (match window {
            Sizing::X11 { size: has } => has != size,
            Sizing::Toplevel { size: has } => has != Some(size),
            Sizing::Neither => false,
        }),
{
    match window {
        Sizing::X11 { size: has } => !(has.0 == size.0 && has.1 == size.1),
        Sizing::Toplevel { size: has } => match has {
            Some(has) => !(has.0 == size.0 && has.1 == size.1),
            None => true,
        },
        Sizing::Neither => false,
    }
}

/// The pixel size a toplevel is already working at, or the size it was offered.
///
/// Used to answer every "resize me" request, because in a room there is nothing bigger to
/// resize *to*: the wearer chose how large this window is, and an application asking to
/// be maximised is asking about a screen that does not exist.
pub fn surface_size(current: Option<(i32, i32)>) -> (out: (i32, i32))
    ensures
        out == (match current {
            Some(size) => if size.0 > 0 && size.1 > 0 {
                size
            } else {
                DEFAULT_WINDOW_SIZE
            },
            None => DEFAULT_WINDOW_SIZE,
        }),
{
    match current {
        Some(size) => if size.0 > 0 && size.1 > 0 {
            size
        } else {
            DEFAULT_WINDOW_SIZE
        },
        None => DEFAULT_WINDOW_SIZE,
    }
}

/// An open window as the switcher lists it.
#[derive(Debug, Clone, PartialEq, Eq)]
pub struct Open {
    /// Whether it has become the room rather than a thing in it.
    pub environment: bool,
    /// What the layout knows it by, if it has a place.
    pub id: Option<usize>,
    pub names: Names,
    pub focused: bool,
    /// The X11 window it is, if it is one.
    pub x11: Option<u32>,
}

/// A row of the switcher.
#[derive(Debug, Clone, PartialEq, Eq)]
pub struct WindowEntry {
    pub id: usize,
    pub title: String,
    pub current: bool,
}

/// A row of the switcher, and the characters of its title.
pub struct EntryView {
    pub id: usize,
    pub title: Seq<char>,
    pub current: bool,
}

impl View for WindowEntry {
    type V = EntryView;

    open spec fn view(&self) -> EntryView {
        EntryView { id: self.id, title: self.title@, current: self.current }
    }
}

/// A list of rows, each as what it says.
pub open spec fn entries(v: Seq<WindowEntry>) -> Seq<EntryView> {
    v.map_values(|e: WindowEntry| e@)
}

/// The rows of the switcher. Titles rather than handles, and never blank: an unlabelled row is
/// indistinguishable from a bug.
pub open spec fn switcher(windows: Seq<Open>) -> Seq<EntryView>
    decreases windows.len(),
{
    if windows.len() == 0 {
        Seq::empty()
    } else {
        let before = switcher(windows.drop_last());
        let w = windows.last();
        if w.environment || w.id is None {
            before
        } else {
            before.push(EntryView { id: w.id->0, title: called(w.names), current: w.focused })
        }
    }
}

/// No row of the switcher is blank.
pub proof fn no_row_is_blank(windows: Seq<Open>)
    ensures
        forall|i: int|
            0 <= i < switcher(windows).len() ==> !is_blank((#[trigger] switcher(windows)[i]).title),
    decreases windows.len(),
{
    if windows.len() > 0 {
        no_row_is_blank(windows.drop_last());
        a_title_bar_says_something(windows.last().names);
        let before = switcher(windows.drop_last());
        assert forall|i: int| 0 <= i < switcher(windows).len() implies !is_blank(
            (#[trigger] switcher(windows)[i]).title,
        ) by {
            if i < before.len() {
                assert(switcher(windows)[i] == before[i]);
            }
        }
    }
}

/// Every open window, for the switcher.
pub fn open_windows(windows: &[Open]) -> (out: Vec<WindowEntry>)
    ensures
        entries(out@) == switcher(windows@),
{
    let mut out: Vec<WindowEntry> = Vec::new();
    let mut i: usize = 0;
    assert(entries(out@) =~= switcher(windows@.take(0)));
    while i < windows.len()
        invariant
            i <= windows.len(),
            entries(out@) == switcher(windows@.take(i as int)),
        decreases windows.len() - i,
    {
        assert(windows@.take(i + 1).drop_last() =~= windows@.take(i as int));
        let w = &windows[i];
        let ghost before = out@;
        if !w.environment {
            if let Some(id) = w.id {
                out.push(WindowEntry { id, title: display_title(&w.names), current: w.focused });
                assert(entries(out@) =~= entries(before).push(out@.last()@));
            }
        }
        i = i + 1;
    }
    assert(windows@.take(i as int) =~= windows@);
    out
}

/// How many windows the wearer would say are open: not the ones that are the sky.
pub open spec fn counted(windows: Seq<Open>) -> nat
    decreases windows.len(),
{
    if windows.len() == 0 {
        0
    } else {
        counted(windows.drop_last()) + (if windows.last().environment {
            0nat
        } else {
            1
        })
    }
}

/// How many windows the wearer would say are open.
pub fn window_count(windows: &[Open]) -> (out: usize)
    ensures
        out == counted(windows@),
{
    let mut n: usize = 0;
    let mut i: usize = 0;
    while i < windows.len()
        invariant
            i <= windows.len(),
            n <= i,
            n == counted(windows@.take(i as int)),
        decreases windows.len() - i,
    {
        assert(windows@.take(i + 1).drop_last() =~= windows@.take(i as int));
        if !windows[i].environment {
            n = n + 1;
        }
        i = i + 1;
    }
    assert(windows@.take(i as int) =~= windows@);
    n
}

/// Whether a window can host an X11 menu, and is in front.
pub open spec fn hosts(w: Open, focused: bool) -> bool {
    w.x11 is Some && (focused ==> w.focused)
}

/// The first window that can host an X11 menu.
pub open spec fn first_host(windows: Seq<Open>, focused: bool) -> Option<int>
    decreases windows.len(),
{
    if windows.len() == 0 {
        None
    } else {
        match first_host(windows.drop_last(), focused) {
            Some(i) => Some(i),
            None => if hosts(windows.last(), focused) {
                Some(windows.len() - 1)
            } else {
                None
            },
        }
    }
}

fn find_host(windows: &[Open], focused: bool) -> (out: Option<usize>)
    ensures
        match out {
            Some(i) => first_host(windows@, focused) == Some(i as int) && i < windows@.len(),
            None => first_host(windows@, focused) is None,
        },
{
    let mut found: Option<usize> = None;
    let mut i: usize = 0;
    while i < windows.len()
        invariant
            i <= windows.len(),
            match found {
                Some(at) => first_host(windows@.take(i as int), focused) == Some(at as int) && at
                    < i,
                None => first_host(windows@.take(i as int), focused) is None,
            },
        decreases windows.len() - i,
    {
        assert(windows@.take(i + 1).drop_last() =~= windows@.take(i as int));
        if found.is_none() && windows[i].x11.is_some() && (!focused || windows[i].focused) {
            found = Some(i);
        }
        i = i + 1;
    }
    assert(windows@.take(i as int) =~= windows@);
    found
}

/// Which window an X11 menu should be drawn on, by its place in the list.
///
/// The focused X11 window, and failing that the first one there is. X11 gives a menu no
/// reliable parent -- so this is a guess, and it is the same guess the wearer is making: menus
/// belong to the application you are using.
pub fn x11_menu_host(windows: &[Open]) -> (out: Option<usize>)
    ensures
        match (first_host(windows@, true), first_host(windows@, false)) {
            (Some(i), _) => out matches Some(at) && at == i,
            (None, Some(i)) => out matches Some(at) && at == i,
            (None, None) => out is None,
        },
{
    match find_host(windows, true) {
        Some(i) => Some(i),
        None => find_host(windows, false),
    }
}

/// Windows that have come and gone since anyone last looked.
///
/// Collected rather than acted on directly because the audio engine lives in the render loop, and a
/// protocol handler is not the place to reach into it.
#[derive(Debug)]
pub struct Comings {
    /// Each with the process of the client that owns it, which is what ties a window back to the
    /// application that was launched for it.
    pub arrived: Vec<(usize, Option<u32>)>,
    pub departed: Vec<usize>,
    /// Which process each X11 window belongs to, remembered from when it mapped: a window cannot be
    /// identified until its surface arrives, and by then the request that said so is long gone.
    pub x11_pids: Table<Option<u32>>,
    /// Override-redirect X11 windows that are currently on screen: menus, dropdowns, tooltips, drag
    /// icons. Drawn as popups on their parent's own surface, not as windows of the room.
    pub x11_popups: Vec<u32>,
}

/// The process remembered for an X11 window.
pub open spec fn pid_in(pids: Map<u32, Option<u32>>, window: u32) -> Option<u32> {
    if pids.contains_key(window) {
        pids[window]
    } else {
        None
    }
}

/// Every popup but one.
pub open spec fn other_popups(surface: u32) -> spec_fn(u32) -> bool {
    |s: u32| s != surface
}

impl Comings {
    pub open spec fn wf(self) -> bool {
        self.x11_pids.wf()
    }

    pub fn new() -> (out: Comings)
        ensures
            out.wf(),
            out.arrived@.len() == 0,
            out.departed@.len() == 0,
            out.x11_pids.map() == Map::<u32, Option<u32>>::empty(),
            out.x11_popups@.len() == 0,
    {
        Comings {
            arrived: Vec::new(),
            departed: Vec::new(),
            x11_pids: Table::new(),
            x11_popups: Vec::new(),
        }
    }

    /// The process an X11 window belongs to.
    pub fn pid_of(&self, window: u32) -> (out: Option<u32>)
        requires
            self.wf(),
        ensures
            out == pid_in(self.x11_pids.map(), window),
    {
        match self.x11_pids.get(window) {
            Some(pid) => *pid,
            None => None,
        }
    }

    /// A toplevel has been given a place, or not.
    pub fn new_toplevel(&mut self, id: Option<usize>, pid: Option<u32>)
        ensures
            final(self).arrived@ == (match id {
                Some(id) => old(self).arrived@.push((id, pid)),
                None => old(self).arrived@,
            }),
            final(self).departed == old(self).departed,
            final(self).x11_pids == old(self).x11_pids,
            final(self).x11_popups == old(self).x11_popups,
    {
        if let Some(id) = id {
            self.arrived.push((id, pid));
        }
    }

    /// A newly mapped X11 window: which process it belongs to is remembered.
    pub fn adopt_x11_window(&mut self, window: u32, pid: Option<u32>)
        requires
            old(self).wf(),
        ensures
            final(self).wf(),
            final(self).x11_pids.map() == old(self).x11_pids.map().insert(window, pid),
            final(self).arrived == old(self).arrived,
            final(self).departed == old(self).departed,
            final(self).x11_popups == old(self).x11_popups,
    {
        self.x11_pids.insert(window, pid);
    }

    /// An X11 window that has been given a place has arrived.
    pub fn place_x11_window(&mut self, window: u32, id: Option<usize>)
        requires
            old(self).wf(),
        ensures
            final(self).wf(),
            final(self).arrived@ == (match id {
                Some(id) => old(self).arrived@.push((id, pid_in(old(self).x11_pids.map(), window))),
                None => old(self).arrived@,
            }),
            final(self).departed == old(self).departed,
            final(self).x11_pids == old(self).x11_pids,
            final(self).x11_popups == old(self).x11_popups,
    {
        let pid = self.pid_of(window);
        if let Some(id) = id {
            self.arrived.push((id, pid));
        }
    }

    /// A menu, a dropdown or a tooltip from an X11 application, kept once.
    pub fn adopt_x11_popup(&mut self, surface: u32) -> (out: bool)
        ensures
            out == !old(self).x11_popups@.contains(surface),
            final(self).x11_popups@ == (if out {
                old(self).x11_popups@.push(surface)
            } else {
                old(self).x11_popups@
            }),
            final(self).arrived == old(self).arrived,
            final(self).departed == old(self).departed,
            final(self).x11_pids == old(self).x11_pids,
    {
        let mut i: usize = 0;
        while i < self.x11_popups.len()
            invariant
                i <= self.x11_popups.len(),
                *self == *old(self),
                forall|j: int| 0 <= j < i ==> self.x11_popups@[j] != surface,
            decreases self.x11_popups.len() - i,
        {
            if self.x11_popups[i] == surface {
                return false;
            }
            i = i + 1;
        }
        self.x11_popups.push(surface);
        true
    }

    /// A window has gone, and is known by this.
    pub fn departs(&mut self, id: Option<usize>)
        ensures
            final(self).departed@ == (match id {
                Some(id) => old(self).departed@.push(id),
                None => old(self).departed@,
            }),
            final(self).arrived == old(self).arrived,
            final(self).x11_pids == old(self).x11_pids,
            final(self).x11_popups == old(self).x11_popups,
    {
        if let Some(id) = id {
            self.departed.push(id);
        }
    }

    /// An X11 window has gone. A menu closing comes through here too, and is known by nothing.
    pub fn forget_x11_window(&mut self, surface: u32, id: Option<usize>)
        ensures
            final(self).x11_popups@ == old(self).x11_popups@.filter(other_popups(surface)),
            final(self).departed@ == (match id {
                Some(id) => old(self).departed@.push(id),
                None => old(self).departed@,
            }),
            final(self).arrived == old(self).arrived,
            final(self).x11_pids == old(self).x11_pids,
    {
        let ghost was = self.x11_popups@;
        let mut kept: Vec<u32> = Vec::new();
        let mut i: usize = 0;
        while i < self.x11_popups.len()
            invariant
                i <= self.x11_popups.len(),
                *self == *old(self),
                was == self.x11_popups@,
                kept@ == was.take(i as int).filter(other_popups(surface)),
            decreases self.x11_popups.len() - i,
        {
            proof {
                reveal(Seq::filter);
                assert(was.take(i + 1).drop_last() =~= was.take(i as int));
            }
            if self.x11_popups[i] != surface {
                kept.push(self.x11_popups[i]);
            }
            i = i + 1;
        }
        assert(was.take(i as int) =~= was);
        self.x11_popups = kept;
        self.departs(id);
    }

    /// What has come since anyone last looked, in order; from here on nothing has.
    pub fn take_arrived(&mut self) -> (out: Vec<(usize, Option<u32>)>)
        ensures
            out == old(self).arrived,
            final(self).arrived@.len() == 0,
            final(self).departed == old(self).departed,
            final(self).x11_pids == old(self).x11_pids,
            final(self).x11_popups == old(self).x11_popups,
    {
        let mut out: Vec<(usize, Option<u32>)> = Vec::new();
        std::mem::swap(&mut out, &mut self.arrived);
        out
    }

    /// What has gone since anyone last looked, in order; from here on nothing has.
    pub fn take_departed(&mut self) -> (out: Vec<usize>)
        ensures
            out == old(self).departed,
            final(self).departed@.len() == 0,
            final(self).arrived == old(self).arrived,
            final(self).x11_pids == old(self).x11_pids,
            final(self).x11_popups == old(self).x11_popups,
    {
        let mut out: Vec<usize> = Vec::new();
        std::mem::swap(&mut out, &mut self.departed);
        out
    }
}

/// Whether an X11 window is to be given a place now: only one that has none, and that can be
/// identified, which needs its surface or a name the layout already has for it. Asked both when the
/// window maps and when its surface arrives, because either can come first.
pub fn can_be_placed(has_place: bool, has_id: bool, has_surface: bool) -> (out: bool)
    ensures
        out == (!has_place && (has_id || has_surface)),
{
    !has_place && (has_id || has_surface)
}

/// What a surface's commit moves on.
#[derive(Debug, Clone, Copy, PartialEq, Eq)]
pub struct Commit {
    /// The window whose picture moves on.
    pub window: Option<usize>,
    /// Whether that is the window being used, whose cadence is kept.
    pub drew: bool,
}

/// The first window whose surface is this one.
pub open spec fn window_with(surfaces: Seq<Option<u32>>, root: u32) -> Option<int>
    decreases surfaces.len(),
{
    if surfaces.len() == 0 {
        None
    } else {
        match window_with(surfaces.drop_last(), root) {
            Some(found) => Some(found),
            None => if surfaces.last() == Some(root) {
                Some(surfaces.len() - 1)
            } else {
                None
            },
        }
    }
}

/// What a commit moves on: nothing yet for a subsurface that waits for its parent's commit, and
/// otherwise the window whose surface the commit's root is. The windows' own surfaces are looked
/// at rather than their toplevels, because an X11 window does not have one, and a window whose
/// picture never moves on has nothing to draw.
pub fn commit(waits_for_parent: bool, root: u32, surfaces: &[Option<u32>], focused: Option<usize>) -> (
out: Commit)
    ensures
        match window_with(surfaces@, root) {
            Some(window) if !waits_for_parent => out.window == Some(window as usize)
                && 0 <= window < surfaces@.len(),
            _ => out.window is None,
        },
        out.drew == (out.window is Some && out.window == focused),
{
    let mut window: Option<usize> = None;
    let mut i: usize = 0;
    while i < surfaces.len()
        invariant
            i <= surfaces.len(),
            match window_with(surfaces@.take(i as int), root) {
                Some(found) => 0 <= found < i && window == Some(found as usize),
                None => window is None,
            },
        decreases surfaces.len() - i,
    {
        assert(surfaces@.take(i + 1).drop_last() =~= surfaces@.take(i as int));
        if let Some(surface) = surfaces[i] {
            if window.is_none() && surface == root {
                window = Some(i);
            }
        }
        i = i + 1;
    }
    assert(surfaces@.take(i as int) =~= surfaces@);
    if waits_for_parent {
        return Commit { window: None, drew: false };
    }
    let drew = match (window, focused) {
        (Some(window), Some(focused)) => window == focused,
        _ => false,
    };
    Commit { window, drew }
}

/// A popup as its first configure is decided: whether it is an xdg popup, and whether it was sent
/// one, where that can be told.
#[derive(Debug, Clone, Copy, PartialEq, Eq)]
pub struct PopupState {
    pub xdg: bool,
    pub sent: Option<bool>,
}

/// Which configure a commit calls for.
#[derive(Debug, Clone, Copy, PartialEq, Eq, Structural)]
pub enum Configure {
    Nothing,
    Popup,
    Toplevel,
}

/// Which configure a commit calls for: a surface requires one before its client may attach a
/// buffer. Popups first, and they need their own answer: a popup is not among the windows, so
/// looking for it there finds nothing and its client waits for a configure that never comes. A
/// surface whose state cannot be told is not configured again.
pub fn ensure_initial_configure(popup: Option<PopupState>, toplevel: Option<Option<bool>>) -> (out:
    Configure)
    ensures
        out == (match popup {
            Some(popup) => if popup.xdg && popup.sent == Some(false) {
                Configure::Popup
            } else {
                Configure::Nothing
            },
            None => if toplevel == Some(Some(false)) {
                Configure::Toplevel
            } else {
                Configure::Nothing
            },
        }),
{
    match popup {
        Some(popup) => match popup.sent {
            Some(sent) => if popup.xdg && !sent {
                Configure::Popup
            } else {
                Configure::Nothing
            },
            None => Configure::Nothing,
        },
        None => match toplevel {
            Some(Some(sent)) => if sent {
                Configure::Nothing
            } else {
                Configure::Toplevel
            },
            _ => Configure::Nothing,
        },
    }
}

/// Whose compositor state a client's is: ours, XWayland's own, or, of a client nobody has accounted
/// for, one shared by all such. Wrong in that two of them would share it; right in that the session
/// survives to say so.
#[derive(Debug, Clone, Copy, PartialEq, Eq, Structural)]
pub enum Account {
    Ours,
    XWayland,
    Unaccounted,
}

/// Whose compositor state a client's is.
pub fn client_compositor_state(has_ours: bool, has_xwayland: bool) -> (out: Account)
    ensures
        out == (if has_ours {
            Account::Ours
        } else if has_xwayland {
            Account::XWayland
        } else {
            Account::Unaccounted
        }),
{
    if has_ours {
        Account::Ours
    } else if has_xwayland {
        Account::XWayland
    } else {
        Account::Unaccounted
    }
}

/// Whether a pointer lock is granted: at once, to the surface the pointer is over. There is no
/// desktop cursor for a lock to take away from anyone.
pub fn new_constraint(focus: Option<u32>, surface: u32) -> (out: bool)
    ensures
        out == (focus == Some(surface)),
{
    match focus {
        Some(focus) => focus == surface,
        None => false,
    }
}

/// How a window is asked to close, whichever protocol it speaks: it is asked, not made to.
#[derive(Debug, Clone, Copy, PartialEq, Eq, Structural)]
pub enum Close {
    X11,
    Toplevel,
    Nothing,
}

/// How a window is asked to close.
pub fn close_window(is_x11: bool, has_toplevel: bool) -> (out: Close)
    ensures
        out == (if is_x11 {
            Close::X11
        } else if has_toplevel {
            Close::Toplevel
        } else {
            Close::Nothing
        }),
{
    if is_x11 {
        Close::X11
    } else if has_toplevel {
        Close::Toplevel
    } else {
        Close::Nothing
    }
}

/// Where on a notional plane the next window goes, with so many there. The spatial layer never reads
/// these as pixels; the place only has to be unique and stable.
pub fn slot(windows: u16) -> (out: (i32, i32))
    ensures
        out == ((windows * 32) as i32, (windows * 32) as i32),
{
    let at: i32 = windows as i32 * 32;
    (at, at)
}

/// A client asking for more of the screen, or giving it back.
#[derive(Debug, Clone, Copy, PartialEq, Eq, Structural)]
pub enum Request {
    Fullscreen,
    Unfullscreen,
    Maximize,
    Unmaximize,
}

/// What is answered: the client is told it is in the state it asked for, at the size it already
/// has.
#[derive(Debug, Clone, Copy, PartialEq, Eq)]
pub struct Answer {
    /// Whether it is told it is full screen, where that is what it asked about.
    pub fullscreen: Option<bool>,
    /// Whether it is told it is maximised, where that is what it asked about.
    pub maximized: Option<bool>,
    pub size: (i32, i32),
}

/// What a client asking for more of the screen, or giving it back, is answered. In a room there is
/// nothing bigger to be, so the state is granted and the size is the one it is working at.
pub fn answer(request: Request, current: Option<(i32, i32)>) -> (out: Answer)
    ensures
        out.fullscreen == (match request {
            Request::Fullscreen => Some(true),
            Request::Unfullscreen => Some(false),
            _ => None,
        }),
        out.maximized == (match request {
            Request::Maximize => Some(true),
            Request::Unmaximize => Some(false),
            _ => None,
        }),
        out.size == (match current {
            Some(size) => if size.0 > 0 && size.1 > 0 {
                size
            } else {
                DEFAULT_WINDOW_SIZE
            },
            None => DEFAULT_WINDOW_SIZE,
        }),
{
    let size = surface_size(current);
    match request {
        Request::Fullscreen => Answer { fullscreen: Some(true), maximized: None, size },
        Request::Unfullscreen => Answer { fullscreen: Some(false), maximized: None, size },
        Request::Maximize => Answer { fullscreen: None, maximized: Some(true), size },
        Request::Unmaximize => Answer { fullscreen: None, maximized: Some(false), size },
    }
}

/// The screen is no bigger than it has to be: each way it is what a window is offered, or whole
/// steps and less than a step more than the widest window, or the tallest, needs. The one has
/// nothing to do with the other.
pub proof fn the_screen_is_no_bigger_than_it_has_to_be(windows: Seq<(i32, i32)>)
    ensures
        holding(windows).0 == 1_280 || (holding(windows).0 % 256 == 0 && exists|i: int|
            0 <= i < windows.len() && holding(windows).0 - 256 < (#[trigger] windows[i]).0),
        holding(windows).1 == 800 || (holding(windows).1 % 256 == 0 && exists|i: int|
            0 <= i < windows.len() && holding(windows).1 - 256 < (#[trigger] windows[i]).1),
    decreases windows.len(),
{
    if windows.len() > 0 {
        let fewer = windows.drop_last();
        the_screen_is_no_bigger_than_it_has_to_be(fewer);
        let last = windows.len() - 1;
        if holding(windows).0 != 1_280 {
            if holding(windows).0 == holding(fewer).0 {
                let i = choose|i: int|
                    0 <= i < fewer.len() && holding(fewer).0 - 256 < (#[trigger] fewer[i]).0;
                assert(windows[i] == fewer[i]);
            } else {
                assert(holding(windows).0 - 256 < windows[last].0);
            }
        }
        if holding(windows).1 != 800 {
            if holding(windows).1 == holding(fewer).1 {
                let i = choose|i: int|
                    0 <= i < fewer.len() && holding(fewer).1 - 256 < (#[trigger] fewer[i]).1;
                assert(windows[i] == fewer[i]);
            } else {
                assert(holding(windows).1 - 256 < windows[last].1);
            }
        }
    }
}

/// A window is called by its own title wherever that says anything, and exactly so; failing that by
/// its class, or its application's id; and failing both it is untitled. What its icon is looked up
/// by has nothing to do with its title.
pub proof fn a_window_is_called_by_its_title_first(
    title: String,
    class: String,
    other: String,
    shown_title: Option<String>,
    app_id: Option<String>,
)
    ensures
        ({
            let x11 = Names::X11 { title, class };
            let wayland = Names::Wayland { title: shown_title, app_id };
            &&& trimmed(title@).len() > 0 ==> called(x11) == title@ && title_given(x11) == Some(
                title@,
            )
            &&& trimmed(title@).len() == 0 && trimmed(class@).len() > 0 ==> called(x11) == class@
                && title_given(x11) == Some(class@)
            &&& trimmed(title@).len() == 0 && trimmed(class@).len() == 0 ==> called(x11)
                == "Untitled"@ && title_given(x11) is None
            &&& trimmed(class@).len() > 0 ==> app_given(x11) == Some(class@)
            &&& trimmed(class@).len() == 0 ==> app_given(x11) is None
            &&& app_given(Names::X11 { title: other, class }) == app_given(x11)
            &&& shown_title matches Some(t) ==> title_given(wayland) == Some(t@)
            &&& shown_title is None ==> title_given(wayland) is None
            &&& app_id matches Some(a) ==> app_given(wayland) == Some(a@)
            &&& app_id is None ==> app_given(wayland) is None
            &&& (shown_title matches Some(t) && trimmed(t@).len() > 0) ==> called(wayland)
                == shown_title->0@
            &&& !(shown_title matches Some(t) && trimmed(t@).len() > 0) && (app_id matches Some(a)
                && trimmed(a@).len() > 0) ==> called(wayland) == app_id->0@
            &&& !(shown_title matches Some(t) && trimmed(t@).len() > 0) && !(app_id matches Some(a)
                && trimmed(a@).len() > 0) ==> called(wayland) == "Untitled"@
            &&& called(Names::Neither) == "Untitled"@
        }),
{
}

/// The keyboard goes to the X11 window itself, once it has a surface, and to a toplevel's surface;
/// what is neither cannot be typed into. Only an X11 window is raised or made active, and only one
/// that had the keyboard, and is losing it to another window, is made inactive. Without a keyboard
/// nothing is given or taken.
pub proof fn the_keyboard_goes_to_what_can_be_typed_into(
    window: u32,
    surface: u32,
    has_manager: bool,
    current: Option<KeyboardFocus>,
)
    ensures
        ({
            let ready = Typed::X11 { window, has_surface: true };
            let early = Typed::X11 { window, has_surface: false };
            let given = focusing(ready, has_manager, true, current);
            let top = focusing(Typed::Toplevel(surface), has_manager, true, current);
            let none = focusing(ready, has_manager, false, current);
            &&& target_of(ready) == Some(KeyboardFocus::X11(window))
            &&& target_of(early) is None
            &&& target_of(Typed::Toplevel(surface)) == Some(KeyboardFocus::Wayland(surface))
            &&& target_of(Typed::Neither) is None
            &&& given.keyboard == Some(KeyboardFocus::X11(window))
            &&& given.activate == Some(window)
            &&& has_manager ==> given.raise == Some(window) && none.raise == Some(window)
            &&& !has_manager ==> given.raise is None
            &&& top.keyboard == Some(KeyboardFocus::Wayland(surface))
            &&& top.activate is None && top.raise is None
            &&& none.keyboard is None && none.activate is None && none.deactivate is None
            &&& (current matches Some(KeyboardFocus::X11(held))) ==> top.deactivate == Some(
                current->0->X11_0,
            )
            &&& !(current matches Some(KeyboardFocus::X11(held))) ==> given.deactivate is None
                && top.deactivate is None
        }),
{
}

/// The switcher lists every window that is not the sky and has a handle, in order, each by what it
/// is called, with the window in front marked; and the count is of every window that is not the sky.
pub proof fn the_switcher_lists_every_window(windows: Seq<Open>)
    ensures
        switcher(windows) == windows.filter(|w: Open| !w.environment && w.id is Some).map_values(
            |w: Open| EntryView { id: w.id->0, title: called(w.names), current: w.focused },
        ),
        counted(windows) == windows.filter(|w: Open| !w.environment).len(),
    decreases windows.len(),
{
    reveal(Seq::filter);
    let listed = |w: Open| !w.environment && w.id is Some;
    let row = |w: Open| EntryView { id: w.id->0, title: called(w.names), current: w.focused };
    if windows.len() > 0 {
        the_switcher_lists_every_window(windows.drop_last());
        let before = windows.drop_last().filter(listed);
        assert(before.push(windows.last()).map_values(row) =~= before.map_values(row).push(
            row(windows.last()),
        ));
    } else {
        assert(windows.filter(listed).map_values(row) =~= Seq::empty());
    }
}

/// A menu is drawn on the first X11 window, or on the first that is in front where it has to be:
/// one is found where there is one, and none before it would have done.
pub proof fn the_first_that_can_host_a_menu_does(windows: Seq<Open>, focused: bool, i: int)
    ensures
        first_host(windows, focused) matches Some(at) ==> 0 <= at < windows.len()
            && windows[at].x11 is Some && (focused ==> windows[at].focused) && (0 <= i < at ==> !(
        windows[i].x11 is Some && (focused ==> windows[i].focused))),
        first_host(windows, focused) is None && 0 <= i < windows.len() ==> !(windows[i].x11 is Some
            && (focused ==> windows[i].focused)),
    decreases windows.len(),
{
    if windows.len() > 0 {
        let fewer = windows.drop_last();
        the_first_that_can_host_a_menu_does(fewer, focused, i);
        if 0 <= i < fewer.len() {
            assert(fewer[i] == windows[i]);
        }
        assert(windows.last() == windows[windows.len() - 1]);
        if let Some(at) = first_host(fewer, focused) {
            assert(fewer[at] == windows[at]);
        }
    }
}

/// A commit moves on the first window whose surface its root is, and none where no window's is.
pub proof fn a_commit_finds_its_window(surfaces: Seq<Option<u32>>, root: u32, i: int)
    ensures
        window_with(surfaces, root) matches Some(at) ==> 0 <= at < surfaces.len() && surfaces[at]
            == Some(root) && (0 <= i < at ==> surfaces[i] != Some(root)),
        window_with(surfaces, root) is None && 0 <= i < surfaces.len() ==> surfaces[i] != Some(
            root,
        ),
    decreases surfaces.len(),
{
    if surfaces.len() > 0 {
        let fewer = surfaces.drop_last();
        a_commit_finds_its_window(fewer, root, i);
        if 0 <= i < fewer.len() {
            assert(fewer[i] == surfaces[i]);
        }
        assert(surfaces.last() == surfaces[surfaces.len() - 1]);
        if let Some(at) = window_with(fewer, root) {
            assert(fewer[at] == surfaces[at]);
        }
    }
}

} // verus!
