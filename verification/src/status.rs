//! The persistent status readout: time, battery, and how the session is doing.
//!
//! Head-locked in the upper left, because the two things it carries are the two things you
//! look up mid-task without wanting to leave what you are doing — what time it is, and whether
//! the battery is about to end the session. Anything world-locked would have to be hunted for,
//! which defeats the point.
//!
//! Deliberately terse. It sits over the world permanently, so every character has to earn its
//! place.

use vstd::prelude::*;
use crate::text::{chars, decimal, number_within, parse_within, push_all, push_str, same};
use crate::text::{string, to_decimal, trim, trimmed};

verus! {

/// A number with at least two digits.
pub open spec fn two_digits(n: nat) -> Seq<char> {
    if n < 10 {
        seq!['0'] + decimal(n)
    } else {
        decimal(n)
    }
}

/// What the clock says: hours and minutes, or dashes where the time cannot be told.
pub open spec fn clock_text(time: Option<(u8, u8)>) -> Seq<char> {
    match time {
        Some((hour, minute)) => two_digits(hour as nat) + seq![':'] + two_digits(minute as nat),
        None => "--:--"@,
    }
}

fn push_two_digits(out: &mut Vec<char>, n: u8)
    ensures
        final(out)@ == old(out)@ + two_digits(n as nat),
{
    let ghost had = out@;
    if n < 10 {
        out.push('0');
    }
    let digits = to_decimal(n as u64);
    push_all(out, digits.as_slice());
    assert(n < 10 ==> had.push('0') + decimal(n as nat) =~= had + two_digits(n as nat));
}

/// Local wall-clock time as `HH:MM`.
pub fn clock(time: Option<(u8, u8)>) -> (out: String)
    ensures
        out@ == clock_text(time),
{
    match time {
        Some((hour, minute)) => {
            let mut text: Vec<char> = Vec::new();
            push_two_digits(&mut text, hour);
            text.push(':');
            push_two_digits(&mut text, minute);
            assert(text@ =~= clock_text(time));
            string(text.as_slice())
        },
        None => "--:--".to_owned(),
    }
}

/// The clock is always five characters: it sits in a fixed corner, and a string that changes width
/// makes the whole bar shuffle every minute.
pub proof fn the_clock_is_five_characters(time: Option<(u8, u8)>)
    requires
        time matches Some(t) ==> t.0 < 24 && t.1 < 60,
    ensures
        clock_text(time).len() == 5,
        clock_text(time)[2] == ':',
{
    reveal_strlit("--:--");
    reveal_with_fuel(decimal, 2);
}

/// Charge level and whether power is going in.
#[derive(Debug, Clone, Copy, PartialEq, Eq, Structural)]
pub struct Battery {
    pub percent: u8,
    pub charging: bool,
}

impl Battery {
    /// How it should read.
    pub open spec fn reads(self) -> Seq<char> {
        let share = decimal(self.percent as nat).push('%');
        if self.charging {
            share.push('\u{26a1}')
        } else {
            share
        }
    }

    /// How it should read. A separate symbol for charging rather than a colour change, because
    /// this is rendered at a couple of degrees across and hue is the first thing to go.
    pub fn label(&self) -> (out: String)
        ensures
            out@ == self.reads(),
    {
        let mut text = to_decimal(self.percent as u64);
        text.push('%');
        if self.charging {
            text.push('\u{26a1}');
        }
        string(text.as_slice())
    }
}

/// A charging battery never reads like one that is not.
pub proof fn charging_shows(a: Battery, b: Battery)
    requires
        a.charging != b.charging,
    ensures
        a.reads() != b.reads(),
{
    assert(a.reads().last() != b.reads().last());
}

/// A power supply as the machine describes it: what kind of thing it is, how full, and what it is
/// doing, each as it was read, where it could be.
#[derive(Debug, Clone, PartialEq, Eq)]
pub struct Supply {
    pub kind: Option<String>,
    pub capacity: Option<String>,
    pub status: Option<String>,
}

/// What a file says, without the white space round it.
pub open spec fn says(text: Option<String>) -> Seq<char> {
    match text {
        Some(text) => trimmed(text@),
        None => Seq::empty(),
    }
}

/// The battery a supply is, if it is one.
///
/// Only real batteries: the same directory carries AC adapters and, on a Deck, the controller's own
/// cells, which would otherwise be reported as the system charge. "Full" while plugged in counts as
/// charging: the useful question is "is it going down", not "are electrons moving".
pub open spec fn charge(supply: Supply) -> Option<Battery> {
    if supply.kind is None || says(supply.kind) != "Battery"@ || supply.capacity is None {
        None
    } else {
        match number_within(says(supply.capacity), 255) {
            Some(n) => Some(
                Battery {
                    percent: if n < 100 {
                        n as u8
                    } else {
                        100
                    },
                    charging: says(supply.status) == "Charging"@ || says(supply.status) == "Full"@,
                },
            ),
            None => None,
        }
    }
}

/// The first supply that is a battery.
pub open spec fn first_charge(supplies: Seq<Supply>) -> Option<Battery>
    decreases supplies.len(),
{
    if supplies.len() == 0 {
        None
    } else {
        match charge(supplies[0]) {
            Some(battery) => Some(battery),
            None => first_charge(supplies.skip(1)),
        }
    }
}

fn reads_as(text: &Option<String>, word: &str) -> (out: bool)
    ensures
        out == (text is Some && says(*text) == word@),
{
    match text {
        Some(text) => {
            let letters = chars(text.as_str());
            let wanted = chars(word);
            same(trim(letters.as_slice()), wanted.as_slice())
        },
        None => false,
    }
}

fn read_charge(supply: &Supply) -> (out: Option<Battery>)
    ensures
        out == charge(*supply),
{
    proof {
        reveal_strlit("Charging");
        reveal_strlit("Full");
        assert("Charging"@.len() == 8 && "Full"@.len() == 4);
    }
    if !reads_as(&supply.kind, "Battery") {
        return None;
    }
    let capacity = match &supply.capacity {
        Some(capacity) => chars(capacity.as_str()),
        None => {
            return None;
        },
    };
    match parse_within(trim(capacity.as_slice()), 255) {
        Some(n) => {
            let percent: u8 = if n < 100 {
                n as u8
            } else {
                100
            };
            let charging = reads_as(&supply.status, "Charging") || reads_as(&supply.status, "Full");
            Some(Battery { percent, charging })
        },
        None => None,
    }
}

/// The battery among the machine's power supplies.
///
/// `None` on a machine without one — a desktop, or a Deck whose battery node has moved. The
/// status bar simply omits it rather than showing a zero, which would look like an emergency.
pub fn battery(supplies: &[Supply]) -> (out: Option<Battery>)
    ensures
        out == first_charge(supplies@),
{
    let mut i: usize = 0;
    assert(supplies@.skip(0) =~= supplies@);
    while i < supplies.len()
        invariant
            i <= supplies.len(),
            first_charge(supplies@) == first_charge(supplies@.skip(i as int)),
        decreases supplies.len() - i,
    {
        assert(supplies@.skip(i as int).skip(1) =~= supplies@.skip(i + 1));
        if let Some(battery) = read_charge(&supplies[i]) {
            return Some(battery);
        }
        i = i + 1;
    }
    None
}

/// The number of windows, in English.
pub open spec fn windows_text(n: nat) -> Seq<char> {
    if n == 0 {
        "no windows"@
    } else if n == 1 {
        "1 window"@
    } else {
        decimal(n) + " windows"@
    }
}

/// The whole status line: the clock, the battery where there is one, and the windows, four spaces
/// between.
pub open spec fn line_text(clock: Seq<char>, battery: Option<Battery>, windows: nat) -> Seq<char> {
    let gap = "    "@;
    let power = match battery {
        Some(battery) => gap + battery.reads(),
        None => Seq::empty(),
    };
    clock + power + gap + windows_text(windows)
}

/// The whole status line.
///
/// Kept short on purpose. The bar is sized to a fixed angular *width*, so every extra word
/// makes the whole line shorter to read.
pub fn line(clock: &str, battery: Option<Battery>, windows: usize) -> (out: String)
    ensures
        out@ == line_text(clock@, battery, windows as nat),
{
    let mut text = chars(clock);
    if let Some(battery) = battery {
        push_str(&mut text, "    ");
        let label = battery.label();
        push_str(&mut text, label.as_str());
    }
    push_str(&mut text, "    ");
    if windows == 0 {
        push_str(&mut text, "no windows");
    } else if windows == 1 {
        push_str(&mut text, "1 window");
    } else {
        let digits = to_decimal(windows as u64);
        push_all(&mut text, digits.as_slice());
        push_str(&mut text, " windows");
    }
    assert(text@ =~= line_text(clock@, battery, windows as nat));
    string(text.as_slice())
}

/// The line stays short enough to read in a corner: twenty-eight characters, while there are fewer
/// than a hundred windows.
pub proof fn the_line_stays_short(time: Option<(u8, u8)>, battery: Option<Battery>, windows: nat)
    requires
        time matches Some(t) ==> t.0 < 24 && t.1 < 60,
        battery matches Some(b) ==> b.percent <= 100,
        windows < 100,
    ensures
        line_text(clock_text(time), battery, windows).len() <= 28,
{
    the_clock_is_five_characters(time);
    reveal_strlit("    ");
    reveal_strlit("no windows");
    reveal_strlit("1 window");
    reveal_strlit(" windows");
    reveal_with_fuel(decimal, 3);
}

/// The clock reads back: its first two characters are the hour and its last two the minute.
pub proof fn the_clock_reads_back(hour: u8, minute: u8)
    requires
        hour < 24,
        minute < 60,
    ensures
        ({
            let text = clock_text(Some((hour, minute)));
            &&& text.len() == 5
            &&& (text[0] as int - 48) * 10 + (text[1] as int - 48) == hour
            &&& (text[3] as int - 48) * 10 + (text[4] as int - 48) == minute
        }),
{
    the_clock_is_five_characters(Some((hour, minute)));
    lemma_two_digits(hour);
    lemma_two_digits(minute);
    let text = clock_text(Some((hour, minute)));
    let (h, m) = (two_digits(hour as nat), two_digits(minute as nat));
    assert(text[0] == h[0] && text[1] == h[1]);
    assert(text[3] == m[0] && text[4] == m[1]);
}

proof fn lemma_two_digits(n: u8)
    requires
        n < 100,
    ensures
        two_digits(n as nat).len() == 2,
        (two_digits(n as nat)[0] as int - 48) * 10 + (two_digits(n as nat)[1] as int - 48) == n,
{
    reveal_with_fuel(decimal, 2);
    let s = two_digits(n as nat);
    if n < 10 {
        assert(s[0] == '0');
        assert(s[1] == crate::text::digit(n as nat));
    } else {
        assert(s[0] == crate::text::digit(n as nat / 10));
        assert(s[1] == crate::text::digit(n as nat % 10));
    }
}

/// A battery reads as its share, with the sign for it straight after, and with the other sign after
/// that where it is charging and only there; so two that read alike are alike.
pub proof fn a_battery_reads_as_its_share(battery: Battery)
    ensures
        ({
            let share = if battery.charging {
                battery.reads().drop_last()
            } else {
                battery.reads()
            };
            &&& share.last() == '%'
            &&& crate::text::number(share.drop_last()) == Some(battery.percent as nat)
            &&& battery.charging <==> battery.reads().last() != '%'
        }),
{
    crate::text::decimal_reads_back(battery.percent as nat);
    let digits = decimal(battery.percent as nat);
    assert(digits.push('%').drop_last() =~= digits);
    assert(digits.push('%').push('\u{26a1}').drop_last() =~= digits.push('%'));
}

/// The charge of a battery is its capacity, or the whole where that says more. Only what calls
/// itself a battery has one, and whether power is going in is a matter of its status alone.
pub proof fn a_charge_is_its_capacity(supply: Supply, status: Option<String>, n: nat)
    ensures
        charge(supply) is Some ==> supply.kind is Some && says(supply.kind) == "Battery"@,
        (supply.kind is Some && says(supply.kind) == "Battery"@ && supply.capacity is Some
            && number_within(says(supply.capacity), 255) == Some(n)) ==> (charge(
            supply,
        ) matches Some(battery) && (n <= 100 ==> battery.percent == n) && (n > 100
            ==> battery.percent == 100)),
        charge(supply) matches Some(battery) ==> (battery.charging <==> says(supply.status)
            == "Charging"@ || says(supply.status) == "Full"@),
        charge(Supply { status, ..supply }) is Some <==> charge(supply) is Some,
        (charge(supply) matches Some(battery)) ==> charge(Supply { status, ..supply })->0.percent
            == charge(supply)->0.percent,
        supply.capacity is None ==> charge(supply) is None,
{
}

/// The machine's battery is the first supply that is one, and there is none where none is.
pub proof fn the_first_battery_is_the_machines(supplies: Seq<Supply>, at: int)
    ensures
        0 <= at < supplies.len() && charge(supplies[at]) is Some && (forall|i: int|
            0 <= i < at ==> charge(#[trigger] supplies[i]) is None) ==> first_charge(supplies)
            == charge(supplies[at]),
        (forall|i: int| 0 <= i < supplies.len() ==> charge(#[trigger] supplies[i]) is None)
            ==> first_charge(supplies) is None,
    decreases supplies.len(),
{
    if supplies.len() > 0 {
        let rest = supplies.skip(1);
        the_first_battery_is_the_machines(rest, at - 1);
        if forall|i: int| 0 <= i < supplies.len() ==> charge(#[trigger] supplies[i]) is None {
            assert forall|i: int| 0 <= i < rest.len() implies charge(#[trigger] rest[i]) is None by {
                assert(rest[i] == supplies[i + 1]);
            }
            assert(charge(supplies[0]) is None);
        }
        if 0 < at < supplies.len() && charge(supplies[at]) is Some && (forall|i: int|
            0 <= i < at ==> charge(#[trigger] supplies[i]) is None) {
            assert forall|i: int| 0 <= i < at - 1 implies charge(#[trigger] rest[i]) is None by {
                assert(rest[i] == supplies[i + 1]);
            }
            assert(rest[at - 1] == supplies[at]);
            assert(charge(supplies[0]) is None);
        }
    }
}

/// The line begins with the clock and ends with the windows, four spaces before them; the battery
/// stands between the two where there is one, and nothing does where there is none. One window is
/// one, and any other number of them is more.
pub proof fn the_line_is_read_from_the_clock(
    clock: Seq<char>,
    battery: Option<Battery>,
    windows: nat,
)
    ensures
        ({
            let line = line_text(clock, battery, windows);
            let tail = "    "@ + windows_text(windows);
            &&& clock.is_prefix_of(line)
            &&& tail.is_suffix_of(line)
            &&& battery is None ==> line == clock + tail
            &&& battery matches Some(b) ==> line == clock + "    "@ + b.reads() + tail
            &&& windows > 1 ==> decimal(windows).is_prefix_of(windows_text(windows))
            &&& windows_text(windows).last() == 's' <==> windows != 1
            &&& windows == 1 ==> windows_text(windows)[0] == '1'
            &&& windows == 0 ==> windows_text(windows)[0] == 'n'
        }),
{
    reveal_strlit("    ");
    reveal_strlit("1 window");
    reveal_strlit("no windows");
    reveal_strlit(" windows");
    let line = line_text(clock, battery, windows);
    let text = windows_text(windows);
    let tail = "    "@ + text;
    assert(clock =~= line.take(clock.len() as int));
    assert(tail =~= line.skip(line.len() - tail.len()));
    match battery {
        Some(b) => {
            assert(line =~= clock + "    "@ + b.reads() + tail);
        },
        None => {
            assert(line =~= clock + tail);
        },
    }
    if windows > 1 {
        assert(decimal(windows) =~= text.take(decimal(windows).len() as int));
        assert(text.last() == " windows"@[7]);
    }
}

} // verus!
