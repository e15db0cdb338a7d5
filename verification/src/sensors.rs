//! What the head tracker has learned about the glasses' sensors, kept between sessions, and a
//! line in the log about how the magnetic anchor is doing.
//!
//! Two things are worth keeping. The gyro's resting offset: the first estimate of a session is
//! the fragile one, taken on a head that is never still, and this sensor's offset barely moves
//! from one day to the next. And the magnetometer's own field: without it the anchor does not
//! run at all, and measuring it takes a minute or two of looking around.
//!
//! The log line is there because yaw drift is otherwise impossible to reason about after the
//! fact: whether the anchor was holding, still measuring, or refusing a field that made no
//! sense are three different problems that feel identical from inside the glasses.
//!
//! Measures are in millionths: of a degree a second, of a gauss, of the whole. Times are
//! nanoseconds of a clock that never goes back.

use vstd::prelude::*;
use crate::system::{round, rounded};
use crate::text::{decimal, digit, push_all, push_str, string, to_decimal};

verus! {

/// How often the log line is written: thirty seconds.
pub const LOG_EVERY: u64 = 30_000_000_000;

/// How often what changed is saved, at most: a minute.
pub const SAVE_EVERY: u64 = 60_000_000_000;

/// Three numbers, one to an axis.
#[derive(Debug, Clone, Copy, PartialEq, Eq, Structural)]
pub struct Axes {
    pub x: i64,
    pub y: i64,
    pub z: i64,
}

/// The magnetometer's own field, and how its axes sit.
#[derive(Debug, Clone, Copy, PartialEq, Eq, Structural)]
pub struct Fit {
    /// Which of the ways the axes can sit.
    pub sits: u8,
    pub offset: Axes,
}

/// What is remembered of a pair of glasses.
#[derive(Debug, Clone, Copy, PartialEq, Eq)]
pub struct Remembered {
    pub gyro_bias: Option<Axes>,
    pub hard_iron: Option<Fit>,
}

/// What has been learned, and what was known before where nothing has.
pub open spec fn learned(now: Remembered, saved: Remembered) -> Remembered {
    Remembered {
        gyro_bias: if now.gyro_bias is Some {
            now.gyro_bias
        } else {
            saved.gyro_bias
        },
        hard_iron: if now.hard_iron is Some {
            now.hard_iron
        } else {
            saved.hard_iron
        },
    }
}

/// What a frame asks for.
#[derive(Debug, Clone, Copy, PartialEq, Eq)]
pub struct Tick {
    /// Whether the log line is due.
    pub log: bool,
    /// What is to be saved, where it is not what was.
    pub save: Option<Remembered>,
    /// The fit to announce: one that was not there before.
    pub measured: Option<Fit>,
}

pub struct SensorMemory {
    pub device: Option<String>,
    pub saved: Remembered,
    pub last_log: u64,
    pub last_save: u64,
}

fn same_axes(a: Option<Axes>, b: Option<Axes>) -> (out: bool)
    ensures
        out == (a == b),
{
    match (a, b) {
        (Some(a), Some(b)) => a == b,
        (None, None) => true,
        _ => false,
    }
}

fn same_fit(a: Option<Fit>, b: Option<Fit>) -> (out: bool)
    ensures
        out == (a == b),
{
    match (a, b) {
        (Some(a), Some(b)) => a == b,
        (None, None) => true,
        _ => false,
    }
}

/// Whether so long has passed since a time.
pub open spec fn passed(now: u64, since: u64, long: u64) -> bool {
    now - since >= long
}

impl SensorMemory {
    /// Whether a save is due at all: there is something to learn from, a device to save it for, and
    /// a minute has passed.
    pub open spec fn save_due(self, now: u64, has_samples: bool) -> bool {
        has_samples && self.device is Some && passed(now, self.last_save, SAVE_EVERY)
    }

    pub fn new(now: u64) -> (out: SensorMemory)
        ensures
            out.device is None,
            out.saved == (Remembered { gyro_bias: None, hard_iron: None }),
            out.last_log == now,
            out.last_save == now,
    {
        SensorMemory {
            device: None,
            saved: Remembered { gyro_bias: None, hard_iron: None },
            last_log: now,
            last_save: now,
        }
    }

    /// Take up what was learned last time, which the tracker is handed too. Call after the axis map
    /// is settled: a new map resets the tracker, and what is remembered belongs to one map.
    pub fn restore(&mut self, device: &str, remembered: Remembered)
        ensures
            final(self).device matches Some(name) && name@ == device@,
            final(self).saved == remembered,
            final(self).last_log == old(self).last_log,
            final(self).last_save == old(self).last_save,
    {
        self.device = Some(device.to_owned());
        self.saved = remembered;
    }

    /// Once a frame, with what the tracker knows. Logs now and then, and saves what changed at most
    /// once a minute.
    pub fn tick(&mut self, now: u64, has_samples: bool, tracker: Remembered) -> (out: Tick)
        ensures
            out.log == (has_samples && passed(now, old(self).last_log, LOG_EVERY)),
            final(self).last_log == (if out.log {
                now
            } else {
                old(self).last_log
            }),
            final(self).last_save == (if old(self).save_due(now, has_samples) {
                now
            } else {
                old(self).last_save
            }),
            final(self).device == old(self).device,
            final(self).saved == old(self).saved,
            out.save is Some <==> old(self).save_due(now, has_samples) && learned(
                tracker,
                old(self).saved,
            ) != old(self).saved,
            out.save matches Some(it) ==> it == learned(tracker, old(self).saved),
            out.measured == (match out.save {
                Some(it) => if it.hard_iron != old(self).saved.hard_iron {
                    it.hard_iron
                } else {
                    None
                },
                None => None,
            }),
    {
        let nothing = Tick { log: false, save: None, measured: None };
        if !has_samples {
            return nothing;
        }
        let log = now >= self.last_log && now - self.last_log >= LOG_EVERY;
        if log {
            self.last_log = now;
        }
        let idle = Tick { log, save: None, measured: None };
        if self.device.is_none() {
            return idle;
        }
        if now < self.last_save || now - self.last_save < SAVE_EVERY {
            return idle;
        }
        self.last_save = now;
        let it = Remembered {
            gyro_bias: if tracker.gyro_bias.is_some() {
                tracker.gyro_bias
            } else {
                self.saved.gyro_bias
            },
            hard_iron: if tracker.hard_iron.is_some() {
                tracker.hard_iron
            } else {
                self.saved.hard_iron
            },
        };
        let same = same_fit(it.hard_iron, self.saved.hard_iron);
        if same && same_axes(it.gyro_bias, self.saved.gyro_bias) {
            return idle;
        }
        let measured = if same {
            None
        } else {
            it.hard_iron
        };
        Tick { log, save: Some(it), measured }
    }

    /// What was to be saved has been, or it could not be and is still to be.
    pub fn wrote(&mut self, it: Remembered, ok: bool)
        ensures
            final(self).saved == (if ok {
                it
            } else {
                old(self).saved
            }),
            final(self).device == old(self).device,
            final(self).last_log == old(self).last_log,
            final(self).last_save == old(self).last_save,
    {
        if ok {
            self.saved = it;
        }
    }
}

/// Nothing learned is forgotten, whatever the tracker knows this time, and what has been saved is
/// not saved again.
pub proof fn nothing_learned_is_forgotten(now: Remembered, saved: Remembered)
    ensures
        saved.gyro_bias is Some ==> learned(now, saved).gyro_bias is Some,
        saved.hard_iron is Some ==> learned(now, saved).hard_iron is Some,
        learned(now, learned(now, saved)) == learned(now, saved),
{
}

/// A number of thousandths with its three places.
pub open spec fn places3(n: nat) -> Seq<char> {
    decimal(n / 1000) + seq!['.', digit(n / 100 % 10), digit(n / 10 % 10), digit(n % 10)]
}

/// A number of tenths with its one place.
pub open spec fn places1(n: nat) -> Seq<char> {
    decimal(n / 10) + seq!['.', digit(n % 10)]
}

/// How big a number is.
pub open spec fn size(n: int) -> nat {
    if n < 0 {
        (-n) as nat
    } else {
        n as nat
    }
}

/// The sign of a number, which is always written.
pub open spec fn sign(n: int) -> char {
    if n < 0 {
        '-'
    } else {
        '+'
    }
}

/// Some millionths, signed, to three places.
pub open spec fn signed3(n: int) -> Seq<char> {
    seq![sign(n)] + places3(rounded(size(n), 1000))
}

/// Some millionths, signed, to one place.
pub open spec fn signed1(n: int) -> Seq<char> {
    seq![sign(n)] + places1(rounded(size(n), 100_000))
}

/// Three of them, spaces between.
pub open spec fn triple(v: Axes) -> Seq<char> {
    signed3(v.x as int) + " "@ + signed3(v.y as int) + " "@ + signed3(v.z as int)
}

fn push_places3(out: &mut Vec<char>, n: u64)
    ensures
        final(out)@ == old(out)@ + places3(rounded(n as nat, 1000)),
{
    let ghost had = out@;
    let k: u64 = round(n as u128, 1000) as u64;
    let whole = to_decimal(k / 1000);
    push_all(out, whole.as_slice());
    out.push('.');
    push_digit(out, k / 100 % 10);
    push_digit(out, k / 10 % 10);
    push_digit(out, k % 10);
    assert(out@ =~= had + places3(rounded(n as nat, 1000)));
}

fn push_digit(out: &mut Vec<char>, n: u64)
    requires
        n < 10,
    ensures
        final(out)@ == old(out)@.push(digit(n as nat)),
{
    let d: u8 = n as u8;
    let c: char = (48 + d) as char;
    out.push(c);
}

fn magnitude(n: i64) -> (out: u64)
    ensures
        out == size(n as int),
{
    if n < 0 {
        (0 - (n as i128)) as u64
    } else {
        n as u64
    }
}

fn push_sign(out: &mut Vec<char>, n: i64)
    ensures
        final(out)@ == old(out)@.push(sign(n as int)),
{
    if n < 0 {
        out.push('-');
    } else {
        out.push('+');
    }
}

fn push_signed3(out: &mut Vec<char>, n: i64)
    ensures
        final(out)@ == old(out)@ + signed3(n as int),
{
    let ghost had = out@;
    push_sign(out, n);
    push_places3(out, magnitude(n));
    assert(out@ =~= had + signed3(n as int));
}

fn push_signed1(out: &mut Vec<char>, n: i64)
    ensures
        final(out)@ == old(out)@ + signed1(n as int),
{
    let ghost had = out@;
    push_sign(out, n);
    let k: u64 = round(magnitude(n) as u128, 100_000) as u64;
    let whole = to_decimal(k / 10);
    push_all(out, whole.as_slice());
    out.push('.');
    push_digit(out, k % 10);
    assert(out@ =~= had + signed1(n as int));
}

fn push_triple(out: &mut Vec<char>, v: Axes)
    ensures
        final(out)@ == old(out)@ + triple(v),
{
    let ghost had = out@;
    push_signed3(out, v.x);
    push_str(out, " ");
    push_signed3(out, v.y);
    push_str(out, " ");
    push_signed3(out, v.z);
    assert(out@ =~= had + triple(v));
}

/// How measuring the magnetometer is going.
#[derive(Debug, Clone, PartialEq, Eq)]
pub enum FitState {
    /// Millionths of a second of samples so far.
    Gathering { seconds: u64 },
    NarrowView { coverage: u64 },
    NoFit { residual_share: u64 },
    Undecided,
    Fitted {
        /// How the axes sit, in words.
        axes: String,
        /// How strong the sensor's own field is.
        own: u64,
        /// How strong the Earth's is.
        field: u64,
        residual_share: u64,
        coverage: u64,
    },
}

/// What the anchor is doing.
#[derive(Debug, Clone, Copy, PartialEq, Eq, Structural)]
pub struct Anchor {
    /// Whether the magnetometer's own field is known.
    pub measured: bool,
    pub locked: bool,
    pub accepted: bool,
    /// How far off it is holding, in millionths of a degree.
    pub error: i64,
}

/// What is said of the magnetometer.
pub open spec fn fit_text(fit: FitState) -> Seq<char> {
    match fit {
        FitState::Gathering { seconds } => "measuring ("@ + decimal(rounded(seconds as nat, 1_000_000))
            + " s of samples)"@,
        FitState::NarrowView { coverage } => "waiting for the head to look up and down too (coverage "@
            + places3(rounded(coverage as nat, 1000)) + ")"@,
        FitState::NoFit { residual_share } => "the field makes no sense here ("@ + decimal(
            rounded(residual_share as nat, 10_000),
        ) + "% left over) — something magnetic nearby?"@,
        FitState::Undecided => "cannot yet tell how its axes sit"@,
        FitState::Fitted { axes, own, field, residual_share, coverage } => "fitted: axes "@ + axes@
            + ", own field "@ + places3(rounded(own as nat, 1000)) + " G, Earth "@ + places3(
            rounded(field as nat, 1000),
        ) + " G, "@ + decimal(rounded(residual_share as nat, 10_000)) + "% left over, coverage "@
            + places3(rounded(coverage as nat, 1000)),
    }
}

fn push_whole(out: &mut Vec<char>, n: u64, unit: u64)
    requires
        unit == 10_000 || unit == 1_000_000,
    ensures
        final(out)@ == old(out)@ + decimal(rounded(n as nat, unit as nat)),
{
    let k: u64 = round(n as u128, unit) as u64;
    let digits = to_decimal(k);
    push_all(out, digits.as_slice());
}

fn push_fit(out: &mut Vec<char>, fit: &FitState)
    ensures
        final(out)@ == old(out)@ + fit_text(*fit),
{
    let ghost had = out@;
    match fit {
        FitState::Gathering { seconds } => {
            push_str(out, "measuring (");
            push_whole(out, *seconds, 1_000_000);
            push_str(out, " s of samples)");
        },
        FitState::NarrowView { coverage } => {
            push_str(out, "waiting for the head to look up and down too (coverage ");
            push_places3(out, *coverage);
            push_str(out, ")");
        },
        FitState::NoFit { residual_share } => {
            push_str(out, "the field makes no sense here (");
            push_whole(out, *residual_share, 10_000);
            push_str(out, "% left over) — something magnetic nearby?");
        },
        FitState::Undecided => {
            push_str(out, "cannot yet tell how its axes sit");
        },
        FitState::Fitted { axes, own, field, residual_share, coverage } => {
            push_str(out, "fitted: axes ");
            push_str(out, axes.as_str());
            push_str(out, ", own field ");
            push_places3(out, *own);
            push_str(out, " G, Earth ");
            push_places3(out, *field);
            push_str(out, " G, ");
            push_whole(out, *residual_share, 10_000);
            push_str(out, "% left over, coverage ");
            push_places3(out, *coverage);
        },
    }
    assert(out@ =~= had + fit_text(*fit));
}

/// What is said of the anchor.
pub open spec fn anchor_text(anchor: Anchor) -> Seq<char> {
    if !anchor.measured {
        "off until the magnetometer is measured"@
    } else if !anchor.locked {
        "learning where the field points"@
    } else if anchor.accepted {
        "holding, "@ + signed1(anchor.error as int) + " deg off"@
    } else {
        "paused: the field here differs from where it was learned"@
    }
}

/// Whether a trim is too small to mention: shorter than a ten-thousandth of a degree a second.
pub open spec fn negligible(v: Axes) -> bool {
    v.x * v.x + v.y * v.y + v.z * v.z < 10_000
}

/// What is said of the anchor's trim, which is said separately from the bias it sits on top of,
/// because they are learned from different things and only one of them is ever remembered.
pub open spec fn trim_text(trim: Axes) -> Seq<char> {
    if negligible(trim) {
        Seq::empty()
    } else {
        " (+"@ + triple(trim) + " from the anchor)"@
    }
}

/// The whole line.
pub open spec fn description(bias: Axes, trim: Axes, fit: FitState, anchor: Anchor) -> Seq<char> {
    "tracker: bias "@ + triple(bias) + " deg/s"@ + trim_text(trim) + "; magnetometer "@ + fit_text(
        fit,
    ) + "; yaw anchor "@ + anchor_text(anchor)
}

fn is_negligible(v: Axes) -> (out: bool)
    ensures
        out == negligible(v),
{
    let (x, y, z) = (magnitude(v.x), magnitude(v.y), magnitude(v.z));
    assert(v.x * v.x == x * x) by (nonlinear_arith)
        requires
            v.x == x || v.x == -x,
    ;
    assert(v.y * v.y == y * y) by (nonlinear_arith)
        requires
            v.y == y || v.y == -y,
    ;
    assert(v.z * v.z == z * z) by (nonlinear_arith)
        requires
            v.z == z || v.z == -z,
    ;
    if x >= 100 || y >= 100 || z >= 100 {
        assert(x * x >= 10_000 || y * y >= 10_000 || z * z >= 10_000) by (nonlinear_arith)
            requires
                x >= 100 || y >= 100 || z >= 100,
        ;
        assert(x * x >= 0 && y * y >= 0 && z * z >= 0) by (nonlinear_arith);
        return false;
    }
    assert(x * x < 10_000 && y * y < 10_000 && z * z < 10_000) by (nonlinear_arith)
        requires
            x < 100,
            y < 100,
            z < 100,
    ;
    x * x + y * y + z * z < 10_000
}

/// One line: the bias, whether the magnetometer is measured, and what the anchor is doing. A trim
/// that has pinned itself at its limit is the anchor fighting a reference it should not believe.
pub fn describe(bias: Axes, trim: Axes, fit: &FitState, anchor: Anchor) -> (out: String)
    ensures
        out@ == description(bias, trim, *fit, anchor),
{
    let mut text: Vec<char> = Vec::new();
    push_str(&mut text, "tracker: bias ");
    push_triple(&mut text, bias);
    push_str(&mut text, " deg/s");
    if !is_negligible(trim) {
        push_str(&mut text, " (+");
        push_triple(&mut text, trim);
        push_str(&mut text, " from the anchor)");
    }
    push_str(&mut text, "; magnetometer ");
    push_fit(&mut text, fit);
    push_str(&mut text, "; yaw anchor ");
    if !anchor.measured {
        push_str(&mut text, "off until the magnetometer is measured");
    } else if !anchor.locked {
        push_str(&mut text, "learning where the field points");
    } else if anchor.accepted {
        push_str(&mut text, "holding, ");
        push_signed1(&mut text, anchor.error);
        push_str(&mut text, " deg off");
    } else {
        push_str(&mut text, "paused: the field here differs from where it was learned");
    }
    assert(text@ =~= description(bias, trim, *fit, anchor));
    string(text.as_slice())
}

/// What has just been learned takes the place of what was known, each of the two on its own: where
/// nothing has been learned of one, what was known of it stays, whatever came of the other.
pub proof fn the_newest_measurement_counts(now: Remembered, saved: Remembered, other: Remembered)
    ensures
        now.gyro_bias is Some ==> learned(now, saved).gyro_bias == now.gyro_bias,
        now.gyro_bias is None ==> learned(now, saved).gyro_bias == saved.gyro_bias,
        now.hard_iron is Some ==> learned(now, saved).hard_iron == now.hard_iron,
        now.hard_iron is None ==> learned(now, saved).hard_iron == saved.hard_iron,
        now.gyro_bias == other.gyro_bias ==> learned(now, saved).gyro_bias == learned(
            other,
            saved,
        ).gyro_bias,
{
}

/// A save is due a minute after the last and not before, and never with nothing to save it for or
/// nothing to learn it from.
pub proof fn a_save_is_due_once_a_minute(memory: SensorMemory, now: u64)
    ensures
        !memory.save_due(now, false),
        memory.device is None ==> !memory.save_due(now, true),
        memory.device is Some ==> (memory.save_due(now, true) <==> memory.last_save
            + 60_000_000_000 <= now),
{
}

/// What is written of a number is its sign, what it comes to rounded to the nearest, and as many
/// places as it is given: taking the point out leaves the digits of that, so what is written reads
/// back.
pub proof fn what_is_written_reads_back(n: int)
    ensures
        ({
            let text = signed3(n);
            let k = rounded(size(n), 1000);
            let point = text.len() - 4;
            &&& text[0] == '-' <==> n < 0
            &&& text[0] == '+' <==> n >= 0
            &&& text[point] == '.'
            &&& crate::text::number(text.subrange(1, point)) == Some(k / 1000)
            &&& (text[point + 1] as int - 48) * 100 + (text[point + 2] as int - 48) * 10 + (
            text[point + 3] as int - 48) == k % 1000
            &&& 2 * size(n) <= 2_000 * k + 1_000
            &&& 2_000 * k <= 2 * size(n) + 1_000
        }),
        ({
            let text = signed1(n);
            let k = rounded(size(n), 100_000);
            let point = text.len() - 2;
            &&& text[0] == '-' <==> n < 0
            &&& text[point] == '.'
            &&& crate::text::number(text.subrange(1, point)) == Some(k / 10)
            &&& text[point + 1] as int - 48 == k % 10
        }),
{
    lemma_three_are_written(n);
    lemma_one_is_written(n);
    crate::system::rounding_is_to_the_nearest(size(n), 1000);
}

proof fn lemma_three_are_written(n: int)
    ensures
        ({
            let text = signed3(n);
            let k = rounded(size(n), 1000);
            let point = text.len() - 4;
            &&& text[0] == sign(n)
            &&& text[point] == '.'
            &&& crate::text::number(text.subrange(1, point)) == Some(k / 1000)
            &&& (text[point + 1] as int - 48) * 100 + (text[point + 2] as int - 48) * 10 + (
            text[point + 3] as int - 48) == k % 1000
        }),
{
    let k = rounded(size(n), 1000);
    let text = signed3(n);
    let whole = decimal(k / 1000);
    crate::text::decimal_reads_back(k / 1000);
    crate::text::lemma_three_places(k);
    let point = text.len() - 4;
    let (a, b, c) = (k / 100 % 10, k / 10 % 10, k % 10);
    assert(text.subrange(1, point) =~= whole);
    assert(text[point] == '.');
    assert(text[point + 1] == digit(a));
    assert(text[point + 2] == digit(b));
    assert(text[point + 3] == digit(c));
    assert(digit(a) as int - 48 == a && digit(b) as int - 48 == b && digit(c) as int - 48 == c);
}

proof fn lemma_one_is_written(n: int)
    ensures
        ({
            let text = signed1(n);
            let k = rounded(size(n), 100_000);
            let point = text.len() - 2;
            &&& text[0] == sign(n)
            &&& text[point] == '.'
            &&& crate::text::number(text.subrange(1, point)) == Some(k / 10)
            &&& text[point + 1] as int - 48 == k % 10
        }),
{
    let k = rounded(size(n), 100_000);
    let text = signed1(n);
    let whole = decimal(k / 10);
    crate::text::decimal_reads_back(k / 10);
    let point = text.len() - 2;
    assert(text.subrange(1, point) =~= whole);
    assert(text[point] == '.');
    assert(text[point + 1] == digit(k % 10));
}

/// A trim is mentioned where any of its axes is a ten-thousandth of a degree a second or more, and
/// is not where all of them are smaller than half of that.
pub proof fn a_small_trim_is_not_mentioned(trim: Axes)
    ensures
        size(trim.x as int) >= 100 || size(trim.y as int) >= 100 || size(trim.z as int) >= 100
            ==> !negligible(trim),
        size(trim.x as int) <= 50 && size(trim.y as int) <= 50 && size(trim.z as int) <= 50
            ==> negligible(trim) && trim_text(trim).len() == 0,
        !negligible(trim) ==> trim_text(trim).len() > 0,
{
    let (x, y, z) = (trim.x as int, trim.y as int, trim.z as int);
    reveal_strlit(" (+");
    assert(x * x >= 0 && y * y >= 0 && z * z >= 0) by (nonlinear_arith);
    assert(size(x) >= 100 ==> x * x >= 10_000) by (nonlinear_arith)
        requires
            x == size(x) || x == -size(x),
    ;
    assert(size(y) >= 100 ==> y * y >= 10_000) by (nonlinear_arith)
        requires
            y == size(y) || y == -size(y),
    ;
    assert(size(z) >= 100 ==> z * z >= 10_000) by (nonlinear_arith)
        requires
            z == size(z) || z == -size(z),
    ;
    assert(size(x) <= 50 ==> x * x <= 2_500) by (nonlinear_arith)
        requires
            x == size(x) || x == -size(x),
            size(x) >= 0,
    ;
    assert(size(y) <= 50 ==> y * y <= 2_500) by (nonlinear_arith)
        requires
            y == size(y) || y == -size(y),
            size(y) >= 0,
    ;
    assert(size(z) <= 50 ==> z * z <= 2_500) by (nonlinear_arith)
        requires
            z == size(z) || z == -size(z),
            size(z) >= 0,
    ;
}

/// The four things the anchor can be doing read differently: off, learning, holding, or paused; and
/// only while it holds does it say how far off it is.
pub proof fn what_the_anchor_does_reads_differently(error: i64, other: i64)
    ensures
        ({
            let off = anchor_text(Anchor { measured: false, locked: true, accepted: true, error });
            let learning = anchor_text(
                Anchor { measured: true, locked: false, accepted: true, error },
            );
            let holding = anchor_text(
                Anchor { measured: true, locked: true, accepted: true, error },
            );
            let paused = anchor_text(
                Anchor { measured: true, locked: true, accepted: false, error },
            );
            &&& off[0] == 'o' && learning[0] == 'l' && holding[0] == 'h' && paused[0] == 'p'
            &&& signed1(error as int).is_prefix_of(holding.skip(9))
            &&& off == anchor_text(
                Anchor { measured: false, locked: false, accepted: false, error: other },
            )
            &&& learning == anchor_text(
                Anchor { measured: true, locked: false, accepted: false, error: other },
            )
            &&& paused == anchor_text(
                Anchor { measured: true, locked: true, accepted: false, error: other },
            )
        }),
{
    reveal_strlit("off until the magnetometer is measured");
    reveal_strlit("learning where the field points");
    reveal_strlit("holding, ");
    reveal_strlit("paused: the field here differs from where it was learned");
    let holding = anchor_text(Anchor { measured: true, locked: true, accepted: true, error });
    let said = signed1(error as int);
    assert(said =~= holding.skip(9).take(said.len() as int));
}

} // verus!
