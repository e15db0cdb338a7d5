//! What to ask the sound server's own tool for.
//!
//! Shelling out rather than speaking to PipeWire directly: the wire protocol is a large
//! dependency for one number, and `wpctl` is part of the same package as the daemon, so if there
//! is audio at all this exists. Each function gives the arguments of one run of it.

use vstd::prelude::*;
use crate::system::{WHOLE, clamped, round, rounded};
use crate::text::{chars, decimal, digit, string, to_decimal};

verus! {

/// The output that is the default, whichever it is.
pub const DEFAULT_SINK: &'static str = "@DEFAULT_AUDIO_SINK@";

/// The model of a list of arguments.
pub open spec fn arguments(v: Seq<String>) -> Seq<Seq<char>> {
    Seq::new(v.len(), |i: int| v[i]@)
}

fn owned(s: &str) -> (out: String)
    ensures
        out@ == s@,
{
    let cs = chars(s);
    string(cs.as_slice())
}

fn three(a: &str, b: &str, c: &str) -> (out: Vec<String>)
    ensures
        arguments(out@) == seq![a@, b@, c@],
{
    let mut out: Vec<String> = Vec::new();
    out.push(owned(a));
    out.push(owned(b));
    out.push(owned(c));
    assert(arguments(out@) =~= seq![a@, b@, c@]);
    out
}

fn two(a: &str, b: &str) -> (out: Vec<String>)
    ensures
        arguments(out@) == seq![a@, b@],
{
    let mut out: Vec<String> = Vec::new();
    out.push(owned(a));
    out.push(owned(b));
    assert(arguments(out@) =~= seq![a@, b@]);
    out
}

/// Read the output volume.
pub fn volume() -> (out: Vec<String>)
    ensures
        arguments(out@) == seq!["get-volume"@, DEFAULT_SINK@],
{
    two("get-volume", DEFAULT_SINK)
}

/// A number of thousandths, with its three decimal places.
pub open spec fn thousandths(t: nat) -> Seq<char> {
    decimal(t / 1000) + seq!['.', digit(t / 100 % 10), digit(t / 10 % 10), digit(t % 10)]
}

fn digit_of(d: u64) -> (out: char)
    requires
        d < 10,
    ensures
        out == digit(d as nat),
{
    (48 + d as u8) as char
}

/// Write a number of thousandths.
pub fn to_thousandths(t: u64) -> (out: Vec<char>)
    ensures
        out@ == thousandths(t as nat),
{
    let mut out = to_decimal(t / 1000);
    out.push('.');
    out.push(digit_of(t / 100 % 10));
    out.push(digit_of(t / 10 % 10));
    out.push(digit_of(t % 10));
    assert(out@ =~= thousandths(t as nat));
    out
}

/// Set the output volume, given in millionths of full.
///
/// Capped at full rather than passing the slider's value straight through. `wpctl` will happily
/// go above unity, and a slider whose right-hand end is 150% has most of its travel in the
/// range where the Deck's speakers distort.
pub fn set_volume(level: i64) -> (out: Vec<String>)
    ensures
        arguments(out@) == seq![
            "set-volume"@,
            DEFAULT_SINK@,
            thousandths(rounded(clamped(level as int) as nat, 1000)),
        ],
{
    let kept: u64 = if level < 0 {
        0
    } else if level > WHOLE as i64 {
        WHOLE as u64
    } else {
        level as u64
    };
    let t: u64 = round(kept as u128, 1000) as u64;
    let places = to_thousandths(t);
    let places = string(places.as_slice());
    three("set-volume", DEFAULT_SINK, places.as_str())
}

/// Mute or unmute the output.
pub fn set_muted(muted: bool) -> (out: Vec<String>)
    ensures
        arguments(out@) == seq![
            "set-mute"@,
            DEFAULT_SINK@,
            if muted {
                "1"@
            } else {
                "0"@
            },
        ],
{
    wpctl_mute(
        if muted {
            "1"
        } else {
            "0"
        },
    )
}

/// Flip the output's mute, whichever way it is.
pub fn toggle_mute() -> (out: Vec<String>)
    ensures
        arguments(out@) == seq!["set-mute"@, DEFAULT_SINK@, "toggle"@],
{
    wpctl_mute("toggle")
}

fn wpctl_mute(how: &str) -> (out: Vec<String>)
    ensures
        arguments(out@) == seq!["set-mute"@, DEFAULT_SINK@, how@],
{
    three("set-mute", DEFAULT_SINK, how)
}

/// List everything the sound server has.
pub fn status() -> (out: Vec<String>)
    ensures
        arguments(out@) == seq!["status"@],
{
    let mut out: Vec<String> = Vec::new();
    out.push(owned("status"));
    assert(arguments(out@) =~= seq!["status"@]);
    out
}

/// Print everything there is to say about a node.
pub fn inspect(id: u32) -> (out: Vec<String>)
    ensures
        arguments(out@) == seq!["inspect"@, decimal(id as nat)],
{
    let id = to_decimal(id as u64);
    let id = string(id.as_slice());
    two("inspect", id.as_str())
}

/// Make a device the default.
///
/// What is made default is not always what was picked; see
/// [`recordable`](crate::devices::recordable).
pub fn set_default_device(id: u32) -> (out: Vec<String>)
    ensures
        arguments(out@) == seq!["set-default"@, decimal(id as nat)],
{
    let id = to_decimal(id as u64);
    let id = string(id.as_slice());
    two("set-default", id.as_str())
}

/// Thousandths read back: the number before the point and the three digits after it are the number
/// that was written.
pub proof fn thousandths_read_back(t: nat)
    ensures
        ({
            let text = thousandths(t);
            let point = text.len() - 4;
            &&& text[point] == '.'
            &&& crate::text::number(text.take(point)) == Some(t / 1000)
            &&& (text[point + 1] as int - 48) * 100 + (text[point + 2] as int - 48) * 10 + (
            text[point + 3] as int - 48) == t % 1000
        }),
{
    let text = thousandths(t);
    let whole = decimal(t / 1000);
    crate::text::decimal_reads_back(t / 1000);
    let point = text.len() - 4;
    assert(text.take(point) =~= whole);
    assert(text[point] == '.');
    let (a, b, c) = (t / 100 % 10, t / 10 % 10, t % 10);
    assert(text[point + 1] == digit(a));
    assert(text[point + 2] == digit(b));
    assert(text[point + 3] == digit(c));
    crate::text::lemma_three_places(t);
    assert(digit(a) as int - 48 == a && digit(b) as int - 48 == b && digit(c) as int - 48 == c);
}

} // verus!
