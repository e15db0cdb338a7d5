//! What there is to listen to and speak into, out of what `wpctl` prints.
//!
//! `wpctl status` is a drawn tree meant for a person, so this is parsing a human-readable format,
//! which is worth being uneasy about. It is parsed defensively — anything that does not look like
//! a numbered entry is skipped rather than guessed at.

use vstd::prelude::*;
use crate::text::{
    Class, after_prefix, before, begins, chars, decimal, halves, is_space, join, joined,
    lemma_word_len, lines, number_within, parse_within, push_all, push_str, replace, replace_words, replaced, same,
    split_lines, split_once, split_words, starts_with, string, strip, strip_prefix, stripped, trim,
    trim_start, trimmed, up_to, views, without_leading, word_len, words, words_replaced,
};

verus! {

/// Which end of the audio path a device sits on.
#[derive(Debug, Clone, Copy, PartialEq, Eq, Structural)]
pub enum Direction {
    Output,
    Input,
}

impl Direction {
    /// What the panel calls it.
    pub open spec fn named(self) -> Seq<char> {
        match self {
            Direction::Output => "Output"@,
            Direction::Input => "Input"@,
        }
    }

    /// What `wpctl status` calls this section.
    pub open spec fn section(self) -> Seq<char> {
        match self {
            Direction::Output => "Sinks:"@,
            Direction::Input => "Sources:"@,
        }
    }

    pub fn label(self) -> (out: &'static str)
        ensures
            out@ == self.named(),
    {
        match self {
            Direction::Output => "Output",
            Direction::Input => "Input",
        }
    }

    /// What `wpctl status` calls this section.
    pub fn heading(self) -> (out: &'static str)
        ensures
            out@ == self.section(),
    {
        match self {
            Direction::Output => "Sinks:",
            Direction::Input => "Sources:",
        }
    }
}

/// Both directions, in the order they are drawn.
pub fn directions() -> (out: [Direction; 2])
    ensures
        out@ == seq![Direction::Output, Direction::Input],
{
    let out: [Direction; 2] = [Direction::Output, Direction::Input];
    assert(out@ =~= seq![Direction::Output, Direction::Input]);
    out
}

/// Somewhere sound can come from or go to.
#[derive(Debug, Clone, PartialEq, Eq)]
pub struct AudioDevice {
    /// PipeWire's node id, which is what `wpctl` takes. Not stable across a replug, which is
    /// why the list is re-read rather than cached.
    pub id: u32,
    /// Shortened for a panel read at arm's length. See [`friendly_name`].
    pub name: String,
    pub is_default: bool,
}

/// The model of a device.
pub struct DeviceView {
    pub id: u32,
    pub name: Seq<char>,
    pub is_default: bool,
}

impl View for AudioDevice {
    type V = DeviceView;

    open spec fn view(&self) -> DeviceView {
        DeviceView { id: self.id, name: self.name@, is_default: self.is_default }
    }
}

impl AudioDevice {
    /// Another of the same.
    pub fn copy(&self) -> (out: AudioDevice)
        ensures
            out@ == self@,
    {
        AudioDevice { id: self.id, name: self.name.clone(), is_default: self.is_default }
    }
}

/// The model of a list of devices.
pub open spec fn devices(v: Seq<AudioDevice>) -> Seq<DeviceView> {
    Seq::new(v.len(), |i: int| v[i]@)
}

/// The substitutions that make a driver's name for a device into one a person would use, in the
/// order they are made.
///
/// Longest first: "Internal Microphone" has to go before "Microphone" would, and "Air Mono" —
/// the glasses present as a card called "Air" — before "Air" and "Mono" would. The card is matched
/// on the word, so that it cannot eat the "Air" inside another device's name.
pub open spec fn substituted(raw: Seq<char>) -> Seq<char> {
    let s = replaced(raw, "ACP/ACP3X/ACP6x Audio Coprocessor"@, "Deck"@);
    let s = replaced(s, "Internal Microphone"@, "Microphone"@);
    let s = replaced(s, "Analog Stereo"@, ""@);
    let s = replaced(s, "Digital Stereo"@, ""@);
    let s = words_replaced(s, "Air Mono"@, "Glasses Microphone"@, 0);
    let s = words_replaced(s, "Air"@, "Glasses"@, 0);
    let s = replaced(s, "Headphones"@, "Headphones"@);
    replaced(s, "Mono"@, ""@)
}

/// A name with its white space tidied to single spaces.
pub open spec fn tidied(s: Seq<char>) -> Seq<char> {
    joined(words(s), " "@)
}

/// A name for a person: substituted and tidied, or the one it came with where that leaves nothing.
pub open spec fn friendly(raw: Seq<char>) -> Seq<char> {
    let name = tidied(substituted(raw));
    if name.len() == 0 {
        trimmed(raw)
    } else {
        name
    }
}

fn substitute(s: &[char], from: &str, to: &str) -> (out: Vec<char>)
    requires
        from@.len() > 0,
    ensures
        out@ == replaced(s@, from@, to@),
{
    let from = chars(from);
    let to = chars(to);
    replace(s, from.as_slice(), to.as_slice())
}

fn substitute_words(s: &[char], from: &str, to: &str) -> (out: Vec<char>)
    requires
        from@.len() > 0,
    ensures
        out@ == words_replaced(s@, from@, to@, 0),
{
    let from = chars(from);
    let to = chars(to);
    replace_words(s, from.as_slice(), to.as_slice())
}

fn friendly_chars(raw: &[char]) -> (out: Vec<char>)
    ensures
        out@ == friendly(raw@),
{
    proof {
        reveal_strlit("ACP/ACP3X/ACP6x Audio Coprocessor");
        reveal_strlit("Internal Microphone");
        reveal_strlit("Analog Stereo");
        reveal_strlit("Digital Stereo");
        reveal_strlit("Air Mono");
        reveal_strlit("Air");
        reveal_strlit("Headphones");
        reveal_strlit("Mono");
    }
    let s = substitute(raw, "ACP/ACP3X/ACP6x Audio Coprocessor", "Deck");
    let s = substitute(s.as_slice(), "Internal Microphone", "Microphone");
    let s = substitute(s.as_slice(), "Analog Stereo", "");
    let s = substitute(s.as_slice(), "Digital Stereo", "");
    let s = substitute_words(s.as_slice(), "Air Mono", "Glasses Microphone");
    let s = substitute_words(s.as_slice(), "Air", "Glasses");
    let s = substitute(s.as_slice(), "Headphones", "Headphones");
    let s = substitute(s.as_slice(), "Mono", "");
    let ws = split_words(s.as_slice());
    let between = chars(" ");
    let name = join(&ws, between.as_slice());
    if name.len() == 0 {
        let mut out: Vec<char> = Vec::new();
        push_all(&mut out, trim(raw));
        assert(out@ =~= trimmed(raw@));
        out
    } else {
        name
    }
}

/// Turn a driver's name for a device into one a person would use.
///
/// PipeWire reports what the kernel calls the hardware, which on this machine means
/// "ACP/ACP3X/ACP6x Audio Coprocessor Speaker" — accurate, and useless on a panel four inches
/// wide. Rules on its text rather than a lookup by id, because ids are not stable across a replug.
/// Anything unmatched passes through with its white space tidied, so an unknown USB interface
/// still appears — under an ugly name, which is better than not appearing.
pub fn friendly_name(raw: &str) -> (out: String)
    ensures
        out@ == friendly(raw@),
{
    let raw = chars(raw);
    let out = friendly_chars(raw.as_slice());
    string(out.as_slice())
}

/// One `  *   81. Air Analog Stereo   [vol: 0.32]` line.
///
/// The asterisk marks the default, and it sits before the id rather than after it. Everything
/// from `[vol:` onward is a reading, not a name.
pub open spec fn device_line(text: Seq<char>) -> Option<DeviceView> {
    let text = trimmed(text);
    let is_default = begins(text, seq!['*']);
    let rest = if is_default {
        without_leading(text.skip(1), Class::Space)
    } else {
        text
    };
    match halves(rest, '.') {
        Some((id, name)) => {
            let name = trimmed(before(name, '['));
            match number_within(trimmed(id), u32::MAX as nat) {
                Some(id) if name.len() > 0 => Some(
                    DeviceView { id: id as u32, name: friendly(name), is_default },
                ),
                _ => None,
            }
        },
        None => None,
    }
}

/// The model of a device that may not be there.
pub open spec fn device(d: Option<AudioDevice>) -> Option<DeviceView> {
    match d {
        Some(d) => Some(d@),
        None => None,
    }
}

/// Read one line of a section.
pub fn parse_device_line(text: &[char]) -> (out: Option<AudioDevice>)
    ensures
        device(out) == device_line(text@),
{
    let text = trim(text);
    let star = chars("*");
    proof {
        reveal_strlit("*");
        assert("*"@ =~= seq!['*']);
    }
    let (is_default, rest) = match strip_prefix(text, star.as_slice()) {
        Some(rest) => (true, trim_start(rest, Class::Space)),
        None => (false, text),
    };
    let (id, name) = match split_once(rest, '.') {
        Some(halves) => halves,
        None => {
            return None;
        },
    };
    let id: u32 = match parse_within(trim(id), u32::MAX as u64) {
        Some(id) => id as u32,
        None => {
            return None;
        },
    };
    let name = trim(up_to(name, '['));
    if name.len() == 0 {
        return None;
    }
    let name = friendly_chars(name);
    Some(AudioDevice { id, name: string(name.as_slice()), is_default })
}

/// What a window's own sink is described as.
pub const SINK_DESCRIPTION: &'static str = "Spatiand window";

/// Whether a device is one of the sinks that the session makes for its own windows.
pub open spec fn plumbing(name: Seq<char>) -> bool {
    trimmed(name) == SINK_DESCRIPTION@
}

/// Is this one of the sinks Spatiand made for itself?
///
/// Matched on the description a window's sink is given, which is the only thing `wpctl status`
/// prints.
pub fn is_our_own_plumbing(name: &str) -> (out: bool)
    ensures
        out == plumbing(name@),
{
    let name = chars(name);
    let ours = chars(SINK_DESCRIPTION);
    same(trim(name.as_slice()), ours.as_slice())
}

/// A line of the tree without what it is drawn with.
pub open spec fn leaf(line: Seq<char>) -> Seq<char> {
    without_leading(line, Class::Tree)
}

/// Whether a line is a section's heading.
pub open spec fn is_heading(line: Seq<char>) -> bool {
    leaf(line).len() > 0 && leaf(line).last() == ':'
}

/// The devices in some lines, where the section wanted has begun already or not.
///
/// A section begins at its heading and ends at any other. Before it nothing counts, and in it
/// everything that reads as a device does, but for the session's own plumbing.
pub open spec fn listed(ls: Seq<Seq<char>>, section: Seq<char>, inside: bool) -> Seq<DeviceView>
    decreases ls.len(),
{
    if ls.len() == 0 {
        Seq::empty()
    } else if begins(leaf(ls[0]), section) {
        listed(ls.skip(1), section, true)
    } else if !inside {
        listed(ls.skip(1), section, false)
    } else if is_heading(ls[0]) {
        Seq::empty()
    } else {
        match device_line(leaf(ls[0])) {
            Some(d) if !plumbing(d.name) => seq![d] + listed(ls.skip(1), section, true),
            _ => listed(ls.skip(1), section, true),
        }
    }
}

/// Whether a line stands in a section: after its heading, with no other heading between.
pub open spec fn stands_in(ls: Seq<Seq<char>>, section: Seq<char>, at: int) -> bool {
    exists|from: int|
        0 <= from < at && begins(leaf(#[trigger] ls[from]), section) && (forall|k: int|
            from < k <= at && k < ls.len() ==> begins(leaf(#[trigger] ls[k]), section) || !is_heading(
                ls[k],
            ))
}

/// A section's devices do not leak into the next: every device listed stands on a line of its
/// section, and none of them is the session's own plumbing.
pub proof fn a_section_keeps_to_itself(ls: Seq<Seq<char>>, section: Seq<char>, i: int)
    requires
        0 <= i < listed(ls, section, false).len(),
    ensures
        exists|at: int|
            0 <= at < ls.len() && #[trigger] stands_in(ls, section, at) && device_line(leaf(ls[at]))
                == Some(listed(ls, section, false)[i]),
        !plumbing(listed(ls, section, false)[i].name),
{
    assert(ls.skip(0) =~= ls);
    lemma_listed_from(ls, section, 0, i);
}

proof fn lemma_listed_from(ls: Seq<Seq<char>>, section: Seq<char>, n: int, i: int)
    requires
        0 <= n <= ls.len(),
        0 <= i < listed(ls.skip(n), section, false).len(),
    ensures
        exists|at: int|
            0 <= at < ls.len() && #[trigger] stands_in(ls, section, at) && device_line(leaf(ls[at]))
                == Some(listed(ls.skip(n), section, false)[i]),
        !plumbing(listed(ls.skip(n), section, false)[i].name),
    decreases ls.len() - n,
{
    let rest = ls.skip(n);
    assert(rest.skip(1) =~= ls.skip(n + 1));
    assert(rest[0] == ls[n]);
    if begins(leaf(ls[n]), section) {
        lemma_listed_inside(ls, section, n, n + 1, i);
    } else {
        lemma_listed_from(ls, section, n + 1, i);
    }
}

proof fn lemma_listed_inside(ls: Seq<Seq<char>>, section: Seq<char>, from: int, n: int, i: int)
    requires
        0 <= from < n <= ls.len(),
        begins(leaf(ls[from]), section),
        forall|k: int|
            from < k < n ==> begins(leaf(#[trigger] ls[k]), section) || !is_heading(ls[k]),
        0 <= i < listed(ls.skip(n), section, true).len(),
    ensures
        exists|at: int|
            0 <= at < ls.len() && #[trigger] stands_in(ls, section, at) && device_line(leaf(ls[at]))
                == Some(listed(ls.skip(n), section, true)[i]),
        !plumbing(listed(ls.skip(n), section, true)[i].name),
    decreases ls.len() - n,
{
    let rest = ls.skip(n);
    assert(rest.skip(1) =~= ls.skip(n + 1));
    assert(rest[0] == ls[n]);
    if begins(leaf(ls[n]), section) {
        lemma_listed_inside(ls, section, from, n + 1, i);
    } else {
        assert(!is_heading(ls[n]));
        match device_line(leaf(ls[n])) {
            Some(d) if !plumbing(d.name) => {
                let tail = listed(ls.skip(n + 1), section, true);
                assert(listed(rest, section, true) == seq![d] + tail);
                if i == 0 {
                    assert(listed(rest, section, true)[0] == d);
                    assert(begins(leaf(ls[from]), section));
                    assert(stands_in(ls, section, n));
                } else {
                    assert(listed(rest, section, true)[i] == tail[i - 1]);
                    lemma_listed_inside(ls, section, from, n + 1, i - 1);
                }
            },
            _ => {
                lemma_listed_inside(ls, section, from, n + 1, i);
            },
        }
    }
}

/// Pull one section out of `wpctl status`.
///
/// A section ends at the next heading, which is how a device list is told from the `Filters:`
/// block that follows it: treating filters as devices would offer the wearer a list of plumbing.
/// The sinks made for the session's own windows are dropped for the same reason.
pub fn parse_devices(text: &str, direction: Direction) -> (out: Vec<AudioDevice>)
    ensures
        devices(out@) == listed(lines(text@), direction.section(), false),
{
    let all = chars(text);
    let ls = split_lines(all.as_slice());
    let heading = chars(direction.heading());
    let ghost section = direction.section();
    let ghost whole = lines(text@);
    let ghost wanted = listed(whole, section, false);
    let mut out: Vec<AudioDevice> = Vec::new();
    let mut inside = false;
    let mut i: usize = 0;
    assert(whole.skip(0) =~= whole);
    assert(devices(out@) =~= Seq::empty());
    assert(devices(out@) + wanted =~= wanted);
    while i < ls.len()
        invariant_except_break
            devices(out@) + listed(whole.skip(i as int), section, inside) == wanted,
        invariant
            i <= ls.len(),
            views(ls@) == whole,
            heading@ == section,
        ensures
            devices(out@) == wanted,
        decreases ls.len() - i,
    {
        let ghost rest = whole.skip(i as int);
        let ghost had = devices(out@);
        assert(rest[0] == ls@[i as int]@);
        assert(rest.skip(1) =~= whole.skip(i + 1));
        let trimmed_line = trim_start(ls[i], Class::Tree);
        i = i + 1;
        if starts_with(trimmed_line, heading.as_slice()) {
            inside = true;
            continue;
        }
        if !inside {
            continue;
        }
        if trimmed_line.len() > 0 && trimmed_line[trimmed_line.len() - 1] == ':' {
            assert(is_heading(rest[0]));
            assert(had + listed(rest, section, true) =~= had);
            break;
        }
        assert(!is_heading(rest[0]));
        let found = match parse_device_line(trimmed_line) {
            Some(found) => found,
            None => {
                continue;
            },
        };
        if is_our_own_plumbing(found.name.as_str()) {
            continue;
        }
        let ghost d = found@;
        assert(device_line(leaf(rest[0])) == Some(d));
        out.push(found);
        assert(devices(out@) =~= had.push(d));
        assert(listed(rest, section, true) == seq![d] + listed(whole.skip(i as int), section, true));
        assert(devices(out@) + listed(whole.skip(i as int), section, inside) =~= had + listed(
            rest,
            section,
            true,
        ));
    }
    out
}

/// Whether white space only ever stands alone, and never at either end.
pub open spec fn is_tidy(s: Seq<char>) -> bool {
    &&& s.len() > 0 ==> !is_space(s[0]) && !is_space(s.last())
    &&& forall|i: int|
        0 <= i < s.len() - 1 ==> !(is_space(#[trigger] s[i]) && is_space(s[i + 1]))
}

/// Tidying does not leave double spaces behind, nor any at the ends.
pub proof fn tidying_leaves_no_double_spaces(s: Seq<char>)
    ensures
        is_tidy(tidied(s)),
{
    lemma_words(s);
    lemma_joined_tidy(words(s));
}

/// A name is never blank, unless it came blank.
pub proof fn a_device_never_loses_its_name(raw: Seq<char>)
    requires
        trimmed(raw).len() > 0,
    ensures
        friendly(raw).len() > 0,
{
}

/// Whether there is something in a word and no white space.
spec fn is_word(w: Seq<char>) -> bool {
    w.len() > 0 && (forall|i: int| 0 <= i < w.len() ==> !is_space(#[trigger] w[i]))
}

proof fn lemma_words(s: Seq<char>)
    ensures
        forall|i: int| 0 <= i < words(s).len() ==> is_word(#[trigger] words(s)[i]),
    decreases s.len(),
{
    if s.len() > 0 {
        if is_space(s[0]) {
            lemma_words(s.skip(1));
            assert(words(s) == words(s.skip(1)));
        } else {
            lemma_word_len(s.skip(1));
            let n = (1 + word_len(s.skip(1))) as int;
            let w = s.take(n);
            assert(is_word(w)) by {
                assert forall|i: int| 0 <= i < w.len() implies !is_space(#[trigger] w[i]) by {
                    if i > 0 {
                        assert(s.skip(1)[i - 1] == s[i]);
                    }
                }
            }
            lemma_words(s.skip(n));
            assert(words(s) == seq![w] + words(s.skip(n)));
            assert forall|i: int| 0 <= i < words(s).len() implies is_word(
                #[trigger] words(s)[i],
            ) by {
                if i > 0 {
                    assert(words(s)[i] == words(s.skip(n))[i - 1]);
                } else {
                    assert(words(s)[0] == w);
                }
            }
        }
    }
}

proof fn lemma_joined_tidy(ws: Seq<Seq<char>>)
    requires
        forall|i: int| 0 <= i < ws.len() ==> is_word(#[trigger] ws[i]),
    ensures
        is_tidy(joined(ws, " "@)),
        ws.len() > 0 ==> joined(ws, " "@).len() > 0,
    decreases ws.len(),
{
    reveal_strlit(" ");
    let out = joined(ws, " "@);
    if ws.len() == 1 {
        assert(is_word(ws[0]));
        assert(out == ws[0]);
    } else if ws.len() > 1 {
        let init = ws.drop_last();
        assert forall|i: int| 0 <= i < init.len() implies is_word(#[trigger] init[i]) by {
            assert(init[i] == ws[i]);
        }
        lemma_joined_tidy(init);
        let head = joined(init, " "@);
        let w = ws.last();
        assert(is_word(ws[ws.len() - 1]));
        assert(out == head + " "@ + w);
        assert(out[0] == head[0]);
        assert(out.last() == w[w.len() - 1]);
        assert forall|i: int| 0 <= i < out.len() - 1 implies !(is_space(#[trigger] out[i])
            && is_space(out[i + 1])) by {
            if i < head.len() - 1 {
                assert(out[i] == head[i] && out[i + 1] == head[i + 1]);
            } else if i == head.len() - 1 {
                assert(out[i] == head.last());
            } else if i == head.len() {
                assert(out[i + 1] == w[0]);
            } else {
                assert(out[i] == w[i - head.len() - 1]);
            }
        }
    }
}

/// What a property is worth, in the first line that gives it.
///
/// A line may carry an asterisk in front, and its value quotation marks round it.
pub open spec fn property_of(ls: Seq<Seq<char>>, wanted: Seq<char>) -> Option<Seq<char>>
    decreases ls.len(),
{
    if ls.len() == 0 {
        None
    } else {
        match after_prefix(without_leading(trimmed(ls[0]), Class::Mark), wanted) {
            Some(value) => Some(stripped(trimmed(value), Class::Quote)),
            None => property_of(ls.skip(1), wanted),
        }
    }
}

/// One of a node's properties, by name, in what `wpctl inspect` printed about it.
pub open spec fn property_in_text(text: Seq<char>, key: Seq<char>) -> Option<Seq<char>> {
    property_of(lines(text), key + " = "@)
}

/// The model of a string that may not be there.
pub open spec fn written(s: Option<String>) -> Option<Seq<char>> {
    match s {
        Some(s) => Some(s@),
        None => None,
    }
}

/// Pull `<key> = "…"` out of what `wpctl inspect` printed.
pub fn property_in(text: &str, key: &str) -> (out: Option<String>)
    ensures
        written(out) == property_in_text(text@, key@),
{
    let mut wanted = chars(key);
    push_str(&mut wanted, " = ");
    let all = chars(text);
    let ls = split_lines(all.as_slice());
    let ghost whole = lines(text@);
    let mut i: usize = 0;
    assert(whole.skip(0) =~= whole);
    while i < ls.len()
        invariant
            i <= ls.len(),
            views(ls@) == whole,
            property_of(whole, wanted@) == property_of(whole.skip(i as int), wanted@),
            property_of(whole, wanted@) == property_in_text(text@, key@),
        decreases ls.len() - i,
    {
        assert(whole.skip(i as int)[0] == ls@[i as int]@);
        assert(whole.skip(i as int).skip(1) =~= whole.skip(i + 1));
        let line = trim_start(trim(ls[i]), Class::Mark);
        if let Some(value) = strip_prefix(line, wanted.as_slice()) {
            return Some(string(strip(trim(value), Class::Quote)));
        }
        i = i + 1;
    }
    None
}

/// What a sound server calls its loopback copy of a capture device.
pub const LOOPBACK: &'static str = "alsa_loopback_device.";

/// The node that a line marks as the default, where its name begins as a loopback copy's does.
pub open spec fn loopback_line(line: Seq<char>) -> Option<u32> {
    match after_prefix(trimmed(leaf(line)), seq!['*']) {
        Some(rest) => match halves(without_leading(rest, Class::Space), '.') {
            Some((id, name)) => match number_within(trimmed(id), u32::MAX as nat) {
                Some(id) if begins(without_leading(name, Class::Space), LOOPBACK@) => Some(
                    id as u32,
                ),
                _ => None,
            },
            None => None,
        },
        None => None,
    }
}

/// The first such node.
pub open spec fn loopback_in(ls: Seq<Seq<char>>) -> Option<u32>
    decreases ls.len(),
{
    if ls.len() == 0 {
        None
    } else {
        match loopback_line(ls[0]) {
            Some(id) => Some(id),
            None => loopback_in(ls.skip(1)),
        }
    }
}

fn read_loopback_line(line: &[char]) -> (out: Option<u32>)
    ensures
        out == loopback_line(line@),
{
    let star = chars("*");
    proof {
        reveal_strlit("*");
        assert("*"@ =~= seq!['*']);
    }
    let rest = match strip_prefix(trim(trim_start(line, Class::Tree)), star.as_slice()) {
        Some(rest) => rest,
        None => {
            return None;
        },
    };
    let (id, name) = match split_once(trim_start(rest, Class::Space), '.') {
        Some(halves) => halves,
        None => {
            return None;
        },
    };
    let id: u32 = match parse_within(trim(id), u32::MAX as u64) {
        Some(id) => id as u32,
        None => {
            return None;
        },
    };
    let loopback = chars(LOOPBACK);
    if starts_with(trim_start(name, Class::Space), loopback.as_slice()) {
        Some(id)
    } else {
        None
    }
}

/// The default device, when it is one of the copies the list deliberately hides.
///
/// [`parse_devices`] skips the `Filters:` block because it is plumbing, and [`recordable`]
/// makes the default a node inside it. Both are right, and together they left the panel with
/// no device marked at all. This is the other half — it finds the hidden node so the device
/// standing in front of it can be marked.
pub fn default_loopback(text: &str) -> (out: Option<u32>)
    ensures
        out == loopback_in(lines(text@)),
{
    let all = chars(text);
    let ls = split_lines(all.as_slice());
    let ghost whole = lines(text@);
    let mut i: usize = 0;
    assert(whole.skip(0) =~= whole);
    while i < ls.len()
        invariant
            i <= ls.len(),
            views(ls@) == whole,
            whole == lines(text@),
            loopback_in(whole) == loopback_in(whole.skip(i as int)),
        decreases ls.len() - i,
    {
        assert(whole.skip(i as int)[0] == ls@[i as int]@);
        assert(whole.skip(i as int).skip(1) =~= whole.skip(i + 1));
        let found = read_loopback_line(ls[i]);
        if found.is_some() {
            return found;
        }
        i = i + 1;
    }
    None
}

/// The id on a line, where the line names exactly this node.
pub open spec fn node_line(line: Seq<char>, name: Seq<char>) -> Option<u32> {
    let text = trimmed(leaf(line));
    let text = match after_prefix(text, seq!['*']) {
        Some(rest) => without_leading(rest, Class::Space),
        None => text,
    };
    match halves(text, '.') {
        Some((id, rest)) => match number_within(trimmed(id), u32::MAX as nat) {
            Some(id) if trimmed(before(rest, '[')) == name => Some(id as u32),
            _ => None,
        },
        None => None,
    }
}

/// The first line's id that names exactly this node.
pub open spec fn node_in(ls: Seq<Seq<char>>, name: Seq<char>) -> Option<u32>
    decreases ls.len(),
{
    if ls.len() == 0 {
        None
    } else {
        match node_line(ls[0], name) {
            Some(id) => Some(id),
            None => node_in(ls.skip(1), name),
        }
    }
}

fn read_node_line(line: &[char], name: &[char]) -> (out: Option<u32>)
    ensures
        out == node_line(line@, name@),
{
    let star = chars("*");
    proof {
        reveal_strlit("*");
        assert("*"@ =~= seq!['*']);
    }
    let text = trim(trim_start(line, Class::Tree));
    let text = match strip_prefix(text, star.as_slice()) {
        Some(rest) => trim_start(rest, Class::Space),
        None => text,
    };
    let (id, rest) = match split_once(text, '.') {
        Some(halves) => halves,
        None => {
            return None;
        },
    };
    let id: u32 = match parse_within(trim(id), u32::MAX as u64) {
        Some(id) => id as u32,
        None => {
            return None;
        },
    };
    if same(trim(up_to(rest, '[')), name) {
        Some(id)
    } else {
        None
    }
}

/// The id of the node with exactly this name, from anywhere in `wpctl status`.
///
/// Anywhere, deliberately: the node wanted here is under `Filters:`, which [`parse_devices`]
/// goes out of its way to skip because it is plumbing. It is still plumbing. It is just
/// plumbing that has to be named when a device is chosen.
pub fn find_node(text: &str, name: &str) -> (out: Option<u32>)
    ensures
        out == node_in(lines(text@), name@),
{
    let wanted = chars(name);
    let all = chars(text);
    let ls = split_lines(all.as_slice());
    let ghost whole = lines(text@);
    let mut i: usize = 0;
    assert(whole.skip(0) =~= whole);
    while i < ls.len()
        invariant
            i <= ls.len(),
            views(ls@) == whole,
            whole == lines(text@),
            wanted@ == name@,
            node_in(whole, name@) == node_in(whole.skip(i as int), name@),
        decreases ls.len() - i,
    {
        assert(whole.skip(i as int)[0] == ls@[i as int]@);
        assert(whole.skip(i as int).skip(1) =~= whole.skip(i + 1));
        let found = read_node_line(ls[i], wanted.as_slice());
        if found.is_some() {
            return found;
        }
        i = i + 1;
    }
    None
}

/// Where a name first stands in a list, or the list's length.
pub open spec fn named_at(ds: Seq<DeviceView>, name: Seq<char>) -> nat
    decreases ds.len(),
{
    if ds.len() == 0 || ds[0].name == name {
        0
    } else {
        1 + named_at(ds.skip(1), name)
    }
}

/// A list with the first device of this name marked as the default, where there is one.
pub open spec fn marked(ds: Seq<DeviceView>, name: Seq<char>) -> Seq<DeviceView> {
    let at = named_at(ds, name) as int;
    if at < ds.len() {
        ds.update(at, (DeviceView { is_default: true, ..ds[at] }))
    } else {
        ds
    }
}

proof fn lemma_named_at(ds: Seq<DeviceView>, name: Seq<char>, n: nat)
    requires
        n <= ds.len(),
        n < ds.len() ==> ds[n as int].name == name,
        forall|i: int| 0 <= i < n ==> ds[i].name != name,
    ensures
        named_at(ds, name) == n,
    decreases ds.len(),
{
    if n > 0 {
        assert(ds[0].name != name);
        assert forall|i: int| 0 <= i < n - 1 implies ds.skip(1)[i].name != name by {
            assert(ds.skip(1)[i] == ds[i + 1]);
        }
        if n < ds.len() {
            assert(ds.skip(1)[n - 1] == ds[n as int]);
        }
        lemma_named_at(ds.skip(1), name, (n - 1) as nat);
    }
}

/// Mark the device that stands in front of a hidden one, matched on the name they share.
///
/// A copy carries the same `node.description` as the device it copies — "Air Mono" for both —
/// which is what makes this a lookup rather than a guess.
pub fn mark_default_behind(list: &mut Vec<AudioDevice>, description: &str)
    ensures
        devices(final(list)@) == marked(devices(old(list)@), friendly(description@)),
{
    let name = friendly_name(description);
    let ghost had = devices(list@);
    let mut i: usize = 0;
    while i < list.len()
        invariant
            i <= list.len(),
            had == devices(list@),
            name@ == friendly(description@),
            forall|k: int| 0 <= k < i ==> had[k].name != name@,
            list@ == old(list)@,
        decreases list.len() - i,
    {
        if list[i].name == name {
            proof {
                lemma_named_at(had, name@, i as nat);
            }
            let was = list.remove(i);
            list.insert(i, AudioDevice { id: was.id, name: was.name, is_default: true });
            assert(devices(list@) =~= marked(had, name@));
            return;
        }
        i = i + 1;
    }
    proof {
        lemma_named_at(had, name@, i as nat);
    }
}

/// What is available to listen to and speak into, as it stands right now.
#[derive(Debug, Clone, PartialEq, Eq)]
pub struct Audio {
    pub outputs: Vec<AudioDevice>,
    pub inputs: Vec<AudioDevice>,
}

/// The devices of one direction.
pub open spec fn side(audio: Audio, direction: Direction) -> Seq<DeviceView> {
    match direction {
        Direction::Output => devices(audio.outputs@),
        Direction::Input => devices(audio.inputs@),
    }
}

impl Default for Audio {
    fn default() -> (out: Self)
        ensures
            out.outputs@.len() == 0,
            out.inputs@.len() == 0,
    {
        Audio { outputs: Vec::new(), inputs: Vec::new() }
    }
}

impl Audio {
    pub fn list(&self, direction: Direction) -> (out: &[AudioDevice])
        ensures
            devices(out@) == side(*self, direction),
            out@ == (match direction {
                Direction::Output => self.outputs@,
                Direction::Input => self.inputs@,
            }),
    {
        match direction {
            Direction::Output => self.outputs.as_slice(),
            Direction::Input => self.inputs.as_slice(),
        }
    }
}

/// Whether any device in a list is the default.
pub open spec fn has_default(ds: Seq<DeviceView>) -> bool {
    exists|i: int| 0 <= i < ds.len() && (#[trigger] ds[i]).is_default
}

fn any_default(list: &Vec<AudioDevice>) -> (out: bool)
    ensures
        out == has_default(devices(list@)),
{
    let ghost ds = devices(list@);
    let mut i: usize = 0;
    while i < list.len()
        invariant
            i <= list.len(),
            ds == devices(list@),
            forall|k: int| 0 <= k < i ==> !(#[trigger] ds[k]).is_default,
        decreases list.len() - i,
    {
        if list[i].is_default {
            assert(ds[i as int].is_default);
            return true;
        }
        i = i + 1;
    }
    false
}

/// The hidden node whose description is needed to mark an input as the default: there is one
/// only where no input is marked and the default is a loopback copy.
pub open spec fn to_inspect(status: Seq<char>) -> Option<u32> {
    if has_default(listed(lines(status), "Sources:"@, false)) {
        None
    } else {
        loopback_in(lines(status))
    }
}

/// The node to inspect before the inputs can be listed, if any.
///
/// Asking costs one more process every two seconds, and only while that is the case.
pub fn default_to_inspect(status: &str) -> (out: Option<u32>)
    ensures
        out == to_inspect(status@),
{
    let inputs = parse_devices(status, Direction::Input);
    if any_default(&inputs) {
        None
    } else {
        default_loopback(status)
    }
}

/// The inputs, with the one in front of a hidden default marked.
pub open spec fn inputs_of(status: Seq<char>, inspected: Option<Seq<char>>) -> Seq<DeviceView> {
    let ds = listed(lines(status), "Sources:"@, false);
    match (to_inspect(status), inspected) {
        (Some(_), Some(text)) => match property_in_text(text, "node.description"@) {
            Some(description) => marked(ds, friendly(description)),
            None => ds,
        },
        _ => ds,
    }
}

/// Everything currently available, in both directions, from one `wpctl status`, and from what
/// `wpctl inspect` printed about [`default_to_inspect`]'s node.
///
/// Re-read rather than watched: plugging in a USB or Bluetooth device shows up on the next tick.
pub fn audio_devices(status: &str, inspected: Option<&str>) -> (out: Audio)
    ensures
        side(out, Direction::Output) == listed(lines(status@), "Sinks:"@, false),
        side(out, Direction::Input) == inputs_of(
            status@,
            (match inspected {
                Some(text) => Some(text@),
                None => None,
            }),
        ),
{
    let mut inputs = parse_devices(status, Direction::Input);
    if default_to_inspect(status).is_some() {
        if let Some(text) = inspected {
            if let Some(description) = property_in(text, "node.description") {
                mark_default_behind(&mut inputs, description.as_str());
            }
        }
    }
    Audio { outputs: parse_devices(status, Direction::Output), inputs }
}

/// The node that can be recorded from: the loopback copy of the one chosen, where there is one.
pub open spec fn recorded_from(
    id: u32,
    inspected: Option<Seq<char>>,
    status: Option<Seq<char>>,
) -> u32 {
    match (inspected, status) {
        (Some(inspected), Some(status)) => match property_in_text(inspected, "node.name"@) {
            Some(name) => match node_in(lines(status), LOOPBACK@ + name) {
                Some(twin) => twin,
                None => id,
            },
            None => id,
        },
        _ => id,
    }
}

/// The node that can actually be recorded from, which is not always the one chosen.
///
/// A capture node can appear twice: once as the device, and once as a loopback copy of it under
/// `Filters:`. Recording from the device yields a header and not one frame of sound; the copy is
/// what this system intends clients to use. The picker lists the devices because those are what
/// carries a readable name, so the one chosen is swapped for its copy here.
///
/// It is self-limiting: on a machine with no such copy nothing matches and the chosen device
/// is used unchanged. A sink has no loopback twin either, so an output passes straight through.
pub fn recordable(id: u32, inspected: Option<&str>, status: Option<&str>) -> (out: u32)
    ensures
        out == recorded_from(
            id,
            (match inspected {
                Some(text) => Some(text@),
                None => None,
            }),
            (match status {
                Some(text) => Some(text@),
                None => None,
            }),
        ),
{
    if let (Some(inspected), Some(status)) = (inspected, status) {
        if let Some(name) = property_in(inspected, "node.name") {
            let mut wanted = chars(LOOPBACK);
            push_str(&mut wanted, name.as_str());
            let wanted = string(wanted.as_slice());
            if let Some(twin) = find_node(status, wanted.as_str()) {
                return twin;
            }
        }
    }
    id
}

proof fn lemma_trimmed_is(s: Seq<char>, inner: Seq<char>)
    requires
        inner.len() > 0,
        !is_space(inner[0]),
        !is_space(inner.last()),
        s == inner || s == seq![' '] + inner || s == seq![' '] + inner + seq![' '] || s == inner
            + seq![' '],
    ensures
        trimmed(s) == inner,
{
    let (a, b) = crate::text::only_the_ends_are_trimmed(s, Class::Space);
    let at: int = if s == inner || s == inner + seq![' '] {
        0
    } else {
        1
    };
    let end = at + inner.len();
    assert(s[at] == inner[0]);
    assert(s[end - 1] == inner.last());
    assert(!Class::Space.has(s[at]));
    assert(!Class::Space.has(s[end - 1]));
    assert(a <= at && end <= b);
    assert(a < b);
    assert(at == 1 ==> s[0] == ' ');
    assert(end < s.len() ==> s[end] == ' ');
    assert(Class::Space.has(' '));
    assert(a == at);
    assert(b == end);
    assert(s.subrange(a, b) =~= inner);
}

/// A line of a section is read as it is written: the number before the point is the device's, what
/// follows it up to a bracket is its name, and a star in front makes it the default and changes
/// nothing else.
pub proof fn a_device_is_read_as_it_is_written(id: u32, name: Seq<char>, level: Seq<char>)
    requires
        name.len() > 0,
        !is_space(name[0]),
        !is_space(name.last()),
        forall|i: int| 0 <= i < name.len() ==> name[i] != '[',
    ensures
        ({
            let plain = decimal(id as nat) + seq!['.', ' '] + name;
            let loud = plain + seq![' ', '['] + level + seq![']'];
            let it = DeviceView { id, name: friendly(name), is_default: false };
            let chosen = DeviceView { is_default: true, ..it };
            &&& device_line(plain) == Some(it)
            &&& device_line(loud) == Some(it)
            &&& device_line(seq!['*', ' '] + plain) == Some(chosen)
            &&& device_line(seq!['*', ' '] + loud) == Some(chosen)
        }),
{
    let digits = decimal(id as nat);
    let plain = digits + seq!['.', ' '] + name;
    let loud = plain + seq![' ', '['] + level + seq![']'];
    let gap = seq![' '] + name;
    assert(digits + seq!['.'] + gap =~= plain);
    lemma_read(id, name, plain, gap);
    let long = seq![' '] + name + seq![' ', '['] + level + seq![']'];
    assert(digits + seq!['.'] + long =~= loud);
    assert(long.take((name.len() + 2) as int) =~= seq![' '] + name + seq![' ']);
    assert(long[(name.len() + 2) as int] == '[');
    assert(long.last() == ']');
    lemma_read(id, name, loud, long);
}

#[verifier::spinoff_prover]
#[verifier::rlimit(60)]
proof fn lemma_read(id: u32, name: Seq<char>, line: Seq<char>, rest: Seq<char>)
    requires
        name.len() > 0,
        !is_space(name[0]),
        !is_space(name.last()),
        forall|i: int| 0 <= i < name.len() ==> name[i] != '[',
        line == decimal(id as nat) + seq!['.'] + rest,
        rest == seq![' '] + name || (rest.len() > name.len() + 2 && rest.take(
            (name.len() + 2) as int,
        ) == seq![' '] + name + seq![' '] && rest[(name.len() + 2) as int] == '[' && rest.last()
            == ']'),
    ensures
        device_line(line) == Some(DeviceView { id, name: friendly(name), is_default: false }),
        device_line(seq!['*', ' '] + line) == Some(
            DeviceView { id, name: friendly(name), is_default: true },
        ),
{
    let digits = decimal(id as nat);
    crate::text::lemma_decimal(id as nat);
    crate::text::decimal_reads_back(id as nat);
    assert forall|i: int| 0 <= i < digits.len() implies digits[i] != '.' && !is_space(
        digits[i],
    ) by {
        assert(crate::text::is_digit(digits[i]));
    }
    assert(line[0] == digits[0]);
    assert(crate::text::is_digit(digits[0]));
    let last = rest.last();
    if rest == seq![' '] + name {
        assert(last == name.last());
    } else {
        assert(last == ']');
    }
    assert(line.last() == last);
    lemma_trimmed_is(line, line);
    assert(!begins(line, seq!['*'])) by {
        if begins(line, seq!['*']) {
            assert(line.take(1)[0] == line[0]);
        }
    }
    crate::text::what_is_parted_goes_back_together(digits, '.', rest);
    lemma_trimmed_is(digits, digits);
    // Its name.
    if rest == seq![' '] + name {
        assert forall|i: int| 0 <= i < rest.len() implies rest[i] != '[' by {
            if i > 0 {
                assert(rest[i] == name[i - 1]);
            }
        }
        crate::text::what_is_parted_goes_back_together(rest, '[', Seq::empty());
        lemma_trimmed_is(rest, name);
    } else {
        let head = seq![' '] + name + seq![' '];
        let tail = rest.skip((head.len() + 1) as int);
        assert(rest[head.len() as int] == '[');
        assert(rest[0] == rest.take(head.len() as int)[0]);
        assert(rest =~= rest.take(head.len() as int) + seq!['['] + tail);
        assert forall|i: int| 0 <= i < head.len() implies head[i] != '[' by {
            if 0 < i <= name.len() {
                assert(head[i] == name[i - 1]);
            }
        }
        crate::text::what_is_parted_goes_back_together(head, '[', tail);
        lemma_trimmed_is(head, name);
    }
    // The star.
    let starred = seq!['*', ' '] + line;
    assert(starred[0] == '*' && starred.last() == line.last());
    lemma_trimmed_is(starred, starred);
    assert(starred.take(1) =~= seq!['*']);
    let after = starred.skip(1);
    assert(after[0] == ' ');
    assert(after.skip(1) =~= line);
    assert(Class::Space.has(' '));
    assert(!Class::Space.has(line[0]));
    assert(without_leading(line, Class::Space) == line);
    assert(without_leading(after, Class::Space) == line);
}

/// Every device of a section is listed: whatever stands after the section's first heading, with no
/// other heading between, reads as a device, and is not the session's own plumbing.
pub proof fn a_section_leaves_nothing_out(
    ls: Seq<Seq<char>>,
    section: Seq<char>,
    from: int,
    at: int,
    d: DeviceView,
)
    requires
        0 <= from < at < ls.len(),
        begins(leaf(ls[from]), section),
        forall|k: int| 0 <= k < from ==> !begins(leaf(#[trigger] ls[k]), section),
        forall|k: int|
            from < k <= at ==> begins(leaf(#[trigger] ls[k]), section) || !is_heading(ls[k]),
        !begins(leaf(ls[at]), section),
        device_line(leaf(ls[at])) == Some(d),
        !plumbing(d.name),
    ensures
        listed(ls, section, false).contains(d),
    decreases ls.len(),
{
    let rest = ls.skip(1);
    if from == 0 {
        assert(rest[at - 1] == ls[at]);
        assert forall|k: int| 0 <= k <= at - 1 implies begins(leaf(#[trigger] rest[k]), section)
            || !is_heading(rest[k]) by {
            assert(rest[k] == ls[k + 1]);
        }
        lemma_inside_is_listed(rest, section, at - 1, d);
    } else {
        assert(!begins(leaf(ls[0]), section));
        assert(rest[from - 1] == ls[from] && rest[at - 1] == ls[at]);
        assert forall|k: int| 0 <= k < from - 1 implies !begins(
            leaf(#[trigger] rest[k]),
            section,
        ) by {
            assert(rest[k] == ls[k + 1]);
        }
        assert forall|k: int| from - 1 < k <= at - 1 implies begins(
            leaf(#[trigger] rest[k]),
            section,
        ) || !is_heading(rest[k]) by {
            assert(rest[k] == ls[k + 1]);
        }
        a_section_leaves_nothing_out(rest, section, from - 1, at - 1, d);
    }
}

proof fn lemma_inside_is_listed(ls: Seq<Seq<char>>, section: Seq<char>, at: int, d: DeviceView)
    requires
        0 <= at < ls.len(),
        forall|k: int|
            0 <= k <= at ==> begins(leaf(#[trigger] ls[k]), section) || !is_heading(ls[k]),
        !begins(leaf(ls[at]), section),
        device_line(leaf(ls[at])) == Some(d),
        !plumbing(d.name),
    ensures
        listed(ls, section, true).contains(d),
    decreases ls.len(),
{
    let rest = ls.skip(1);
    let all = listed(ls, section, true);
    assert(begins(leaf(ls[0]), section) || !is_heading(ls[0]));
    if at == 0 {
        assert(all[0] == d);
    } else {
        assert(rest[at - 1] == ls[at]);
        assert forall|k: int| 0 <= k <= at - 1 implies begins(leaf(#[trigger] rest[k]), section)
            || !is_heading(rest[k]) by {
            assert(rest[k] == ls[k + 1]);
        }
        lemma_inside_is_listed(rest, section, at - 1, d);
        let fewer = listed(rest, section, true);
        let i = choose|i: int| 0 <= i < fewer.len() && fewer[i] == d;
        if all.len() > fewer.len() {
            assert(all[i + 1] == d);
        } else {
            assert(all[i] == d);
        }
    }
}

/// A property is what its first line gives, with nothing round it: a star in front of it, white
/// space and the quotation marks make no difference to what it is.
pub proof fn a_property_is_what_its_line_gives(key: Seq<char>, value: Seq<char>, rest: Seq<Seq<char>>)
    requires
        key.len() > 0,
        !is_space(key[0]),
        key[0] != '*',
        value.len() > 0,
        value[0] != '"',
        value.last() != '"',
    ensures
        ({
            let line = key + " = "@ + seq!['"'] + value + seq!['"'];
            &&& property_of(seq![line] + rest, key + " = "@) == Some(value)
            &&& property_of(seq![seq!['*', ' '] + line] + rest, key + " = "@) == Some(value)
            &&& property_of(seq![seq![' '] + line] + rest, key + " = "@) == Some(value)
        }),
{
    reveal_strlit(" = ");
    let line = key + " = "@ + seq!['"'] + value + seq!['"'];
    let wanted = key + " = "@;
    let quoted = seq!['"'] + value + seq!['"'];
    assert(line =~= wanted + quoted);
    assert(line[0] == key[0] && line.last() == '"');
    lemma_trimmed_is(line, line);
    lemma_trimmed_is(seq![' '] + line, line);
    let starred = seq!['*', ' '] + line;
    assert(starred.last() == '"');
    lemma_trimmed_is(starred, starred);
    assert(!Class::Mark.has(line[0]));
    assert(without_leading(line, Class::Mark) == line);
    assert(starred.skip(1).skip(1) =~= line);
    assert(starred.skip(1)[0] == ' ');
    assert(without_leading(starred.skip(1), Class::Mark) == line);
    assert(without_leading(starred, Class::Mark) == line);
    assert(line.take(wanted.len() as int) =~= wanted);
    assert(line.skip(wanted.len() as int) =~= quoted);
    assert(quoted[0] == '"' && quoted.last() == '"');
    lemma_trimmed_is(quoted, quoted);
    let (a, b) = crate::text::only_the_ends_are_trimmed(quoted, Class::Quote);
    assert(quoted[1] == value[0]);
    assert(quoted[value.len() as int] == value.last());
    assert(!Class::Quote.has(quoted[1]) && !Class::Quote.has(quoted[value.len() as int]));
    assert(a == 1 && b == value.len() + 1);
    assert(quoted.subrange(a, b) =~= value);
    assert((seq![line] + rest)[0] == line);
    assert((seq![starred] + rest)[0] == starred);
    assert((seq![seq![' '] + line] + rest)[0] == seq![' '] + line);
}

/// The first line that gives a property, a loopback copy or a node of a name is the one that
/// counts, and the ones in front of it that do not might as well not be there.
pub proof fn the_first_line_that_says_counts(
    line: Seq<char>,
    rest: Seq<Seq<char>>,
    name: Seq<char>,
)
    ensures
        loopback_line(line) is Some ==> loopback_in(seq![line] + rest) == loopback_line(line),
        loopback_line(line) is None ==> loopback_in(seq![line] + rest) == loopback_in(rest),
        node_line(line, name) is Some ==> node_in(seq![line] + rest, name) == node_line(line, name),
        node_line(line, name) is None ==> node_in(seq![line] + rest, name) == node_in(rest, name),
        !begins(without_leading(trimmed(line), Class::Mark), name) ==> property_of(
            seq![line] + rest,
            name,
        ) == property_of(rest, name),
        loopback_in(Seq::empty()) is None,
        node_in(Seq::empty(), name) is None,
        property_of(Seq::empty(), name) is None,
{
    assert((seq![line] + rest).skip(1) =~= rest);
    assert((seq![line] + rest)[0] == line);
}

/// Marking a device marks the first of its name and nothing else, and changes nothing about it but
/// the mark; where there is none of that name nothing is marked.
pub proof fn only_the_first_of_a_name_is_marked(ds: Seq<DeviceView>, name: Seq<char>, i: int)
    requires
        0 <= i < ds.len(),
    ensures
        marked(ds, name).len() == ds.len(),
        marked(ds, name)[i].id == ds[i].id,
        marked(ds, name)[i].name == ds[i].name,
        ds[i].name == name && (forall|k: int| 0 <= k < i ==> (#[trigger] ds[k]).name != name)
            ==> marked(ds, name)[i].is_default,
        ds[i].name != name || (exists|k: int| 0 <= k < i && (#[trigger] ds[k]).name == name)
            ==> marked(ds, name)[i].is_default == ds[i].is_default,
{
    lemma_named_found(ds, name);
    if ds[i].name == name && (forall|k: int| 0 <= k < i ==> (#[trigger] ds[k]).name != name) {
        lemma_named_at(ds, name, i as nat);
    }
    if exists|k: int| 0 <= k < i && (#[trigger] ds[k]).name == name {
        let k = choose|k: int| 0 <= k < i && (#[trigger] ds[k]).name == name;
        assert(named_at(ds, name) <= k);
    }
}

proof fn lemma_named_found(ds: Seq<DeviceView>, name: Seq<char>)
    ensures
        named_at(ds, name) <= ds.len(),
        named_at(ds, name) < ds.len() ==> ds[named_at(ds, name) as int].name == name,
        forall|i: int| 0 <= i < named_at(ds, name) ==> (#[trigger] ds[i]).name != name,
    decreases ds.len(),
{
    if ds.len() > 0 && ds[0].name != name {
        lemma_named_found(ds.skip(1), name);
        assert forall|i: int| 0 <= i < named_at(ds, name) implies (#[trigger] ds[i]).name
            != name by {
            if i > 0 {
                assert(ds.skip(1)[i - 1] == ds[i]);
            }
        }
    }
}

/// Nothing is inspected where an input is marked as the default already, and then the inputs are
/// what the list says; what was inspected only ever marks one of them.
pub proof fn a_marked_input_is_left_alone(status: Seq<char>, inspected: Option<Seq<char>>)
    ensures
        has_default(listed(lines(status), "Sources:"@, false)) ==> to_inspect(status) is None,
        to_inspect(status) is None || inspected is None ==> inputs_of(status, inspected) == listed(
            lines(status),
            "Sources:"@,
            false,
        ),
        !has_default(listed(lines(status), "Sources:"@, false)) ==> to_inspect(status)
            == loopback_in(lines(status)),
        inputs_of(status, inspected).len() == listed(lines(status), "Sources:"@, false).len(),
{
}

/// What is recorded from is the loopback copy of what was chosen where there is one, and what was
/// chosen where there is none, or where it cannot be told.
pub proof fn a_copy_is_recorded_from_where_there_is_one(
    id: u32,
    inspected: Seq<char>,
    status: Seq<char>,
    name: Seq<char>,
    other: Option<Seq<char>>,
)
    ensures
        recorded_from(id, None, other) == id,
        recorded_from(id, other, None) == id,
        property_in_text(inspected, "node.name"@) is None ==> recorded_from(
            id,
            Some(inspected),
            Some(status),
        ) == id,
        property_in_text(inspected, "node.name"@) == Some(name) ==> (match node_in(
            lines(status),
            LOOPBACK@ + name,
        ) {
            Some(copy) => recorded_from(id, Some(inspected), Some(status)) == copy,
            None => recorded_from(id, Some(inspected), Some(status)) == id,
        }),
{
}

/// A device name in which none of the drivers' words stands is left as it is, but for its white
/// space.
pub proof fn a_plain_name_is_only_tidied(raw: Seq<char>)
    requires
        forall|i: int|
            0 <= i <= raw.len() ==> !begins(
                #[trigger] raw.skip(i),
                "ACP/ACP3X/ACP6x Audio Coprocessor"@,
            ) && !begins(raw.skip(i), "Internal Microphone"@) && !begins(
                raw.skip(i),
                "Analog Stereo"@,
            ) && !begins(raw.skip(i), "Digital Stereo"@) && !begins(raw.skip(i), "Air"@) && !begins(
                raw.skip(i),
                "Headphones"@,
            ) && !begins(raw.skip(i), "Mono"@),
    ensures
        substituted(raw) == raw,
        tidied(raw).len() > 0 ==> friendly(raw) == tidied(raw),
{
    reveal_strlit("Air");
    reveal_strlit("Air Mono");
    lemma_not_there(raw, "ACP/ACP3X/ACP6x Audio Coprocessor"@, "Deck"@);
    lemma_not_there(raw, "Internal Microphone"@, "Microphone"@);
    lemma_not_there(raw, "Analog Stereo"@, ""@);
    lemma_not_there(raw, "Digital Stereo"@, ""@);
    lemma_not_there(raw, "Headphones"@, "Headphones"@);
    lemma_not_there(raw, "Mono"@, ""@);
    assert forall|i: int| 0 <= i < raw.len() implies !crate::text::stands_at(raw, "Air"@, i)
        && !crate::text::stands_at(raw, "Air Mono"@, i) by {
        let rest = raw.skip(i);
        if crate::text::stands_at(raw, "Air"@, i) {
            assert(rest.take(3) =~= raw.subrange(i, i + 3));
        }
        if crate::text::stands_at(raw, "Air Mono"@, i) {
            assert(rest.take(3) =~= raw.subrange(i, i + 8).take(3));
            assert("Air Mono"@.take(3) =~= "Air"@);
        }
    }
    crate::text::a_word_inside_another_is_left(raw, "Air"@, "Glasses"@, 0);
    crate::text::a_word_inside_another_is_left(raw, "Air Mono"@, "Glasses Microphone"@, 0);
    assert(raw.skip(0) =~= raw);
}

proof fn lemma_not_there(s: Seq<char>, from: Seq<char>, to: Seq<char>)
    requires
        forall|i: int| 0 <= i <= s.len() ==> !begins(#[trigger] s.skip(i), from),
    ensures
        replaced(s, from, to) == s,
    decreases s.len(),
{
    assert(s.skip(0) =~= s);
    if !(from.len() == 0 || s.len() < from.len()) {
        let rest = s.skip(1);
        assert forall|i: int| 0 <= i <= rest.len() implies !begins(#[trigger] rest.skip(i), from) by {
            assert(rest.skip(i) =~= s.skip(i + 1));
        }
        lemma_not_there(rest, from, to);
        assert(seq![s[0]] + rest =~= s);
    }
}

} // verus!
