//! Remote applications, shown as ordinary windows in the room.
//!
//! A host somewhere else runs the application; its pictures arrive over a link and are put on a
//! surface. What is decided along the way is here: what a host has said and what that means for
//! the room, which frames may be decoded, who is given the pad, and what the settings page and
//! the launcher are told about it all.

pub mod client;
pub mod hosts;
pub mod link;
pub mod microphone;
pub mod pairing;
pub mod session;
pub mod sound;
pub mod stream;

use vstd::prelude::*;
use crate::text::{after_prefix, begins, chars, push_str, starts_with, string};

verus! {

/// What every window of a host is named with.
pub open spec fn prefix_of(host: Seq<char>) -> Seq<char> {
    "remote."@ + host + "."@
}

/// The app id a remote window is given: `remote.<host>.<app>`. One definition, because the
/// controller layouts, the title bar's icon and the window itself all key on it.
pub fn app_id(host: &str, app: &str) -> (out: String)
    ensures
        out@ == prefix_of(host@) + app@,
{
    let mut out = prefix_chars(host);
    push_str(&mut out, app);
    string(out.as_slice())
}

/// What every window of a host is named with.
pub fn app_id_prefix(host: &str) -> (out: String)
    ensures
        out@ == prefix_of(host@),
{
    let out = prefix_chars(host);
    string(out.as_slice())
}

fn prefix_chars(host: &str) -> (out: Vec<char>)
    ensures
        out@ == prefix_of(host@),
{
    let mut out = chars("remote.");
    push_str(&mut out, host);
    push_str(&mut out, ".");
    out
}

/// Whether an application id belongs to a host.
pub fn owns(host: &str, app_id: &str) -> (out: bool)
    ensures
        out == begins(app_id@, prefix_of(host@)),
{
    let prefix = prefix_chars(host);
    let app_id = chars(app_id);
    starts_with(app_id.as_slice(), prefix.as_slice())
}

/// A window's id leads back to its application: what follows the host's prefix is the name it was
/// made from, so asking to kill what is behind a window asks for the right thing.
pub proof fn an_app_id_leads_back_to_its_application(host: Seq<char>, app: Seq<char>)
    ensures
        begins(prefix_of(host) + app, prefix_of(host)),
        after_prefix(prefix_of(host) + app, prefix_of(host)) == Some(app),
{
    let prefix = prefix_of(host);
    assert((prefix + app).take(prefix.len() as int) =~= prefix);
    assert((prefix + app).skip(prefix.len() as int) =~= app);
}

/// Whether a character can stand in the name of a file anywhere.
pub open spec fn is_file_safe(c: char) -> bool {
    ||| '0' <= c <= '9'
    ||| 'a' <= c <= 'z'
    ||| 'A' <= c <= 'Z'
    ||| c == '.'
    ||| c == '-'
    ||| c == '_'
}

/// A text as the name of a file: an underscore for every character that might not do.
pub open spec fn filed(text: Seq<char>) -> Seq<char> {
    Seq::new(
        text.len(),
        |i: int|
            if is_file_safe(text[i]) {
                text[i]
            } else {
                '_'
            },
    )
}

/// A text as the name of a file.
pub fn file_safe(text: &str) -> (out: String)
    ensures
        out@ == filed(text@),
{
    let cs = chars(text);
    let out = file_safe_chars(cs.as_slice());
    string(out.as_slice())
}

fn file_safe_chars(cs: &[char]) -> (out: Vec<char>)
    ensures
        out@ == filed(cs@),
{
    let mut out: Vec<char> = Vec::new();
    let mut i: usize = 0;
    while i < cs.len()
        invariant
            i <= cs.len(),
            out@ == filed(cs@).take(i as int),
        decreases cs.len() - i,
    {
        let c = cs[i];
        let safe = ('0' <= c && c <= '9') || ('a' <= c && c <= 'z') || ('A' <= c && c <= 'Z') || c
            == '.' || c == '-' || c == '_';
        assert(filed(cs@).take(i + 1) =~= filed(cs@).take(i as int).push(filed(cs@)[i as int]));
        out.push(
            if safe {
                c
            } else {
                '_'
            },
        );
        i = i + 1;
    }
    assert(filed(cs@).take(i as int) =~= filed(cs@));
    out
}

/// A path with one more component.
pub open spec fn below(directory: Seq<char>, name: Seq<char>) -> Seq<char> {
    if directory.len() > 0 && directory.last() != '/' {
        directory + "/"@ + name
    } else {
        directory + name
    }
}

fn push_component(path: &mut Vec<char>, name: &str)
    ensures
        final(path)@ == below(old(path)@, name@),
{
    if path.len() > 0 && path[path.len() - 1] != '/' {
        push_str(path, "/");
    }
    push_str(path, name);
}

/// Where the icons hosts send are kept: in the cache directory, or the home directory's, or
/// failing both wherever temporary files go.
pub open spec fn icons_below(
    cache: Option<Seq<char>>,
    home: Option<Seq<char>>,
    temporary: Seq<char>,
) -> Seq<char> {
    let base = match (cache, home) {
        (Some(cache), _) => cache,
        (None, Some(home)) => below(home, ".cache"@),
        (None, None) => temporary,
    };
    below(below(base, "spatiand"@), "remote-icons"@)
}

/// The model of a string that may not be there.
pub open spec fn said(s: Option<&str>) -> Option<Seq<char>> {
    match s {
        Some(s) => Some(s@),
        None => None,
    }
}

/// Where the icons hosts send are kept.
pub fn icon_dir(cache: Option<&str>, home: Option<&str>, temporary: &str) -> (out: String)
    ensures
        out@ == icons_below(said(cache), said(home), temporary@),
{
    let mut path = match cache {
        Some(cache) => chars(cache),
        None => match home {
            Some(home) => {
                let mut path = chars(home);
                push_component(&mut path, ".cache");
                path
            },
            None => chars(temporary),
        },
    };
    push_component(&mut path, "spatiand");
    push_component(&mut path, "remote-icons");
    string(path.as_slice())
}

/// Where a remote window's icon is, for its title bar: the latest picture its host sent for it.
pub fn icon_for(directory: &str, app_id: &str) -> (out: String)
    ensures
        out@ == below(directory@, filed(app_id@) + ".png"@),
{
    let id = chars(app_id);
    let mut name = file_safe_chars(id.as_slice());
    push_str(&mut name, ".png");
    let name = string(name.as_slice());
    let mut path = chars(directory);
    push_component(&mut path, name.as_str());
    string(path.as_slice())
}

/// A number's last hexadecimal digits, `n` of them.
pub open spec fn hex(value: nat, n: nat) -> Seq<char>
    decreases n,
{
    if n == 0 {
        Seq::empty()
    } else {
        hex(value / 16, (n - 1) as nat).push(hex_digit(value % 16))
    }
}

/// The digit that stands for a number below sixteen.
pub open spec fn hex_digit(n: nat) -> char {
    if n < 10 {
        ('0' as nat + n) as char
    } else {
        ('a' as nat + n - 10) as char
    }
}

fn push_hex(out: &mut Vec<char>, value: u64, n: usize)
    ensures
        final(out)@ == old(out)@ + hex(value as nat, n as nat),
    decreases n,
{
    if n == 0 {
        assert(out@ + hex(value as nat, 0) =~= out@);
        return;
    }
    let ghost had = out@;
    push_hex(out, value / 16, n - 1);
    let d: u8 = (value % 16) as u8;
    let c: char = if d < 10 {
        (48 + d) as char
    } else {
        (97 + (d - 10)) as char
    };
    out.push(c);
    assert(out@ =~= had + hex(value as nat, n as nat));
}

/// Where a version of an icon is kept, given what its picture hashes to. The name changes when
/// the picture does, so a replaced icon is loaded afresh rather than found in the icon cache
/// under the old name.
pub fn versioned_icon(directory: &str, app_id: &str, hash: u64) -> (out: String)
    ensures
        out@ == below(directory@, filed(app_id@) + "-"@ + hex(hash as nat, 16) + ".png"@),
{
    let id = chars(app_id);
    let mut name = file_safe_chars(id.as_slice());
    push_str(&mut name, "-");
    push_hex(&mut name, hash, 16);
    push_str(&mut name, ".png");
    let name = string(name.as_slice());
    let mut path = chars(directory);
    push_component(&mut path, name.as_str());
    string(path.as_slice())
}

/// A picture that hashes to something else is kept under another name.
pub proof fn a_new_picture_gets_a_new_name(directory: Seq<char>, name: Seq<char>, a: u64, b: u64)
    requires
        a != b,
    ensures
        below(directory, name + "-"@ + hex(a as nat, 16) + ".png"@) != below(
            directory,
            name + "-"@ + hex(b as nat, 16) + ".png"@,
        ),
{
    let x = hex(a as nat, 16);
    let y = hex(b as nat, 16);
    reveal_with_fuel(pow16, 17);
    lemma_hex_tells_apart(a as nat, b as nat, 16, 0x1_0000_0000_0000_0000);
    lemma_hex_len(a as nat, 16);
    lemma_hex_len(b as nat, 16);
    let i = choose|i: int| 0 <= i < 16 && x[i] != y[i];
    let head = if directory.len() > 0 && directory.last() != '/' {
        directory + "/"@
    } else {
        directory
    };
    let p = below(directory, name + "-"@ + x + ".png"@);
    let q = below(directory, name + "-"@ + y + ".png"@);
    let at = head.len() + name.len() + "-"@.len() + i;
    assert(p =~= head + (name + "-"@ + x + ".png"@));
    assert(q =~= head + (name + "-"@ + y + ".png"@));
    assert(p[at] == x[i]);
    assert(q[at] == y[i]);
}

proof fn lemma_hex_len(value: nat, n: nat)
    ensures
        hex(value, n).len() == n,
    decreases n,
{
    if n > 0 {
        lemma_hex_len(value / 16, (n - 1) as nat);
    }
}

proof fn lemma_hex_tells_apart(a: nat, b: nat, n: nat, limit: nat)
    requires
        a < limit,
        b < limit,
        a != b,
        limit == pow16(n),
    ensures
        exists|i: int| 0 <= i < n && #[trigger] hex(a, n)[i] != hex(b, n)[i],
    decreases n,
{
    if n > 0 {
        lemma_hex_len(a, n);
        lemma_hex_len(b, n);
        lemma_hex_len(a / 16, (n - 1) as nat);
        lemma_hex_len(b / 16, (n - 1) as nat);
        if a % 16 != b % 16 {
            assert(hex(a, n)[n - 1] == hex_digit(a % 16));
            assert(hex(b, n)[n - 1] == hex_digit(b % 16));
            assert(hex(a, n)[n - 1] != hex(b, n)[n - 1]);
        } else {
            assert(a / 16 != b / 16);
            let less = pow16((n - 1) as nat);
            assert(limit == 16 * less);
            lemma_hex_tells_apart(a / 16, b / 16, (n - 1) as nat, less);
            let i = choose|i: int|
                0 <= i < n - 1 && #[trigger] hex(a / 16, (n - 1) as nat)[i] != hex(
                    b / 16,
                    (n - 1) as nat,
                )[i];
            assert(hex(a, n)[i] == hex(a / 16, (n - 1) as nat)[i]);
            assert(hex(b, n)[i] == hex(b / 16, (n - 1) as nat)[i]);
        }
    }
}

/// A power of sixteen.
spec fn pow16(n: nat) -> nat
    decreases n,
{
    if n == 0 {
        1
    } else {
        16 * pow16((n - 1) as nat)
    }
}

/// A text as the name of a file holds nothing that might not do there: what might do is kept where
/// it was, and everything else is an underscore.
pub proof fn a_file_name_will_do_anywhere(text: Seq<char>, i: int)
    requires
        0 <= i < text.len(),
    ensures
        filed(text).len() == text.len(),
        is_file_safe(filed(text)[i]),
        is_file_safe(text[i]) ==> filed(text)[i] == text[i],
        !is_file_safe(text[i]) ==> filed(text)[i] == '_',
        filed(filed(text)) == filed(text),
        !is_file_safe('/') && !is_file_safe(' ') && !is_file_safe('\\') && is_file_safe('.'),
{
    assert(filed(filed(text)) =~= filed(text));
}

/// One more component is one more component: it stands after the directory, with one stroke between
/// the two and never a second.
pub proof fn a_component_is_added_with_one_stroke(directory: Seq<char>, name: Seq<char>)
    ensures
        directory.is_prefix_of(below(directory, name)),
        name.is_suffix_of(below(directory, name)),
        directory.len() > 0 && directory.last() != '/' ==> below(directory, name).len()
            == directory.len() + 1 + name.len() && below(directory, name)[directory.len() as int]
            == '/',
        directory.len() == 0 || directory.last() == '/' ==> below(directory, name).len()
            == directory.len() + name.len(),
{
    reveal_strlit("/");
    let path = below(directory, name);
    assert(directory =~= path.take(directory.len() as int));
    assert(name =~= path.skip(path.len() - name.len()));
}

/// The icons are kept below the cache directory wherever there is one, whatever else there is;
/// below the home directory's where there is not; and only failing both where temporary files go.
pub proof fn icons_are_kept_in_the_cache(
    cache: Seq<char>,
    home: Option<Seq<char>>,
    house: Seq<char>,
    temporary: Seq<char>,
    other: Seq<char>,
)
    ensures
        cache.is_prefix_of(icons_below(Some(cache), home, temporary)),
        icons_below(Some(cache), home, temporary) == icons_below(Some(cache), None, other),
        icons_below(None, Some(house), temporary) == icons_below(
            Some(below(house, ".cache"@)),
            home,
            other,
        ),
        icons_below(None, None, temporary) == icons_below(Some(temporary), home, other),
        "remote-icons"@.is_suffix_of(icons_below(Some(cache), home, temporary)),
{
    let first = below(cache, "spatiand"@);
    let path = icons_below(Some(cache), home, temporary);
    a_component_is_added_with_one_stroke(cache, "spatiand"@);
    a_component_is_added_with_one_stroke(first, "remote-icons"@);
    assert(cache =~= path.take(cache.len() as int));
}

/// A number in hexadecimal is so many digits, each of them one of the sixteen, and the last of them
/// stands for what is over after sixteens.
pub proof fn hexadecimal_is_digits(value: nat, n: nat, i: int)
    requires
        0 <= i < n,
    ensures
        hex(value, n).len() == n,
        '0' <= hex(value, n)[i] <= '9' || 'a' <= hex(value, n)[i] <= 'f',
        i == n - 1 && value % 16 < 10 ==> hex(value, n)[i] as nat == 48 + value % 16,
        i == n - 1 && value % 16 >= 10 ==> hex(value, n)[i] as nat == 87 + value % 16,
        i < n - 1 ==> hex(value, n)[i] == hex(value / 16, (n - 1) as nat)[i],
    decreases n,
{
    lemma_hex_len(value, n);
    lemma_hex_len(value / 16, (n - 1) as nat);
    if i < n - 1 {
        hexadecimal_is_digits(value / 16, (n - 1) as nat, i);
    }
}

/// What may stand in the name of a file is a letter or a digit of English, a full stop, a hyphen or
/// an underscore, and nothing else is.
pub proof fn a_safe_character_is_a_plain_one(c: char)
    ensures
        48 <= c as u32 <= 57 || 65 <= c as u32 <= 90 || 97 <= c as u32 <= 122 ==> is_file_safe(c),
        c as u32 == 45 || c as u32 == 46 || c as u32 == 95 ==> is_file_safe(c),
        is_file_safe(c) ==> 45 <= c as u32 <= 122 && c as u32 != 47 && !(58 <= c as u32 <= 64) && !(
        91 <= c as u32 <= 94) && c as u32 != 96,
{
}

} // verus!
