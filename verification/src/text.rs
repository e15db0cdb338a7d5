//! Text as the machine prints it, taken apart and put together a character at a time.
//!
//! Everything the session reads about the machine arrives as text meant for people: `/proc`,
//! `wpctl`, sysfs. The models here are sequences of characters, and each function says in those
//! terms exactly which characters it keeps.

use vstd::prelude::*;
use vstd::slice::slice_subrange;

verus! {

/// `String::push` appends one character to the end and changes nothing else.
pub assume_specification[ String::push ](s: &mut String, c: char)
    ensures
        final(s)@ == old(s)@.push(c),
;

/// Unicode's `White_Space` property.
pub open spec fn is_space(c: char) -> bool {
    let n = c as u32;
    ||| 0x9 <= n <= 0xd
    ||| n == 0x20
    ||| n == 0x85
    ||| n == 0xa0
    ||| n == 0x1680
    ||| 0x2000 <= n <= 0x200a
    ||| n == 0x2028
    ||| n == 0x2029
    ||| n == 0x202f
    ||| n == 0x205f
    ||| n == 0x3000
}

/// The sets of characters that get trimmed off the ends of things.
#[derive(Debug, Clone, Copy, PartialEq, Eq, Structural)]
pub enum Class {
    /// White space.
    Space,
    /// What `wpctl status` draws its tree with, and the spaces between.
    Tree,
    /// What `wpctl inspect` puts in front of a property.
    Mark,
    /// The quotation marks round a property's value.
    Quote,
}

impl Class {
    /// Whether a character belongs to the set.
    pub open spec fn has(self, c: char) -> bool {
        match self {
            Class::Space => is_space(c),
            Class::Tree => c == '│' || c == '├' || c == '└' || c == '─' || c == ' ',
            Class::Mark => c == '*' || c == ' ',
            Class::Quote => c == '"',
        }
    }

    /// Whether a character belongs to the set.
    pub fn holds(self, c: char) -> (yes: bool)
        ensures
            yes == self.has(c),
    {
        match self {
            Class::Space => {
                let n: u32 = c as u32;
                (0x9 <= n && n <= 0xd) || n == 0x20 || n == 0x85 || n == 0xa0 || n == 0x1680 || (
                0x2000 <= n && n <= 0x200a) || n == 0x2028 || n == 0x2029 || n == 0x202f || n
                    == 0x205f || n == 0x3000
            },
            Class::Tree => c == '│' || c == '├' || c == '└' || c == '─' || c == ' ',
            Class::Mark => c == '*' || c == ' ',
            Class::Quote => c == '"',
        }
    }
}

/// What is left once the leading characters of a class are gone.
pub open spec fn without_leading(s: Seq<char>, class: Class) -> Seq<char>
    decreases s.len(),
{
    if s.len() > 0 && class.has(s[0]) {
        without_leading(s.skip(1), class)
    } else {
        s
    }
}

/// What is left once the trailing characters of a class are gone.
pub open spec fn without_trailing(s: Seq<char>, class: Class) -> Seq<char>
    decreases s.len(),
{
    if s.len() > 0 && class.has(s.last()) {
        without_trailing(s.drop_last(), class)
    } else {
        s
    }
}

/// What is left once a class is gone from both ends.
pub open spec fn stripped(s: Seq<char>, class: Class) -> Seq<char> {
    without_trailing(without_leading(s, class), class)
}

/// What is left once the white space is gone from both ends.
pub open spec fn trimmed(s: Seq<char>) -> Seq<char> {
    stripped(s, Class::Space)
}

/// Drop the leading characters of a class.
pub fn trim_start<'a>(s: &'a [char], class: Class) -> (out: &'a [char])
    ensures
        out@ == without_leading(s@, class),
{
    let mut i: usize = 0;
    assert(s@.skip(0) =~= s@);
    while i < s.len() && class.holds(s[i])
        invariant
            i <= s.len(),
            without_leading(s@, class) == without_leading(s@.skip(i as int), class),
        decreases s.len() - i,
    {
        assert(s@.skip(i as int).skip(1) =~= s@.skip(i + 1));
        i = i + 1;
    }
    assert(s@.subrange(i as int, s.len() as int) =~= s@.skip(i as int));
    slice_subrange(s, i, s.len())
}

/// Drop the trailing characters of a class.
pub fn trim_end<'a>(s: &'a [char], class: Class) -> (out: &'a [char])
    ensures
        out@ == without_trailing(s@, class),
{
    let mut n: usize = s.len();
    assert(s@.take(n as int) =~= s@);
    while n > 0 && class.holds(s[n - 1])
        invariant
            n <= s.len(),
            without_trailing(s@, class) == without_trailing(s@.take(n as int), class),
        decreases n,
    {
        assert(s@.take(n as int).drop_last() =~= s@.take(n - 1));
        n = n - 1;
    }
    assert(s@.subrange(0, n as int) =~= s@.take(n as int));
    slice_subrange(s, 0, n)
}

/// Drop a class from both ends.
pub fn strip<'a>(s: &'a [char], class: Class) -> (out: &'a [char])
    ensures
        out@ == stripped(s@, class),
{
    trim_end(trim_start(s, class), class)
}

/// Drop the white space from both ends.
pub fn trim<'a>(s: &'a [char]) -> (out: &'a [char])
    ensures
        out@ == trimmed(s@),
{
    strip(s, Class::Space)
}

/// A string's characters.
pub fn chars(s: &str) -> (out: Vec<char>)
    ensures
        out@ == s@,
{
    let mut out: Vec<char> = Vec::new();
    for c in it: s.chars()
        invariant
            out@ == it.seq().take(it.index() as int),
            it.seq() == s@,
    {
        assert(it.seq().take(it.index() + 1) =~= it.seq().take(it.index() as int).push(c));
        out.push(c);
    }
    assert(s@.take(s@.len() as int) =~= s@);
    out
}

/// The string made of these characters.
pub fn string(cs: &[char]) -> (out: String)
    ensures
        out@ == cs@,
{
    let mut out = String::new();
    let mut i: usize = 0;
    while i < cs.len()
        invariant
            i <= cs.len(),
            out@ == cs@.take(i as int),
        decreases cs.len() - i,
    {
        assert(cs@.take(i + 1) =~= cs@.take(i as int).push(cs@[i as int]));
        out.push(cs[i]);
        i = i + 1;
    }
    assert(cs@.take(cs.len() as int) =~= cs@);
    out
}

/// Whether two runs of characters are the same.
pub fn same(a: &[char], b: &[char]) -> (yes: bool)
    ensures
        yes == (a@ == b@),
{
    if a.len() != b.len() {
        return false;
    }
    let mut i: usize = 0;
    while i < a.len()
        invariant
            i <= a.len(),
            a.len() == b.len(),
            a@.take(i as int) == b@.take(i as int),
        decreases a.len() - i,
    {
        if a[i] != b[i] {
            assert(a@[i as int] != b@[i as int]);
            return false;
        }
        assert(a@.take(i + 1) =~= a@.take(i as int).push(a@[i as int]));
        assert(b@.take(i + 1) =~= b@.take(i as int).push(b@[i as int]));
        i = i + 1;
    }
    assert(a@.take(a.len() as int) =~= a@);
    assert(b@.take(b.len() as int) =~= b@);
    true
}

/// Whether one sequence begins with another.
pub open spec fn begins(s: Seq<char>, prefix: Seq<char>) -> bool {
    prefix.len() <= s.len() && s.take(prefix.len() as int) == prefix
}

/// Whether `s` begins with `prefix`.
pub fn starts_with(s: &[char], prefix: &[char]) -> (yes: bool)
    ensures
        yes == begins(s@, prefix@),
{
    if s.len() < prefix.len() {
        return false;
    }
    assert(s@.subrange(0, prefix.len() as int) =~= s@.take(prefix.len() as int));
    same(slice_subrange(s, 0, prefix.len()), prefix)
}

/// What follows `prefix`, where `s` begins with it.
pub open spec fn after_prefix(s: Seq<char>, prefix: Seq<char>) -> Option<Seq<char>> {
    if begins(s, prefix) {
        Some(s.skip(prefix.len() as int))
    } else {
        None
    }
}

/// A run of characters out of a line, or none: the model of an optional slice.
pub open spec fn seen(r: Option<&[char]>) -> Option<Seq<char>> {
    match r {
        Some(s) => Some(s@),
        None => None,
    }
}

/// What follows `prefix`, where `s` begins with it.
pub fn strip_prefix<'a>(s: &'a [char], prefix: &[char]) -> (out: Option<&'a [char]>)
    ensures
        seen(out) == after_prefix(s@, prefix@),
{
    if starts_with(s, prefix) {
        assert(s@.subrange(prefix.len() as int, s.len() as int) =~= s@.skip(prefix.len() as int));
        Some(slice_subrange(s, prefix.len(), s.len()))
    } else {
        None
    }
}

/// Where a character first occurs, or the length where it does not.
pub open spec fn first(s: Seq<char>, c: char) -> nat
    decreases s.len(),
{
    if s.len() == 0 || s[0] == c {
        0
    } else {
        1 + first(s.skip(1), c)
    }
}

/// `first` is a position in the sequence, or its end; the character is there, and nowhere before.
pub proof fn lemma_first(s: Seq<char>, c: char)
    ensures
        first(s, c) <= s.len(),
        first(s, c) < s.len() ==> s[first(s, c) as int] == c,
        forall|i: int| 0 <= i < first(s, c) ==> s[i] != c,
    decreases s.len(),
{
    if s.len() > 0 && s[0] != c {
        lemma_first(s.skip(1), c);
        assert forall|i: int| 0 <= i < first(s, c) implies s[i] != c by {
            if i > 0 {
                assert(s.skip(1)[i - 1] == s[i]);
            }
        }
    }
}

/// The one position that `first` can be.
pub proof fn lemma_first_is(s: Seq<char>, c: char, n: nat)
    requires
        n <= s.len(),
        n < s.len() ==> s[n as int] == c,
        forall|i: int| 0 <= i < n ==> s[i] != c,
    ensures
        first(s, c) == n,
{
    lemma_first(s, c);
    if first(s, c) < n {
        assert(s[first(s, c) as int] != c);
    }
    if n < first(s, c) {
        assert(s[n as int] != c);
    }
}

/// Where a character first occurs, or the length where it does not.
pub fn find(s: &[char], c: char) -> (at: usize)
    ensures
        at as nat == first(s@, c),
        at <= s.len(),
{
    let mut i: usize = 0;
    while i < s.len()
        invariant
            i <= s.len(),
            forall|j: int| 0 <= j < i ==> s@[j] != c,
        decreases s.len() - i,
    {
        if s[i] == c {
            proof {
                lemma_first_is(s@, c, i as nat);
            }
            return i;
        }
        i = i + 1;
    }
    proof {
        lemma_first_is(s@, c, i as nat);
    }
    i
}

/// What comes before the first `c`: all of it, where there is none.
pub open spec fn before(s: Seq<char>, c: char) -> Seq<char> {
    s.take(first(s, c) as int)
}

/// What comes before the first `c`: all of it, where there is none.
pub fn up_to<'a>(s: &'a [char], c: char) -> (out: &'a [char])
    ensures
        out@ == before(s@, c),
{
    let at: usize = find(s, c);
    assert(s@.subrange(0, at as int) =~= s@.take(at as int));
    slice_subrange(s, 0, at)
}

/// What comes before and after the first `c`, where there is one.
pub open spec fn halves(s: Seq<char>, c: char) -> Option<(Seq<char>, Seq<char>)> {
    if first(s, c) < s.len() {
        Some((before(s, c), s.skip((first(s, c) + 1) as int)))
    } else {
        None
    }
}

/// The model of an optional pair of slices.
pub open spec fn seen_pair(r: Option<(&[char], &[char])>) -> Option<(Seq<char>, Seq<char>)> {
    match r {
        Some((a, b)) => Some((a@, b@)),
        None => None,
    }
}

/// What comes before and after the first `c`, where there is one.
pub fn split_once<'a>(s: &'a [char], c: char) -> (out: Option<(&'a [char], &'a [char])>)
    ensures
        seen_pair(out) == halves(s@, c),
{
    let at: usize = find(s, c);
    if at < s.len() {
        assert(s@.subrange(0, at as int) =~= s@.take(at as int));
        assert(s@.subrange(at + 1, s.len() as int) =~= s@.skip(at + 1));
        Some((slice_subrange(s, 0, at), slice_subrange(s, at + 1, s.len())))
    } else {
        None
    }
}

/// How many characters stand before the first white space.
pub open spec fn word_len(s: Seq<char>) -> nat
    decreases s.len(),
{
    if s.len() == 0 || is_space(s[0]) {
        0
    } else {
        1 + word_len(s.skip(1))
    }
}

/// A word is never longer than what it stands in.
pub proof fn lemma_word_len(s: Seq<char>)
    ensures
        word_len(s) <= s.len(),
        forall|i: int| 0 <= i < word_len(s) ==> !is_space(s[i]),
        word_len(s) < s.len() ==> is_space(s[word_len(s) as int]),
    decreases s.len(),
{
    if s.len() > 0 && !is_space(s[0]) {
        lemma_word_len(s.skip(1));
        assert forall|i: int| 0 <= i < word_len(s) implies !is_space(s[i]) by {
            if i > 0 {
                assert(s.skip(1)[i - 1] == s[i]);
            }
        }
    }
}

/// The words of a line: its runs of anything but white space.
pub open spec fn words(s: Seq<char>) -> Seq<Seq<char>>
    decreases s.len(),
{
    if s.len() == 0 {
        Seq::empty()
    } else if is_space(s[0]) {
        words(s.skip(1))
    } else {
        proof {
            lemma_word_len(s.skip(1));
        }
        let n = 1 + word_len(s.skip(1));
        seq![s.take(n as int)] + words(s.skip(n as int))
    }
}

/// The model of a list of slices.
pub open spec fn views(v: Seq<&[char]>) -> Seq<Seq<char>> {
    Seq::new(v.len(), |i: int| v[i]@)
}

/// The words of a line.
pub fn split_words<'a>(s: &'a [char]) -> (out: Vec<&'a [char]>)
    ensures
        views(out@) == words(s@),
{
    let mut out: Vec<&'a [char]> = Vec::new();
    let mut i: usize = 0;
    assert(s@.skip(0) =~= s@);
    assert(views(out@) =~= Seq::empty());
    assert(views(out@) + words(s@) =~= words(s@));
    while i < s.len()
        invariant
            i <= s.len(),
            views(out@) + words(s@.skip(i as int)) == words(s@),
        decreases s.len() - i,
    {
        if Class::Space.holds(s[i]) {
            assert(s@.skip(i as int).skip(1) =~= s@.skip(i + 1));
            i = i + 1;
        } else {
            let ghost rest = s@.skip(i as int);
            let mut j: usize = i + 1;
            assert(rest.skip(1) =~= s@.skip(i + 1));
            while j < s.len() && !Class::Space.holds(s[j])
                invariant
                    i < j <= s.len(),
                    word_len(s@.skip(i + 1)) == (j - i - 1) + word_len(s@.skip(j as int)),
                decreases s.len() - j,
            {
                assert(s@.skip(j as int).skip(1) =~= s@.skip(j + 1));
                j = j + 1;
            }
            let ghost before_push = out@;
            assert(word_len(s@.skip(j as int)) == 0);
            assert(rest.take(j - i) =~= s@.subrange(i as int, j as int));
            assert(rest.skip(j - i) =~= s@.skip(j as int));
            out.push(slice_subrange(s, i, j));
            assert(views(out@) =~= views(before_push).push(rest.take(j - i)));
            assert(views(out@) + words(s@.skip(j as int)) =~= views(before_push) + words(rest));
            i = j;
        }
    }
    assert(s@.skip(i as int) =~= Seq::empty());
    assert(views(out@) + words(s@.skip(i as int)) =~= views(out@));
    out
}

/// A line without the carriage return that came before its line feed.
pub open spec fn without_return(s: Seq<char>) -> Seq<char> {
    if s.len() > 0 && s.last() == '\r' {
        s.drop_last()
    } else {
        s
    }
}

/// The lines of a text.
///
/// Each ends at a line feed, or at the end of the text; a carriage return in front of the line
/// feed goes with it, and a text that ends in a line feed has no empty line after it.
pub open spec fn lines(s: Seq<char>) -> Seq<Seq<char>>
    decreases s.len(),
{
    if s.len() == 0 {
        Seq::empty()
    } else if first(s, '\n') >= s.len() {
        seq![s]
    } else {
        seq![without_return(before(s, '\n'))] + lines(s.skip((first(s, '\n') + 1) as int))
    }
}

/// The lines of a text.
pub fn split_lines<'a>(s: &'a [char]) -> (out: Vec<&'a [char]>)
    ensures
        views(out@) == lines(s@),
{
    let mut out: Vec<&'a [char]> = Vec::new();
    let mut i: usize = 0;
    assert(s@.skip(0) =~= s@);
    assert(views(out@) =~= Seq::empty());
    assert(views(out@) + lines(s@) =~= lines(s@));
    while i < s.len()
        invariant
            i <= s.len(),
            views(out@) + lines(s@.skip(i as int)) == lines(s@),
        decreases s.len() - i,
    {
        let ghost rest = s@.skip(i as int);
        assert(s@.subrange(i as int, s.len() as int) =~= rest);
        let tail = slice_subrange(s, i, s.len());
        let at: usize = find(tail, '\n');
        let ghost before_push = out@;
        if at < tail.len() {
            let mut end: usize = at;
            assert(tail@.subrange(0, at as int) =~= before(rest, '\n'));
            if at > 0 && tail[at - 1] == '\r' {
                end = at - 1;
                assert(tail@.subrange(0, end as int) =~= before(rest, '\n').drop_last());
            }
            out.push(slice_subrange(tail, 0, end));
            assert(views(out@) =~= views(before_push).push(without_return(before(rest, '\n'))));
            assert(rest.skip(at + 1) =~= s@.skip(i + at + 1));
            i = i + at + 1;
            assert(views(out@) + lines(s@.skip(i as int)) =~= views(before_push) + lines(rest));
        } else {
            out.push(tail);
            assert(views(out@) =~= views(before_push).push(rest));
            i = s.len();
            assert(s@.skip(i as int) =~= Seq::empty());
            assert(views(out@) + lines(s@.skip(i as int)) =~= views(before_push) + lines(rest));
        }
    }
    assert(s@.skip(i as int) =~= Seq::empty());
    assert(views(out@) + lines(s@.skip(i as int)) =~= views(out@));
    out
}

/// A decimal digit.
pub open spec fn is_digit(c: char) -> bool {
    '0' <= c <= '9'
}

/// What a run of decimal digits is worth.
pub open spec fn value(s: Seq<char>) -> nat
    decreases s.len(),
{
    if s.len() == 0 {
        0
    } else {
        value(s.drop_last()) * 10 + (s.last() as nat - '0' as nat) as nat
    }
}

/// What is left of a number once its plus sign is gone.
pub open spec fn unsigned(s: Seq<char>) -> Seq<char> {
    if s.len() > 0 && s[0] == '+' {
        s.skip(1)
    } else {
        s
    }
}

/// Whether there is nothing but decimal digits in a sequence.
pub open spec fn all_digits(s: Seq<char>) -> bool {
    forall|i: int| 0 <= i < s.len() ==> is_digit(#[trigger] s[i])
}

/// The number a text writes: decimal digits, at least one, after a plus sign or none.
pub open spec fn number(s: Seq<char>) -> Option<nat> {
    if unsigned(s).len() > 0 && all_digits(unsigned(s)) {
        Some(value(unsigned(s)))
    } else {
        None
    }
}

/// The number a text writes, where it is no bigger than `max`.
pub open spec fn number_within(s: Seq<char>, max: nat) -> Option<nat> {
    match number(s) {
        Some(n) if n <= max => Some(n),
        _ => None,
    }
}

/// A run of digits is worth at least as much as any of its beginnings.
pub proof fn lemma_value_grows(s: Seq<char>, n: int)
    requires
        0 <= n <= s.len(),
    ensures
        value(s.take(n)) <= value(s),
    decreases s.len(),
{
    if n == s.len() {
        assert(s.take(n) =~= s);
    } else {
        lemma_value_grows(s.drop_last(), n);
        assert(s.drop_last().take(n) =~= s.take(n));
    }
}

/// The model of an optional number.
pub open spec fn counted(r: Option<u64>) -> Option<nat> {
    match r {
        Some(n) => Some(n as nat),
        None => None,
    }
}

/// The number a text writes, where it is no bigger than `max`.
pub fn parse_within(s: &[char], max: u64) -> (out: Option<u64>)
    ensures
        counted(out) == number_within(s@, max as nat),
{
    let mut start: usize = 0;
    if s.len() > 0 && s[0] == '+' {
        start = 1;
    }
    let ghost digits = unsigned(s@);
    assert(s@.skip(0) =~= s@);
    if start == s.len() {
        return None;
    }
    let mut total: u64 = 0;
    let mut i: usize = start;
    assert(digits.take(0) =~= Seq::empty());
    while i < s.len()
        invariant
            start <= i <= s.len(),
            start < s.len(),
            digits == unsigned(s@),
            digits == s@.skip(start as int),
            forall|k: int| 0 <= k < i - start ==> is_digit(digits[k]),
            total as nat == value(digits.take(i - start)),
            total <= max,
        decreases s.len() - i,
    {
        let c = s[i];
        assert(digits[i - start] == c);
        if !('0' <= c && c <= '9') {
            assert(!is_digit(digits[i - start]));
            return None;
        }
        let d: u64 = c as u64 - '0' as u64;
        assert(digits.take(i - start + 1).drop_last() =~= digits.take(i - start));
        assert(value(digits.take(i - start + 1)) == total * 10 + d);
        let next: u128 = total as u128 * 10 + d as u128;
        if next > max as u128 {
            proof {
                lemma_value_grows(digits, i - start + 1);
            }
            return None;
        }
        total = next as u64;
        i = i + 1;
    }
    assert(digits.take(i - start) =~= digits);
    assert(all_digits(digits));
    Some(total)
}

/// The most that a number read here is kept to.
pub const MOST: u128 = 10_000_000_000_000_000_000_000_000_000_000;

/// So many noughts.
pub open spec fn noughts(n: nat) -> Seq<char> {
    Seq::new(n, |i: int| '0')
}

/// The first so many of a run of digits, with noughts for the ones that are not written.
pub open spec fn leading(digits: Seq<char>, places: int) -> Seq<char> {
    if places <= 0 {
        Seq::empty()
    } else if places <= digits.len() {
        digits.take(places)
    } else {
        digits + noughts((places - digits.len()) as nat)
    }
}

/// Whether a number carries a minus sign.
pub open spec fn is_negative(s: Seq<char>) -> bool {
    s.len() > 0 && s[0] == '-'
}

/// A number without its sign.
pub open spec fn magnitude(s: Seq<char>) -> Seq<char> {
    if is_negative(s) {
        s.skip(1)
    } else {
        unsigned(s)
    }
}

/// What comes after the first `c`: nothing, where there is none.
pub open spec fn beyond(s: Seq<char>, c: char) -> Seq<char> {
    match halves(s, c) {
        Some((_, rest)) => rest,
        None => Seq::empty(),
    }
}

/// The digits of a number, and what is written of its power of ten, after an `e` of either case.
pub open spec fn powered(s: Seq<char>) -> (Seq<char>, Option<Seq<char>>) {
    match halves(s, 'e') {
        Some((digits, power)) => (digits, Some(power)),
        None => match halves(s, 'E') {
            Some((digits, power)) => (digits, Some(power)),
            None => (s, None),
        },
    }
}

/// What is written of a power of ten is worth: digits, at least one, after a sign or none.
pub open spec fn power(s: Option<Seq<char>>) -> Option<int> {
    match s {
        None => Some(0),
        Some(s) => if magnitude(s).len() > 0 && all_digits(magnitude(s)) {
            Some(
                if is_negative(s) {
                    -(value(magnitude(s)) as int)
                } else {
                    value(magnitude(s)) as int
                },
            )
        } else {
            None
        },
    }
}

/// The number a text writes in decimal, in millionths, cut off after the sixth place.
///
/// A sign or none, then digits with or without a point among them, at least one digit, and a power
/// of ten or none.
pub open spec fn millionths(s: Seq<char>) -> Option<int> {
    let (digits, written) = powered(magnitude(s));
    let whole = before(digits, '.');
    let fraction = beyond(digits, '.');
    if all_digits(whole) && all_digits(fraction) && whole.len() + fraction.len() > 0 {
        match power(written) {
            Some(power) => {
                let n = value(leading(whole + fraction, whole.len() + power + 6)) as int;
                Some(
                    if is_negative(s) {
                        -n
                    } else {
                        n
                    },
                )
            },
            None => None,
        }
    } else {
        None
    }
}

/// A letter as a small one.
pub open spec fn small_letter(c: char) -> char {
    if 'A' <= c <= 'Z' {
        (c as int + 32) as char
    } else {
        c
    }
}

/// Whether a text is a word of small letters, in letters of either case.
pub open spec fn spells(s: Seq<char>, word: Seq<char>) -> bool {
    &&& s.len() == word.len()
    &&& forall|i: int| 0 <= i < s.len() ==> small_letter(#[trigger] s[i]) == word[i]
}

/// Whether a text names a number without end.
pub open spec fn is_endless(s: Seq<char>) -> bool {
    spells(s, seq!['i', 'n', 'f']) || spells(s, seq!['i', 'n', 'f', 'i', 'n', 'i', 't', 'y'])
}

/// A number kept between nothing and `max`.
pub open spec fn kept_within(n: int, max: int) -> int {
    if n < 0 {
        0
    } else if n > max {
        max
    } else {
        n
    }
}

/// The number a text writes, in millionths, kept between nothing and `max`.
pub open spec fn level_read(s: Seq<char>, max: int) -> Option<int> {
    match millionths(s) {
        Some(n) => Some(kept_within(n, max)),
        None => if is_endless(magnitude(s)) {
            Some(
                if is_negative(s) {
                    0
                } else {
                    max
                },
            )
        } else {
            None
        },
    }
}

/// One more digit on a number that is never more than `cap`.
fn one_more(total: u128, c: char, cap: u128, Ghost(so_far): Ghost<Seq<char>>) -> (out: u128)
    requires
        is_digit(c),
        cap <= MOST,
        total == kept_within(value(so_far) as int, cap as int),
    ensures
        out == kept_within(value(so_far.push(c)) as int, cap as int),
{
    let d: u128 = c as u128 - '0' as u128;
    assert(so_far.push(c).drop_last() =~= so_far);
    let next: u128 = total * 10 + d;
    if next > cap {
        cap
    } else {
        next
    }
}

/// What a run of digits is worth, but never more than `cap`; nothing where it is not digits.
fn parse_capped(s: &[char], cap: u128) -> (out: Option<u128>)
    requires
        cap <= MOST,
    ensures
        out is Some == all_digits(s@),
        out matches Some(n) ==> n == kept_within(value(s@) as int, cap as int),
{
    let mut total: u128 = 0;
    let mut i: usize = 0;
    assert(s@.take(0) =~= Seq::empty());
    while i < s.len()
        invariant
            i <= s.len(),
            cap <= MOST,
            forall|k: int| 0 <= k < i ==> is_digit(s@[k]),
            total == kept_within(value(s@.take(i as int)) as int, cap as int),
        decreases s.len() - i,
    {
        let c = s[i];
        if !('0' <= c && c <= '9') {
            assert(!is_digit(s@[i as int]));
            return None;
        }
        assert(s@.take(i + 1) =~= s@.take(i as int).push(c));
        total = one_more(total, c, cap, Ghost(s@.take(i as int)));
        i = i + 1;
    }
    assert(s@.take(i as int) =~= s@);
    Some(total)
}

/// A nought more on a run of digits is ten times as much.
proof fn lemma_nought(digits: Seq<char>, n: nat)
    ensures
        value(digits + noughts(n + 1)) == 10 * value(digits + noughts(n)),
        digits + noughts(n + 1) == (digits + noughts(n)).push('0'),
{
    assert(digits + noughts(n + 1) =~= (digits + noughts(n)).push('0'));
    assert((digits + noughts(n)).push('0').drop_last() =~= digits + noughts(n));
}

/// Thirty-two noughts or more make more of a run of digits than any limit here, or nothing.
proof fn lemma_noughts(digits: Seq<char>, n: nat)
    requires
        n >= 32,
    ensures
        value(digits) == 0 ==> value(digits + noughts(n)) == 0,
        value(digits) > 0 ==> value(digits + noughts(n)) > MOST,
{
    lemma_tenfold(digits, n);
    lemma_tens(n);
    let tens = tens(n);
    assert(value(digits) == 0 ==> value(digits) * tens == 0);
    assert(value(digits) > 0 ==> value(digits) * tens >= tens) by (nonlinear_arith)
        requires
            tens >= 0,
    ;
}

/// Ten, so many times over.
pub open spec fn tens(n: nat) -> nat
    decreases n,
{
    if n == 0 {
        1
    } else {
        10 * tens((n - 1) as nat)
    }
}

proof fn lemma_tens(n: nat)
    requires
        n >= 32,
    ensures
        tens(n) > MOST,
    decreases n,
{
    if n > 32 {
        lemma_tens((n - 1) as nat);
    } else {
        reveal_with_fuel(tens, 33);
    }
}

/// Noughts behind a run of digits make it ten times as much each.
proof fn lemma_tenfold(digits: Seq<char>, n: nat)
    ensures
        value(digits + noughts(n)) == value(digits) * tens(n),
    decreases n,
{
    let v = value(digits);
    if n == 0 {
        assert(digits + noughts(0) =~= digits);
        assert(v * 1 == v);
    } else {
        lemma_tenfold(digits, (n - 1) as nat);
        lemma_nought(digits, (n - 1) as nat);
        let t = tens((n - 1) as nat);
        assert(10 * (v * t) == v * (10 * t)) by (nonlinear_arith);
        assert(tens(n) == 10 * t);
        assert(((n - 1) as nat) + 1 == n);
    }
}

/// What the first so many digits of a number are worth, but never more than `max`.
fn value_kept(whole: &[char], fraction: &[char], places: i128, max: u128) -> (out: u128)
    requires
        max <= MOST,
        all_digits(whole@),
        all_digits(fraction@),
    ensures
        out == kept_within(value(leading(whole@ + fraction@, places as int)) as int, max as int),
{
    let cap: u128 = max;
    let ghost digits = whole@ + fraction@;
    let mut total: u128 = 0;
    let mut i: usize = 0;
    assert(digits.take(0) =~= Seq::empty());
    while i < whole.len() && (i as i128) < places
        invariant
            i <= whole.len(),
            i == 0 || i <= places,
            all_digits(whole@),
            cap == max,
            max <= MOST,
            digits == whole@ + fraction@,
            total == kept_within(value(digits.take(i as int)) as int, cap as int),
        decreases whole.len() - i,
    {
        let c = whole[i];
        assert(is_digit(whole@[i as int]));
        assert(digits.take(i + 1) =~= digits.take(i as int).push(c));
        total = one_more(total, c, cap, Ghost(digits.take(i as int)));
        i = i + 1;
    }
    let before: i128 = whole.len() as i128;
    if places <= before {
        assert(leading(digits, places as int) =~= digits.take(i as int));
        return total;
    }
    let mut j: usize = 0;
    while j < fraction.len() && before + (j as i128) < places
        invariant
            j <= fraction.len(),
            before == whole.len(),
            before + j <= places,
            all_digits(fraction@),
            cap == max,
            max <= MOST,
            digits == whole@ + fraction@,
            total == kept_within(value(digits.take(before + j)) as int, cap as int),
        decreases fraction.len() - j,
    {
        let c = fraction[j];
        assert(is_digit(fraction@[j as int]));
        assert(digits.take(before + j + 1) =~= digits.take(before + j).push(c));
        total = one_more(total, c, cap, Ghost(digits.take(before + j)));
        j = j + 1;
    }
    let written: i128 = before + fraction.len() as i128;
    if places <= written {
        assert(leading(digits, places as int) =~= digits.take(before + j));
        return total;
    }
    assert(digits.take(before + j) =~= digits);
    let mut k: usize = 0;
    assert(digits + noughts(0) =~= digits);
    while k < 32 && written + (k as i128) < places
        invariant
            k <= 32,
            max <= MOST,
            written == digits.len(),
            written + k <= places,
            cap == max,
            total == kept_within(value(digits + noughts(k as nat)) as int, cap as int),
        decreases 32 - k,
    {
        proof {
            lemma_nought(digits, k as nat);
        }
        total = one_more(total, '0', cap, Ghost(digits + noughts(k as nat)));
        k = k + 1;
    }
    proof {
        if k == 32 {
            lemma_noughts(digits, 32);
            lemma_noughts(digits, (places - written) as nat);
        }
    }
    total
}

/// Where a number's digits start.
fn after_sign(s: &[char]) -> (out: usize)
    ensures
        out <= s.len(),
        s@.skip(out as int) == magnitude(s@),
{
    if s.len() > 0 && (s[0] == '-' || s[0] == '+') {
        1
    } else {
        assert(s@.skip(0) =~= s@);
        0
    }
}

/// What is written of a power of ten is worth, but never further from nothing than any number of
/// digits is.
fn parse_power(s: &[char]) -> (out: Option<i128>)
    ensures
        match power(Some(s@)) {
            Some(n) => out matches Some(near) && -0x1_0000_0000_0000_0000_0000 <= near
                <= 0x1_0000_0000_0000_0000_0000 && (n == near || (n > near && near
                == 0x1_0000_0000_0000_0000_0000) || (n < near && near
                == -0x1_0000_0000_0000_0000_0000)),
            None => out is None,
        },
{
    let start = after_sign(s);
    assert(s@.subrange(start as int, s.len() as int) =~= magnitude(s@));
    let digits = slice_subrange(s, start, s.len());
    if digits.len() == 0 {
        return None;
    }
    match parse_capped(digits, 0x1_0000_0000_0000_0000_0000) {
        Some(n) => Some(
            if s[0] == '-' {
                -(n as i128)
            } else {
                n as i128
            },
        ),
        None => None,
    }
}

/// Whether a text is a word of small letters, in letters of either case.
fn spelt(s: &[char], word: &[char]) -> (out: bool)
    ensures
        out == spells(s@, word@),
{
    if s.len() != word.len() {
        return false;
    }
    let mut i: usize = 0;
    while i < s.len()
        invariant
            i <= s.len(),
            s.len() == word.len(),
            forall|k: int| 0 <= k < i ==> small_letter(#[trigger] s@[k]) == word@[k],
        decreases s.len() - i,
    {
        let c = s[i];
        let small: char = if 'A' <= c && c <= 'Z' {
            (c as u8 + 32) as char
        } else {
            c
        };
        if small != word[i] {
            assert(small_letter(s@[i as int]) != word@[i as int]);
            return false;
        }
        i = i + 1;
    }
    true
}

/// What names a number without end is not written in digits.
proof fn lemma_endless(s: Seq<char>)
    requires
        is_endless(magnitude(s)),
    ensures
        millionths(s) is None,
{
    let body = magnitude(s);
    let (digits, _) = powered(body);
    assert(small_letter(body[0]) == 'i');
    lemma_first(body, 'e');
    lemma_first(body, 'E');
    assert(first(body, 'e') > 0 && first(body, 'E') > 0);
    assert(digits.len() > 0 && digits[0] == body[0]);
    lemma_first(digits, '.');
    assert(first(digits, '.') > 0);
    assert(before(digits, '.')[0] == body[0]);
    assert(!is_digit(before(digits, '.')[0]));
}

/// A power of ten beyond any number of digits makes as much of a number as any other such.
proof fn lemma_far(whole: Seq<char>, fraction: Seq<char>, far: int, near: int, max: u128)
    requires
        max <= MOST,
        whole.len() <= usize::MAX,
        fraction.len() <= usize::MAX,
        far == near || (far > near && near == 0x1_0000_0000_0000_0000_0000) || (far < near && near
            == -0x1_0000_0000_0000_0000_0000),
    ensures
        kept_within(
            value(leading(whole + fraction, whole.len() + far + 6)) as int,
            max as int,
        ) == kept_within(
            value(leading(whole + fraction, whole.len() + near + 6)) as int,
            max as int,
        ),
{
    let digits = whole + fraction;
    if far > near {
        lemma_noughts(digits, (whole.len() + far + 6 - digits.len()) as nat);
        lemma_noughts(digits, (whole.len() + near + 6 - digits.len()) as nat);
    }
}

/// How far from nothing the number a text writes is, in millionths, but never more than `max`, and
/// whether it is below; nothing where no number is written.
fn parse_magnitude(s: &[char], max: u128) -> (out: Option<(bool, u128)>)
    requires
        max <= MOST,
    ensures
        match millionths(s@) {
            Some(n) => out matches Some((negative, far)) && negative == is_negative(s@) && far
                == kept_within(
                if is_negative(s@) {
                    -n
                } else {
                    n
                },
                max as int,
            ),
            None => out is None,
        },
{
    let negative = s.len() > 0 && s[0] == '-';
    let start = after_sign(s);
    assert(s@.subrange(start as int, s.len() as int) =~= magnitude(s@));
    let body = slice_subrange(s, start, s.len());
    let (digits, written): (&[char], Option<&[char]>) = match split_once(body, 'e') {
        Some((digits, power)) => (digits, Some(power)),
        None => match split_once(body, 'E') {
            Some((digits, power)) => (digits, Some(power)),
            None => (body, None),
        },
    };
    let whole = up_to(digits, '.');
    let empty: Vec<char> = Vec::new();
    let fraction: &[char] = match split_once(digits, '.') {
        Some((_, rest)) => rest,
        None => empty.as_slice(),
    };
    assert(fraction@ =~= beyond(digits@, '.'));
    if parse_capped(whole, 0).is_none() || parse_capped(fraction, 0).is_none() {
        return None;
    }
    if whole.len() == 0 && fraction.len() == 0 {
        return None;
    }
    let power: i128 = match written {
        None => 0,
        Some(written) => match parse_power(written) {
            Some(power) => power,
            None => {
                return None;
            },
        },
    };
    let places: i128 = whole.len() as i128 + power + 6;
    let n: u128 = value_kept(whole, fraction, places, max);
    proof {
        let exact = crate::text::power(
            match written {
                Some(written) => Some(written@),
                None => None,
            },
        );
        lemma_far(whole@, fraction@, exact.unwrap(), power as int, max);
    }
    Some((negative, n))
}

/// The number a text writes, in millionths, kept between nothing and `max`.
pub fn parse_millionths(s: &[char], max: u32) -> (out: Option<u32>)
    ensures
        match level_read(s@, max as int) {
            Some(n) => out matches Some(kept) && kept == n,
            None => out is None,
        },
{
    let negative = s.len() > 0 && s[0] == '-';
    let start = after_sign(s);
    assert(s@.subrange(start as int, s.len() as int) =~= magnitude(s@));
    let body = slice_subrange(s, start, s.len());
    let inf: [char; 3] = ['i', 'n', 'f'];
    let infinity: [char; 8] = ['i', 'n', 'f', 'i', 'n', 'i', 't', 'y'];
    if spelt(body, inf.as_slice()) || spelt(body, infinity.as_slice()) {
        proof {
            lemma_endless(s@);
        }
        return Some(
            if negative {
                0
            } else {
                max
            },
        );
    }
    match parse_magnitude(s, max as u128) {
        Some((below, far)) => Some(
            if below {
                0
            } else {
                far as u32
            },
        ),
        None => None,
    }
}

/// A number kept within `max` of nothing.
pub open spec fn kept_near(n: int, max: int) -> int {
    if n < -max {
        -max
    } else if n > max {
        max
    } else {
        n
    }
}

/// The number a text writes, in millionths, kept within `max` of nothing.
pub fn parse_decimal(s: &[char], max: u128) -> (out: Option<i128>)
    requires
        max <= MOST,
    ensures
        match millionths(s@) {
            Some(n) => out matches Some(read) && read == kept_near(n, max as int),
            None => out is None,
        },
{
    match parse_magnitude(s, max) {
        Some((negative, far)) => if negative {
            Some(-(far as i128))
        } else {
            Some(far as i128)
        },
        None => None,
    }
}

/// The digit that stands for a number below ten.
pub open spec fn digit(n: nat) -> char {
    ('0' as nat + n) as char
}

/// A number in decimal, with no leading zero.
pub open spec fn decimal(n: nat) -> Seq<char>
    decreases n,
{
    if n < 10 {
        seq![digit(n)]
    } else {
        decimal(n / 10).push(digit(n % 10))
    }
}

/// A number in decimal, with no leading zero.
pub fn to_decimal(n: u64) -> (out: Vec<char>)
    ensures
        out@ == decimal(n as nat),
    decreases n,
{
    let d: u8 = (n % 10) as u8;
    let c: char = (48 + d) as char;
    if n < 10 {
        let mut out: Vec<char> = Vec::new();
        out.push(c);
        assert(out@ =~= decimal(n as nat));
        out
    } else {
        let mut out = to_decimal(n / 10);
        out.push(c);
        out
    }
}

/// What a number written in decimal reads back as is that number.
pub proof fn decimal_reads_back(n: nat)
    ensures
        number(decimal(n)) == Some(n),
{
    lemma_decimal(n);
    let s = decimal(n);
    assert(is_digit(s[0]));
    assert(s[0] != '+');
}

/// A number in decimal is digits, and worth that number.
pub proof fn lemma_decimal(n: nat)
    ensures
        decimal(n).len() > 0,
        forall|i: int| 0 <= i < decimal(n).len() ==> is_digit(#[trigger] decimal(n)[i]),
        value(decimal(n)) == n,
    decreases n,
{
    let s = decimal(n);
    if n >= 10 {
        lemma_decimal(n / 10);
        assert(s.drop_last() =~= decimal(n / 10));
        assert forall|i: int| 0 <= i < s.len() implies is_digit(#[trigger] s[i]) by {
            if i < s.len() - 1 {
                assert(s[i] == decimal(n / 10)[i]);
            }
        }
    } else {
        assert(s.drop_last() =~= Seq::empty());
        assert(value(s.drop_last()) == 0);
    }
}

/// Whether a character is a letter or a digit of any script.
pub uninterp spec fn alphanumeric(c: char) -> bool;

/// `char::is_alphanumeric`. It follows the tables of Unicode, and what it says is said here only to
/// depend on the character alone.
#[verifier::external_body]
fn is_alphanumeric(c: char) -> (out: bool)
    ensures
        out == alphanumeric(c),
{
    c.is_alphanumeric()
}

/// Whether a character may be part of a word: a letter or a digit.
pub open spec fn in_word(c: char) -> bool {
    if (c as u32) < 0x80 {
        is_digit(c) || 'a' <= c <= 'z' || 'A' <= c <= 'Z'
    } else {
        alphanumeric(c)
    }
}

fn is_in_word(c: char) -> (out: bool)
    ensures
        out == in_word(c),
{
    if (c as u32) < 0x80 {
        ('0' <= c && c <= '9') || ('a' <= c && c <= 'z') || ('A' <= c && c <= 'Z')
    } else {
        is_alphanumeric(c)
    }
}

/// Whether some words stand at a place on their own: no letter and no digit touches either end.
pub open spec fn stands_at(s: Seq<char>, what: Seq<char>, at: int) -> bool {
    &&& 0 <= at
    &&& at + what.len() <= s.len()
    &&& s.subrange(at, at + what.len()) == what
    &&& at > 0 ==> !in_word(s[at - 1])
    &&& at + what.len() < s.len() ==> !in_word(s[at + what.len()])
}

/// Every `from` that stands on its own, from the left and not overlapping, replaced by `to`, in
/// what comes at a place and after it.
pub open spec fn words_replaced(s: Seq<char>, from: Seq<char>, to: Seq<char>, at: int) -> Seq<char>
    decreases s.len() - at,
{
    if at < 0 || at >= s.len() {
        Seq::empty()
    } else if from.len() > 0 && stands_at(s, from, at) {
        to + words_replaced(s, from, to, at + from.len())
    } else {
        seq![s[at]] + words_replaced(s, from, to, at + 1)
    }
}

/// Where some words stand nowhere on their own, nothing is replaced: not even where their letters
/// are part of another word.
pub proof fn a_word_inside_another_is_left(s: Seq<char>, from: Seq<char>, to: Seq<char>, at: int)
    requires
        0 <= at <= s.len(),
        forall|i: int| at <= i < s.len() ==> !stands_at(s, from, i),
    ensures
        words_replaced(s, from, to, at) == s.skip(at),
    decreases s.len() - at,
{
    if at < s.len() {
        assert(!stands_at(s, from, at));
        a_word_inside_another_is_left(s, from, to, at + 1);
        assert(seq![s[at]] + s.skip(at + 1) =~= s.skip(at));
    } else {
        assert(s.skip(at) =~= Seq::empty());
    }
}

/// Replace every `from` that stands on its own by `to`.
pub fn replace_words(s: &[char], from: &[char], to: &[char]) -> (out: Vec<char>)
    requires
        from.len() > 0,
    ensures
        out@ == words_replaced(s@, from@, to@, 0),
{
    let mut out: Vec<char> = Vec::new();
    let mut i: usize = 0;
    assert(out@ + words_replaced(s@, from@, to@, 0) =~= words_replaced(s@, from@, to@, 0));
    while i < s.len()
        invariant
            i <= s.len(),
            from.len() > 0,
            out@ + words_replaced(s@, from@, to@, i as int) == words_replaced(s@, from@, to@, 0),
        decreases s.len() - i,
    {
        let ghost had = out@;
        let ghost rest = s@.skip(i as int);
        assert(s@.subrange(i as int, s.len() as int) =~= rest);
        let here = starts_with(slice_subrange(s, i, s.len()), from);
        proof {
            if begins(rest, from@) {
                assert(rest.take(from@.len() as int) =~= s@.subrange(
                    i as int,
                    i + from@.len(),
                ));
            } else if i + from@.len() <= s@.len() {
                assert(rest.take(from@.len() as int) =~= s@.subrange(
                    i as int,
                    i + from@.len(),
                ));
            }
        }
        let alone = here && (i == 0 || !is_in_word(s[i - 1])) && (i + from.len() == s.len()
            || !is_in_word(s[i + from.len()]));
        assert(alone == stands_at(s@, from@, i as int));
        if alone {
            push_all(&mut out, to);
            i = i + from.len();
            assert(out@ + words_replaced(s@, from@, to@, i as int) =~= had + (to@ + words_replaced(
                s@,
                from@,
                to@,
                i as int,
            )));
        } else {
            let ghost c = s@[i as int];
            out.push(s[i]);
            i = i + 1;
            assert(out@ + words_replaced(s@, from@, to@, i as int) =~= had + (seq![c]
                + words_replaced(s@, from@, to@, i as int)));
        }
    }
    assert(out@ + words_replaced(s@, from@, to@, i as int) =~= out@);
    out
}

/// Every `from`, from the left and not overlapping, replaced by `to`.
pub open spec fn replaced(s: Seq<char>, from: Seq<char>, to: Seq<char>) -> Seq<char>
    decreases s.len(),
{
    if from.len() == 0 || s.len() < from.len() {
        s
    } else if begins(s, from) {
        to + replaced(s.skip(from.len() as int), from, to)
    } else {
        seq![s[0]] + replaced(s.skip(1), from, to)
    }
}

/// Replace every `from` by `to`.
pub fn replace(s: &[char], from: &[char], to: &[char]) -> (out: Vec<char>)
    requires
        from.len() > 0,
    ensures
        out@ == replaced(s@, from@, to@),
{
    let mut out: Vec<char> = Vec::new();
    let mut i: usize = 0;
    assert(s@.skip(0) =~= s@);
    assert(out@ + replaced(s@, from@, to@) =~= replaced(s@, from@, to@));
    while i < s.len()
        invariant
            i <= s.len(),
            from.len() > 0,
            out@ + replaced(s@.skip(i as int), from@, to@) == replaced(s@, from@, to@),
        decreases s.len() - i,
    {
        let ghost rest = s@.skip(i as int);
        let ghost had = out@;
        assert(s@.subrange(i as int, s.len() as int) =~= rest);
        if starts_with(slice_subrange(s, i, s.len()), from) {
            push_all(&mut out, to);
            assert(rest.skip(from.len() as int) =~= s@.skip(i + from.len()));
            i = i + from.len();
            assert(out@ + replaced(s@.skip(i as int), from@, to@) =~= had + replaced(
                rest,
                from@,
                to@,
            ));
        } else {
            out.push(s[i]);
            assert(rest.skip(1) =~= s@.skip(i + 1));
            i = i + 1;
            proof {
                if rest.len() >= from@.len() {
                    assert(out@ + replaced(s@.skip(i as int), from@, to@) =~= had + replaced(
                        rest,
                        from@,
                        to@,
                    ));
                } else {
                    assert(replaced(s@.skip(i as int), from@, to@) == rest.skip(1));
                    assert(out@ + rest.skip(1) =~= had + rest);
                }
            }
        }
    }
    assert(s@.skip(i as int) =~= Seq::empty());
    assert(out@ + replaced(s@.skip(i as int), from@, to@) =~= out@);
    out
}

/// Put `more` on the end of `out`.
pub fn push_all(out: &mut Vec<char>, more: &[char])
    ensures
        final(out)@ == old(out)@ + more@,
{
    let ghost had = out@;
    let mut i: usize = 0;
    assert(had + more@.take(0) =~= had);
    while i < more.len()
        invariant
            i <= more.len(),
            out@ == had + more@.take(i as int),
        decreases more.len() - i,
    {
        assert(had + more@.take(i + 1) =~= (had + more@.take(i as int)).push(more@[i as int]));
        out.push(more[i]);
        i = i + 1;
    }
    assert(more@.take(more.len() as int) =~= more@);
}

/// Put the characters of `more` on the end of `out`.
pub fn push_str(out: &mut Vec<char>, more: &str)
    ensures
        final(out)@ == old(out)@ + more@,
{
    let cs = chars(more);
    push_all(out, cs.as_slice());
}

/// Some pieces in a row, with `between` between each two.
pub open spec fn joined(parts: Seq<Seq<char>>, between: Seq<char>) -> Seq<char>
    decreases parts.len(),
{
    if parts.len() == 0 {
        Seq::empty()
    } else if parts.len() == 1 {
        parts[0]
    } else {
        joined(parts.drop_last(), between) + between + parts.last()
    }
}

/// Put some pieces in a row, with `between` between each two.
pub fn join(parts: &Vec<&[char]>, between: &[char]) -> (out: Vec<char>)
    ensures
        out@ == joined(views(parts@), between@),
{
    let mut out: Vec<char> = Vec::new();
    let ghost all = views(parts@);
    let mut i: usize = 0;
    assert(all.take(0) =~= Seq::empty());
    while i < parts.len()
        invariant
            i <= parts.len(),
            all == views(parts@),
            out@ == joined(all.take(i as int), between@),
        decreases parts.len() - i,
    {
        assert(all.take(i + 1).drop_last() =~= all.take(i as int));
        assert(all.take(i + 1).last() == parts@[i as int]@);
        if i > 0 {
            push_all(&mut out, between);
        }
        push_all(&mut out, parts[i]);
        assert(out@ =~= joined(all.take(i + 1), between@));
        i = i + 1;
    }
    assert(all.take(i as int) =~= all);
    out
}

/// Only the ends are trimmed, and all of them: what is left is what stood between two places of the
/// text, everything outside them is of the class, and what is left neither begins nor ends with a
/// character of it.
pub proof fn only_the_ends_are_trimmed(s: Seq<char>, class: Class) -> (ends: (int, int))
    ensures
        0 <= ends.0 <= ends.1 <= s.len(),
        stripped(s, class) == s.subrange(ends.0, ends.1),
        forall|i: int| 0 <= i < ends.0 || ends.1 <= i < s.len() ==> class.has(#[trigger] s[i]),
        ends.0 < ends.1 ==> !class.has(s[ends.0]) && !class.has(s[ends.1 - 1]),
{
    let front = lemma_leading(s, class);
    let rest = s.skip(front);
    let back = lemma_trailing(rest, class);
    let end = front + back;
    assert(stripped(s, class) =~= s.subrange(front, end));
    assert forall|i: int| 0 <= i < front || end <= i < s.len() implies class.has(
        #[trigger] s[i],
    ) by {
        if i >= end {
            assert(rest[i - front] == s[i]);
        }
    }
    if front < end {
        assert(rest[0] == s[front]);
        assert(rest[back - 1] == s[end - 1]);
    }
    (front, end)
}

proof fn lemma_leading(s: Seq<char>, class: Class) -> (n: int)
    ensures
        0 <= n <= s.len(),
        without_leading(s, class) == s.skip(n),
        forall|i: int| 0 <= i < n ==> class.has(#[trigger] s[i]),
        n < s.len() ==> !class.has(s[n]),
    decreases s.len(),
{
    if s.len() > 0 && class.has(s[0]) {
        let rest = s.skip(1);
        let n = lemma_leading(rest, class);
        assert(rest.skip(n) =~= s.skip(n + 1));
        assert forall|i: int| 0 <= i < n + 1 implies class.has(#[trigger] s[i]) by {
            if i > 0 {
                assert(rest[i - 1] == s[i]);
            }
        }
        n + 1
    } else {
        assert(s.skip(0) =~= s);
        0
    }
}

proof fn lemma_trailing(s: Seq<char>, class: Class) -> (n: int)
    ensures
        0 <= n <= s.len(),
        without_trailing(s, class) == s.take(n),
        forall|i: int| n <= i < s.len() ==> class.has(#[trigger] s[i]),
        n > 0 ==> !class.has(s[n - 1]),
    decreases s.len(),
{
    if s.len() > 0 && class.has(s.last()) {
        let rest = s.drop_last();
        let n = lemma_trailing(rest, class);
        assert(rest.take(n) =~= s.take(n));
        assert forall|i: int| n <= i < s.len() implies class.has(#[trigger] s[i]) by {
            if i < rest.len() {
                assert(rest[i] == s[i]);
            }
        }
        n
    } else {
        assert(s.take(s.len() as int) =~= s);
        s.len() as int
    }
}

/// A text is parted at the first of a character: putting the two parts back with the character
/// between them gives the text, and a text put together so comes apart so.
pub proof fn what_is_parted_goes_back_together(a: Seq<char>, c: char, b: Seq<char>)
    requires
        forall|i: int| 0 <= i < a.len() ==> a[i] != c,
    ensures
        halves(a + seq![c] + b, c) == Some((a, b)),
        before(a + seq![c] + b, c) == a,
        halves(a, c) is None,
        before(a, c) == a,
        after_prefix(a + b, a) == Some(b),
        begins(a + b, a),
{
    let s = a + seq![c] + b;
    assert forall|i: int| 0 <= i < a.len() implies s[i] != c by {
        assert(s[i] == a[i]);
    }
    lemma_first_is(s, c, a.len());
    lemma_first_is(a, c, a.len());
    assert(s.take(a.len() as int) =~= a);
    assert(s.skip((a.len() + 1) as int) =~= b);
    assert(a.take(a.len() as int) =~= a);
    assert((a + b).take(a.len() as int) =~= a);
    assert((a + b).skip(a.len() as int) =~= b);
}

/// A word goes up to the next white space and no further, and white space is nothing but what
/// stands between words.
pub proof fn a_word_ends_at_a_space(word: Seq<char>, space: char, rest: Seq<char>)
    requires
        word.len() > 0,
        forall|i: int| 0 <= i < word.len() ==> !is_space(word[i]),
        is_space(space),
    ensures
        words(word) == seq![word],
        words(word + seq![space] + rest) == seq![word] + words(rest),
        words(seq![space] + rest) == words(rest),
        words(Seq::empty()).len() == 0,
{
    let s = word + seq![space] + rest;
    lemma_word_is(s, word.len());
    lemma_word_is(word, word.len());
    lemma_word_step(s);
    lemma_word_step(word);
    assert(s.take(word.len() as int) =~= word);
    assert(word.take(word.len() as int) =~= word);
    assert(word.skip(word.len() as int) =~= Seq::empty());
    let after = s.skip(word.len() as int);
    assert(after =~= seq![space] + rest);
    assert(after.skip(1) =~= rest);
    assert((seq![space] + rest).skip(1) =~= rest);
    assert(words(word) =~= seq![word]);
}

proof fn lemma_word_is(s: Seq<char>, n: nat)
    requires
        n <= s.len(),
        forall|i: int| 0 <= i < n ==> !is_space(s[i]),
        n < s.len() ==> is_space(s[n as int]),
    ensures
        word_len(s) == n,
{
    lemma_word_len(s);
    if word_len(s) < n {
        assert(is_space(s[word_len(s) as int]));
    } else if word_len(s) > n {
        assert(!is_space(s[n as int]));
    }
}

proof fn lemma_word_step(s: Seq<char>)
    requires
        s.len() > 0,
        !is_space(s[0]),
    ensures
        words(s) == seq![s.take(word_len(s) as int)] + words(s.skip(word_len(s) as int)),
{
}

/// A line goes up to its line feed, and a carriage return in front of that goes with it; what comes
/// after is the next line, and a text that ends in a line feed has no empty line after it.
pub proof fn a_line_ends_at_its_feed(line: Seq<char>, rest: Seq<char>)
    requires
        forall|i: int| 0 <= i < line.len() ==> line[i] != '\n',
    ensures
        line.len() > 0 ==> lines(line) == seq![line],
        line.len() == 0 || line.last() != '\r' ==> lines(line + seq!['\n'] + rest) == seq![line]
            + lines(rest),
        lines(line + seq!['\r', '\n'] + rest) == seq![line] + lines(rest),
        lines(line + seq!['\n']).len() == 1,
        lines(Seq::empty()).len() == 0,
{
    what_is_parted_goes_back_together(line, '\n', rest);
    what_is_parted_goes_back_together(line, '\n', Seq::empty());
    let s = line + seq!['\n'] + rest;
    assert(line + seq!['\n'] =~= line + seq!['\n'] + Seq::<char>::empty());
    lemma_first(line, '\n');
    if first(line, '\n') < line.len() {
        assert(line[first(line, '\n') as int] == '\n');
    }
    lemma_line_step(s, line, rest);
    lemma_line_step(line + seq!['\n'] + Seq::<char>::empty(), line, Seq::empty());
    let long = line.push('\r');
    assert forall|i: int| 0 <= i < long.len() implies long[i] != '\n' by {
        if i < line.len() {
            assert(long[i] == line[i]);
        }
    }
    what_is_parted_goes_back_together(long, '\n', rest);
    lemma_line_step(long + seq!['\n'] + rest, long, rest);
    assert(long + seq!['\n'] + rest =~= line + seq!['\r', '\n'] + rest);
    assert(long.drop_last() =~= line);
}

proof fn lemma_line_step(s: Seq<char>, line: Seq<char>, rest: Seq<char>)
    requires
        s.len() > 0,
        halves(s, '\n') == Some((line, rest)),
    ensures
        lines(s) == seq![without_return(line)] + lines(rest),
{
}

/// What two runs of digits one after the other are worth: each digit of the second makes the first
/// ten times as much.
pub proof fn digits_are_worth_their_places(a: Seq<char>, b: Seq<char>)
    requires
        all_digits(b),
    ensures
        value(a + b) == value(a) * tens(b.len()) + value(b),
        value(seq!['0'] + b) == value(b),
    decreases b.len(),
{
    if b.len() == 0 {
        assert(a + b =~= a);
        assert(value(a) * 1 == value(a));
        assert(seq!['0'] + b =~= seq!['0']);
        assert(seq!['0'].drop_last() =~= Seq::empty());
        reveal_with_fuel(value, 2);
    } else {
        let fewer = b.drop_last();
        assert(all_digits(fewer)) by {
            assert forall|i: int| 0 <= i < fewer.len() implies is_digit(#[trigger] fewer[i]) by {
                assert(fewer[i] == b[i]);
            }
        }
        digits_are_worth_their_places(a, fewer);
        assert((a + b).drop_last() =~= a + fewer);
        assert((seq!['0'] + b).drop_last() =~= seq!['0'] + fewer);
        let t = tens(fewer.len());
        let v = value(a);
        assert((v * t + value(fewer)) * 10 == v * (10 * t) + value(fewer) * 10)
            by (nonlinear_arith);
        assert(is_digit(b[b.len() - 1]));
    }
}

/// A number is digits and nothing else, but for a plus sign in front that makes no difference to
/// it, and so do noughts in front: any other character anywhere, or no digit at all, is no number.
pub proof fn a_number_is_digits(s: Seq<char>, max: nat)
    ensures
        number(s) is Some ==> forall|i: int|
            0 <= i < s.len() ==> is_digit(#[trigger] s[i]) || (i == 0 && s[0] == '+'),
        s.len() == 0 ==> number(s) is None,
        s.len() > 0 && all_digits(s) ==> number(s) == Some(value(s)) && number(seq!['+'] + s)
            == Some(value(s)) && number(seq!['0'] + s) == Some(value(s)),
        number_within(s, max) is Some <==> number(s) is Some && number(s)->0 <= max,
        number_within(s, max) is Some ==> number_within(s, max) == number(s),
{
    if number(s) is Some {
        assert forall|i: int| 0 <= i < s.len() implies is_digit(#[trigger] s[i]) || (i == 0 && s[0]
            == '+') by {
            if s[0] == '+' {
                if i > 0 {
                    assert(unsigned(s)[i - 1] == s[i]);
                }
            } else {
                assert(unsigned(s)[i] == s[i]);
            }
        }
    }
    if s.len() > 0 && all_digits(s) {
        assert(is_digit(s[0]));
        assert((seq!['+'] + s).skip(1) =~= s);
        let more = seq!['0'] + s;
        assert(all_digits(more)) by {
            assert forall|i: int| 0 <= i < more.len() implies is_digit(#[trigger] more[i]) by {
                if i > 0 {
                    assert(more[i] == s[i - 1]);
                }
            }
        }
        digits_are_worth_their_places(seq!['0'], s);
    }
}

/// A number with a point is worth its whole part and, for each place after the point, a tenth as
/// much as the place before: so the whole part is worth a million millionths for each one, and the
/// part after the point what it is worth with noughts for the places that are not written. A minus
/// in front makes it as much below nothing.
pub proof fn a_decimal_is_worth_its_places(whole: Seq<char>, fraction: Seq<char>)
    requires
        all_digits(whole),
        all_digits(fraction),
        whole.len() > 0,
        fraction.len() <= 6,
    ensures
        ({
            let s = whole + seq!['.'] + fraction;
            let n = value(whole) * 1_000_000 + value(fraction) * tens((6 - fraction.len()) as nat);
            &&& millionths(s) == Some(n as int)
            &&& millionths(seq!['-'] + s) == Some(-(n as int))
            &&& millionths(seq!['+'] + s) == Some(n as int)
            &&& millionths(whole) == Some((value(whole) * 1_000_000) as int)
        }),
{
    let s = whole + seq!['.'] + fraction;
    lemma_plain(whole, fraction, s);
    lemma_plain(whole, Seq::empty(), whole);
    assert(is_digit(whole[0]));
    assert(s[0] == whole[0]);
    assert((seq!['-'] + s).skip(1) =~= s);
    assert((seq!['+'] + s).skip(1) =~= s);
    let digits = whole + fraction;
    let left = (6 - fraction.len()) as nat;
    assert(leading(digits, (whole.len() + 6) as int) =~= digits + noughts(left));
    lemma_tenfold(digits, left);
    digits_are_worth_their_places(whole, fraction);
    assert(tens(6) == 1_000_000) by {
        reveal_with_fuel(tens, 7);
    }
    let v = value(whole);
    let t = tens(left);
    let u = tens(fraction.len());
    lemma_tens_multiply(fraction.len(), left);
    assert((v * u + value(fraction)) * t == v * (u * t) + value(fraction) * t) by (nonlinear_arith);
    assert(whole + Seq::<char>::empty() =~= whole);
    assert(leading(whole, (whole.len() + 6) as int) =~= whole + noughts(6));
    lemma_tenfold(whole, 6);
}

proof fn lemma_tens_multiply(a: nat, b: nat)
    ensures
        tens(a) * tens(b) == tens(a + b),
    decreases a,
{
    if a == 0 {
        assert(1 * tens(b) == tens(b));
    } else {
        lemma_tens_multiply((a - 1) as nat, b);
        let t = tens((a - 1) as nat);
        assert((10 * t) * tens(b) == 10 * (t * tens(b))) by (nonlinear_arith);
        assert(((a - 1) as nat) + b + 1 == a + b);
    }
}

/// A text of digits, with a point among them or none.
proof fn lemma_plain(whole: Seq<char>, fraction: Seq<char>, s: Seq<char>)
    requires
        all_digits(whole),
        all_digits(fraction),
        whole.len() > 0,
        s == whole + seq!['.'] + fraction || (s == whole && fraction.len() == 0),
    ensures
        powered(s) == (s, None::<Seq<char>>),
        before(s, '.') == whole,
        beyond(s, '.') == fraction,
{
    assert forall|i: int| 0 <= i < s.len() implies is_digit(#[trigger] s[i]) || s[i] == '.' by {
        if i < whole.len() {
            assert(s[i] == whole[i]);
        } else if i > whole.len() {
            assert(s[i] == fraction[i - whole.len() - 1]);
        }
    }
    lemma_first(s, 'e');
    lemma_first(s, 'E');
    if first(s, 'e') < s.len() {
        assert(is_digit(s[first(s, 'e') as int]) || s[first(s, 'e') as int] == '.');
    }
    if first(s, 'E') < s.len() {
        assert(is_digit(s[first(s, 'E') as int]) || s[first(s, 'E') as int] == '.');
    }
    assert forall|i: int| 0 <= i < whole.len() implies whole[i] != '.' by {
        assert(is_digit(whole[i]));
    }
    what_is_parted_goes_back_together(whole, '.', fraction);
    assert(beyond(s, '.') =~= fraction);
}

/// What is read of a level is never outside its scale, is the number itself where that is on the
/// scale, and is the nearer end where it is not.
pub proof fn a_level_is_kept_on_its_scale(s: Seq<char>, max: int)
    requires
        0 <= max,
    ensures
        level_read(s, max) matches Some(n) ==> 0 <= n <= max,
        millionths(s) matches Some(n) ==> (0 <= n <= max ==> level_read(s, max) == Some(n)),
        millionths(s) matches Some(n) ==> (n < 0 ==> level_read(s, max) == Some(0int)),
        millionths(s) matches Some(n) ==> (n > max ==> level_read(s, max) == Some(max)),
        level_read(s, max) is None ==> millionths(s) is None,
{
}

/// Replacing something by itself changes nothing, in either way of replacing; and what is nothing
/// but the thing is replaced whole.
pub proof fn replacing_by_itself_changes_nothing(
    s: Seq<char>,
    from: Seq<char>,
    to: Seq<char>,
    at: int,
)
    requires
        0 <= at <= s.len(),
        from.len() > 0,
    ensures
        replaced(s, from, from) == s,
        words_replaced(s, from, from, at) == s.skip(at),
        replaced(from, from, to) == to,
        words_replaced(from, from, to, 0) == to,
{
    lemma_replaced_by_itself(s, from);
    lemma_words_by_themselves(s, from, at);
    assert(from.take(from.len() as int) =~= from);
    assert(from.subrange(0, from.len() as int) =~= from);
    assert(stands_at(from, from, 0));
    assert(from.skip(from.len() as int) =~= Seq::empty());
    assert(replaced(Seq::empty(), from, to) =~= Seq::empty());
    assert(to + Seq::<char>::empty() =~= to);
    assert(words_replaced(from, from, to, from.len() as int) =~= Seq::empty());
}

proof fn lemma_replaced_by_itself(s: Seq<char>, from: Seq<char>)
    requires
        from.len() > 0,
    ensures
        replaced(s, from, from) == s,
    decreases s.len(),
{
    if s.len() >= from.len() {
        if begins(s, from) {
            lemma_replaced_by_itself(s.skip(from.len() as int), from);
            assert(from + s.skip(from.len() as int) =~= s) by {
                assert(s.take(from.len() as int) + s.skip(from.len() as int) =~= s);
            }
        } else {
            lemma_replaced_by_itself(s.skip(1), from);
            assert(seq![s[0]] + s.skip(1) =~= s);
        }
    }
}

proof fn lemma_words_by_themselves(s: Seq<char>, from: Seq<char>, at: int)
    requires
        0 <= at <= s.len(),
        from.len() > 0,
    ensures
        words_replaced(s, from, from, at) == s.skip(at),
    decreases s.len() - at,
{
    if at < s.len() {
        if stands_at(s, from, at) {
            let next = at + from.len();
            lemma_words_by_themselves(s, from, next);
            assert(from + s.skip(next) =~= s.skip(at)) by {
                assert(s.subrange(at, next) + s.skip(next) =~= s.skip(at));
            }
        } else {
            lemma_words_by_themselves(s, from, at + 1);
            assert(seq![s[at]] + s.skip(at + 1) =~= s.skip(at));
        }
    } else {
        assert(s.skip(at) =~= Seq::empty());
    }
}

/// Pieces are put in a row with what goes between them between each two, and nothing at either end:
/// nothing is in front of the first piece, and nothing after the last.
pub proof fn pieces_are_put_in_a_row(
    parts: Seq<Seq<char>>,
    last: Seq<char>,
    between: Seq<char>,
)
    ensures
        joined(Seq::empty(), between).len() == 0,
        joined(seq![last], between) == last,
        parts.len() > 0 ==> joined(parts.push(last), between) == joined(parts, between) + between
            + last,
{
    assert(parts.push(last).drop_last() =~= parts);
}

/// The last three digits of a number, one by one.
pub proof fn lemma_three_places(t: nat)
    ensures
        (t / 100 % 10) * 100 + (t / 10 % 10) * 10 + t % 10 == t % 1000,
{
    let thousands = t / 1000;
    let rest = t % 1000;
    let (h, u) = (rest / 100, rest % 100);
    assert(t == 1000 * thousands + rest);
    assert(t / 100 == 10 * thousands + h);
    assert(t / 10 == 100 * thousands + 10 * h + u / 10);
    assert((10 * thousands + h) % 10 == h);
    assert((100 * thousands + 10 * h + u / 10) % 10 == u / 10);
    assert(t % 10 == u % 10);
}

/// White space is what stands between words: a space, a tab, and the ends of lines are, and no
/// letter, digit or mark that is written is.
pub proof fn white_space_is_not_written(c: char)
    ensures
        c == ' ' || c == '\t' || c == '\n' || c == '\r' ==> is_space(c),
        '!' <= c <= '~' ==> !is_space(c),
        is_digit(c) ==> !is_space(c),
{
}

/// A power of ten is what is written of it, below nothing behind a minus and nothing where it is not
/// written; and each one of it makes a number ten times as much.
pub proof fn a_power_makes_it_ten_times_as_much(whole: Seq<char>, k: nat)
    requires
        all_digits(whole),
        whole.len() > 0,
    ensures
        power(None) == Some(0int),
        power(Some(decimal(k))) == Some(k as int),
        power(Some(seq!['+'] + decimal(k))) == Some(k as int),
        power(Some(seq!['-'] + decimal(k))) == Some(-(k as int)),
        millionths(whole + seq!['e'] + decimal(k)) == Some(
            (value(whole) * tens(k + 6)) as int,
        ),
        millionths(whole + seq!['E'] + decimal(k)) == Some(
            (value(whole) * tens(k + 6)) as int,
        ),
{
    let digits = decimal(k);
    lemma_decimal(k);
    assert(is_digit(digits[0]));
    assert((seq!['+'] + digits).skip(1) =~= digits);
    assert((seq!['-'] + digits).skip(1) =~= digits);
    assert(all_digits(digits));
    assert forall|i: int| 0 <= i < whole.len() implies whole[i] != 'e' && whole[i] != 'E'
        && whole[i] != '.' by {
        assert(is_digit(whole[i]));
    }
    assert(is_digit(whole[0]));
    what_is_parted_goes_back_together(whole, 'e', digits);
    what_is_parted_goes_back_together(whole, 'E', digits);
    what_is_parted_goes_back_together(whole, '.', digits);
    let large = whole + seq!['E'] + digits;
    lemma_first(large, 'e');
    if first(large, 'e') < large.len() {
        let at = first(large, 'e') as int;
        if at < whole.len() {
            assert(large[at] == whole[at]);
        } else if at > whole.len() {
            assert(large[at] == digits[at - whole.len() - 1]);
            assert(is_digit(digits[at - whole.len() - 1]));
        }
    }
    let small = whole + seq!['e'] + digits;
    assert(small[0] == whole[0] && large[0] == whole[0]);
    assert(whole + Seq::<char>::empty() =~= whole);
    assert(leading(whole, (whole.len() + k + 6) as int) =~= whole + noughts(k + 6));
    lemma_tenfold(whole, k + 6);
}

} // verus!
