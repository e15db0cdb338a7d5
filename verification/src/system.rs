//! What the machine is doing, for the sidecar.
//!
//! All of it comes out of `/proc` and `/sys`. The reading of those files is somebody else's; what
//! is here is what their text *means*. `/proc/stat` is a cumulative counter, so a busy percentage
//! is a difference between two readings, and an off-by-one in which fields count as idle makes a
//! number that is plausible, stable and wrong.
//!
//! A share of a whole is kept in millionths and a rate in whole bytes a second.

use std::collections::VecDeque;
use vstd::prelude::*;
use crate::text::{
    begins, chars, counted, decimal, digit, halves, kept_near, level_read, lines, millionths,
    number_within, parse_decimal, parse_millionths, parse_within, push_all, push_str, seen,
    split_lines, split_once, split_words, starts_with, string, to_decimal, trim, trimmed, views,
    words,
};

verus! {

/// How many samples of history the graphs keep.
///
/// At one sample a second this is a minute and a half, which is long enough to see a shader
/// compile or a page load as a shape rather than a spike.
pub const HISTORY: usize = 90;

/// One whole, in millionths.
pub const WHOLE: u32 = 1_000_000;

/// Cumulative CPU jiffies, as `/proc/stat` reports them.
#[derive(Debug, Clone, Copy, PartialEq, Eq, Structural)]
pub struct CpuTotals {
    pub busy: u64,
    pub total: u64,
}

impl Default for CpuTotals {
    fn default() -> (out: Self)
        ensures
            out.busy == 0 && out.total == 0,
    {
        CpuTotals { busy: 0, total: 0 }
    }
}

/// The first line that begins with `prefix`.
pub open spec fn line_beginning(ls: Seq<Seq<char>>, prefix: Seq<char>) -> Option<Seq<char>>
    decreases ls.len(),
{
    if ls.len() == 0 {
        None
    } else if begins(ls[0], prefix) {
        Some(ls[0])
    } else {
        line_beginning(ls.skip(1), prefix)
    }
}

/// The line found does begin that way, and is one of the lines.
proof fn lemma_line_beginning(ls: Seq<Seq<char>>, prefix: Seq<char>)
    ensures
        line_beginning(ls, prefix) matches Some(line) ==> begins(line, prefix) && ls.contains(line),
    decreases ls.len(),
{
    if ls.len() > 0 {
        if begins(ls[0], prefix) {
            assert(ls.contains(ls[0]));
        } else {
            lemma_line_beginning(ls.skip(1), prefix);
            if let Some(line) = line_beginning(ls.skip(1), prefix) {
                let i = choose|i: int| 0 <= i < ls.skip(1).len() && ls.skip(1)[i] == line;
                assert(ls[i + 1] == line);
            }
        }
    }
}

/// Find the first line that begins with `prefix`.
fn find_line<'a>(ls: &Vec<&'a [char]>, prefix: &[char]) -> (out: Option<&'a [char]>)
    ensures
        seen(out) == line_beginning(views(ls@), prefix@),
{
    let ghost all = views(ls@);
    let mut i: usize = 0;
    assert(all.skip(0) =~= all);
    while i < ls.len()
        invariant
            i <= ls.len(),
            all == views(ls@),
            line_beginning(all, prefix@) == line_beginning(all.skip(i as int), prefix@),
        decreases ls.len() - i,
    {
        assert(all.skip(i as int)[0] == ls@[i as int]@);
        if starts_with(ls[i], prefix) {
            return Some(ls[i]);
        }
        assert(all.skip(i as int).skip(1) =~= all.skip(i + 1));
        i = i + 1;
    }
    None
}

/// The words that are whole numbers of at most sixty-four bits, as numbers, in order.
pub open spec fn numbers(ws: Seq<Seq<char>>) -> Seq<nat>
    decreases ws.len(),
{
    if ws.len() == 0 {
        Seq::empty()
    } else {
        match number_within(ws.last(), u64::MAX as nat) {
            Some(n) => numbers(ws.drop_last()).push(n),
            None => numbers(ws.drop_last()),
        }
    }
}

/// The model of a list of counters.
pub open spec fn counts_of(v: Seq<u64>) -> Seq<nat> {
    Seq::new(v.len(), |i: int| v[i] as nat)
}

/// Keep the words from `from` on that are numbers.
fn numbers_from(ws: &Vec<&[char]>, from: usize) -> (out: Vec<u64>)
    requires
        from <= ws.len(),
    ensures
        counts_of(out@) == numbers(views(ws@).skip(from as int)),
{
    let ghost all = views(ws@).skip(from as int);
    let mut out: Vec<u64> = Vec::new();
    let mut i: usize = from;
    assert(all.take(0) =~= Seq::empty());
    assert(counts_of(out@) =~= Seq::empty());
    while i < ws.len()
        invariant
            from <= i <= ws.len(),
            all == views(ws@).skip(from as int),
            counts_of(out@) == numbers(all.take(i - from)),
        decreases ws.len() - i,
    {
        let ghost had = out@;
        assert(all.take(i - from + 1).drop_last() =~= all.take(i - from));
        assert(all.take(i - from + 1).last() == ws@[i as int]@);
        let parsed = parse_within(ws[i], u64::MAX);
        if let Some(n) = parsed {
            out.push(n);
            assert(counted(parsed) == Some(n as nat));
            assert(counts_of(out@) =~= counts_of(had).push(n as nat));
        } else {
            assert(counted(parsed) == None::<nat>);
        }
        i = i + 1;
    }
    assert(all.take(i - from) =~= all);
    out
}

/// A sum of counters.
pub open spec fn sum(v: Seq<nat>) -> nat
    decreases v.len(),
{
    if v.len() == 0 {
        0
    } else {
        sum(v.drop_last()) + v.last()
    }
}

/// Each counter is part of its sum, and any two of them together are too.
pub proof fn lemma_sum_holds(v: Seq<nat>, i: int, j: int)
    requires
        0 <= i < j < v.len(),
    ensures
        v[i] + v[j] <= sum(v),
    decreases v.len(),
{
    if j < v.len() - 1 {
        lemma_sum_holds(v.drop_last(), i, j);
    } else {
        lemma_sum_one(v.drop_last(), i);
    }
}

proof fn lemma_sum_one(v: Seq<nat>, i: int)
    requires
        0 <= i < v.len(),
    ensures
        v[i] <= sum(v),
    decreases v.len(),
{
    if i < v.len() - 1 {
        lemma_sum_one(v.drop_last(), i);
    }
}

proof fn lemma_sum_grows(v: Seq<nat>, n: int)
    requires
        0 <= n <= v.len(),
    ensures
        sum(v.take(n)) <= sum(v),
    decreases v.len(),
{
    if n == v.len() {
        assert(v.take(n) =~= v);
    } else {
        lemma_sum_grows(v.drop_last(), n);
        assert(v.drop_last().take(n) =~= v.take(n));
    }
}

/// The counters on the aggregate `cpu` line of `/proc/stat`, where there is one.
pub open spec fn cpu_counters(text: Seq<char>) -> Option<Seq<nat>> {
    match line_beginning(lines(text), "cpu "@) {
        Some(line) => Some(numbers(words(line).skip(1))),
        None => None,
    }
}

/// What the aggregate line says: everything counted, and all of it but what was idle or waiting.
pub open spec fn cpu_totals(text: Seq<char>) -> Option<(nat, nat)> {
    match cpu_counters(text) {
        Some(v) if v.len() >= 5 => Some(((sum(v) - v[3] - v[4]) as nat, sum(v))),
        _ => None,
    }
}

/// Parse the aggregate `cpu` line of `/proc/stat`.
///
/// Fields are user, nice, system, idle, iowait, irq, softirq, steal, guest, guest_nice. Idle
/// and iowait are the only ones that are *not* work — counting iowait as busy is the classic
/// mistake here and makes a machine waiting on disk look pegged.
pub fn parse_cpu(text: &str) -> (out: Option<CpuTotals>)
    requires
        cpu_counters(text@) matches Some(v) ==> sum(v) <= u64::MAX,
    ensures
        match cpu_totals(text@) {
            Some((busy, total)) => out matches Some(t) && t.busy == busy && t.total == total,
            None => out is None,
        },
        out matches Some(t) ==> t.busy <= t.total,
{
    let all = chars(text);
    let ls = split_lines(all.as_slice());
    let prefix = chars("cpu ");
    let line = match find_line(&ls, prefix.as_slice()) {
        Some(line) => line,
        None => {
            return None;
        },
    };
    let ws = split_words(line);
    proof {
        lemma_line_beginning(lines(text@), "cpu "@);
        lemma_first_word(line@);
    }
    let values = numbers_from(&ws, 1);
    let ghost v = counts_of(values@);
    assert(cpu_counters(text@) == Some(v));
    if values.len() < 5 {
        return None;
    }
    let mut total: u64 = 0;
    let mut i: usize = 0;
    assert(v.take(0) =~= Seq::empty());
    while i < values.len()
        invariant
            i <= values.len(),
            v == counts_of(values@),
            sum(v) <= u64::MAX,
            total as nat == sum(v.take(i as int)),
        decreases values.len() - i,
    {
        assert(v.take(i + 1).drop_last() =~= v.take(i as int));
        proof {
            lemma_sum_grows(v, i + 1);
        }
        total = total + values[i];
        i = i + 1;
    }
    assert(v.take(i as int) =~= v);
    proof {
        lemma_sum_holds(v, 3, 4);
    }
    let idle: u64 = values[3] + values[4];
    Some(CpuTotals { busy: total.saturating_sub(idle), total })
}

/// The most memory that is reckoned with, in millionths of a kilobyte.
pub const MOST_MEMORY: u128 = 1_000_000_000_000_000_000_000_000_000_000;

/// The second word of the first line that begins with `name`, as a number of kilobytes, in
/// millionths of one. More than is reckoned with is taken for the most that is.
pub open spec fn memory_field(text: Seq<char>, name: Seq<char>) -> Option<int> {
    match line_beginning(lines(text), name) {
        Some(line) if words(line).len() >= 2 => match millionths(words(line)[1]) {
            Some(n) => Some(kept_near(n, MOST_MEMORY as int)),
            None => None,
        },
        _ => None,
    }
}

/// One field of `/proc/meminfo`.
fn read_memory_field(ls: &Vec<&[char]>, name: &str, Ghost(text): Ghost<Seq<char>>) -> (out: Option<
    i128,
>)
    requires
        views(ls@) == lines(text),
    ensures
        match memory_field(text, name@) {
            Some(n) => out matches Some(read) && read == n && -(MOST_MEMORY as int) <= n
                <= MOST_MEMORY,
            None => out is None,
        },
{
    let prefix = chars(name);
    match find_line(ls, prefix.as_slice()) {
        Some(line) => {
            let ws = split_words(line);
            if ws.len() >= 2 {
                assert(views(ws@)[1] == ws@[1]@);
                parse_decimal(ws[1], MOST_MEMORY)
            } else {
                None
            }
        },
        None => None,
    }
}

/// The share of memory in use, in millionths, from `/proc/meminfo`.
///
/// `MemAvailable` rather than `MemFree`: free memory on Linux is nearly always small because
/// the kernel uses the rest for cache, and reporting it would show a healthy machine as
/// permanently full.
pub open spec fn memory_used(text: Seq<char>) -> Option<int> {
    match (memory_field(text, "MemTotal:"@), memory_field(text, "MemAvailable:"@)) {
        (Some(total), Some(available)) if total > 0 => Some((total - available) * WHOLE / total),
        _ => None,
    }
}

/// The share of memory in use, in millionths, rounded down.
///
/// Below nothing, where a machine says that more is available than there is.
pub fn parse_memory(text: &str) -> (out: Option<i128>)
    ensures
        match out {
            Some(used) => memory_used(text@) == Some(used as int),
            None => memory_used(text@) is None,
        },
{
    let all = chars(text);
    let ls = split_lines(all.as_slice());
    let total: i128 = match read_memory_field(&ls, "MemTotal:", Ghost(text@)) {
        Some(total) => total,
        None => {
            return None;
        },
    };
    let available: i128 = match read_memory_field(&ls, "MemAvailable:", Ghost(text@)) {
        Some(available) => available,
        None => {
            return None;
        },
    };
    if total <= 0 {
        return None;
    }
    let used: i128 = (total - available) * (WHOLE as i128);
    Some(floor_wide(used, total))
}

/// A quotient rounded down, whatever the sign.
pub(crate) fn floor_div(n: i128, d: u64) -> (q: i128)
    requires
        d > 0,
        -0x1_0000_0000_0000_0000_0000_0000 < n < 0x1_0000_0000_0000_0000_0000_0000,
    ensures
        q == n as int / (d as int),
{
    floor_wide(n, d as i128)
}

fn floor_wide(n: i128, d: i128) -> (q: i128)
    requires
        0 < d < 0x1000_0000_0000_0000_0000_0000_0000_0000,
        -0x1000_0000_0000_0000_0000_0000_0000_0000 < n < 0x1000_0000_0000_0000_0000_0000_0000_0000,
    ensures
        q == n as int / (d as int),
{
    if n >= 0 {
        n / d
    } else {
        let up: i128 = (-n + d - 1) / d;
        proof {
            lemma_floor_of_negative(n as int, d as int);
        }
        -up
    }
}

pub proof fn lemma_floor_of_negative(n: int, d: int)
    requires
        d > 0,
        n < 0,
    ensures
        n / d == -((-n + d - 1) / d),
{
    let q = (-n + d - 1) / d;
    let r = (-n + d - 1) % d;
    assert(-n + d - 1 == d * q + r && 0 <= r < d) by (nonlinear_arith)
        requires
            d > 0,
            q == (-n + d - 1) / d,
            r == (-n + d - 1) % d,
    ;
    assert(n == d * (-q) + (d - 1 - r)) by (nonlinear_arith)
        requires
            -n + d - 1 == d * q + r,
    ;
    assert(n / d == -q) by (nonlinear_arith)
        requires
            n == d * (-q) + (d - 1 - r),
            0 <= d - 1 - r < d,
    ;
}

/// A line that begins with `cpu ` has a first word.
proof fn lemma_first_word(line: Seq<char>)
    requires
        begins(line, "cpu "@),
    ensures
        words(line).len() >= 1,
{
    reveal_strlit("cpu ");
    assert(line.take(4)[0] == 'c');
    assert(!crate::text::is_space(line[0]));
}

/// One interface or one disk: what it is called, and what its two counters say, where they can
/// be read.
pub struct Row {
    pub name: Seq<char>,
    pub reading: Option<(nat, nat)>,
}

/// What the rows that were accepted add up to.
pub open spec fn total(rows: Seq<Row>, accepted: Seq<bool>) -> (nat, nat)
    decreases rows.len(),
{
    if rows.len() == 0 {
        (0, 0)
    } else {
        let rest = total(rows.drop_last(), accepted.drop_last());
        match rows.last().reading {
            Some((a, b)) if accepted.last() => (rest.0 + a, rest.1 + b),
            _ => rest,
        }
    }
}

/// Whether any row was both accepted and readable.
pub open spec fn any(rows: Seq<Row>, accepted: Seq<bool>) -> bool
    decreases rows.len(),
{
    rows.len() > 0 && ((accepted.last() && rows.last().reading is Some) || any(
        rows.drop_last(),
        accepted.drop_last(),
    ))
}

/// What the accepted rows read, or nothing where there were none.
pub open spec fn reading(rows: Seq<Row>, accepted: Seq<bool>) -> Option<(nat, nat)> {
    if any(rows, accepted) {
        Some(total(rows, accepted))
    } else {
        None
    }
}

/// Whether `accepted` is what `counts` answered, row by row.
pub open spec fn answered<F: Fn(&str) -> bool>(
    rows: Seq<Row>,
    counts: F,
    accepted: Seq<bool>,
) -> bool {
    &&& accepted.len() == rows.len()
    &&& forall|i: int|
        0 <= i < rows.len() ==> answered_one(rows[i].name, counts, #[trigger] accepted[i])
}

/// Whether `counts` may answer `yes` about a name.
pub open spec fn answered_one<F: Fn(&str) -> bool>(
    name: Seq<char>,
    counts: F,
    yes: bool,
) -> bool {
    exists|s: &str| s@ == name && #[trigger] call_ensures(counts, (s,), yes)
}

/// Whatever `counts` answers, the sums fit in sixty-four bits.
pub open spec fn sums_fit<F: Fn(&str) -> bool>(rows: Seq<Row>, counts: F) -> bool {
    forall|n: int, accepted: Seq<bool>|
        0 <= n <= rows.len() && #[trigger] answered(rows.take(n), counts, accepted) ==> total(
            rows.take(n),
            accepted,
        ).0 <= u64::MAX && total(rows.take(n), accepted).1 <= u64::MAX
}

/// A question that a predicate settles has one answer, so the reading is the one it settles on.
pub proof fn a_predicate_decides<F: Fn(&str) -> bool>(
    rows: Seq<Row>,
    counts: F,
    accepted: Seq<bool>,
    wanted: spec_fn(Seq<char>) -> bool,
)
    requires
        answered(rows, counts, accepted),
        forall|s: &str, yes: bool| #[trigger] call_ensures(counts, (s,), yes) ==> yes == wanted(s@),
    ensures
        accepted == Seq::new(rows.len(), |i: int| wanted(rows[i].name)),
{
    assert forall|i: int| 0 <= i < rows.len() implies #[trigger] accepted[i] == wanted(
        rows[i].name,
    ) by {
        assert(answered_one(rows[i].name, counts, accepted[i]));
    }
    assert(accepted =~= Seq::new(rows.len(), |i: int| wanted(rows[i].name)));
}

/// The model of a pair of counters, where there is one.
pub open spec fn pair(out: Option<[u64; 2]>) -> Option<(nat, nat)> {
    match out {
        Some(p) => Some((p[0] as nat, p[1] as nat)),
        None => None,
    }
}

/// A line of `/proc/net/dev`: `name: rx... tx...`, receive bytes first and transmit bytes ninth.
pub open spec fn net_row(line: Seq<char>) -> Option<Row> {
    match halves(line, ':') {
        Some((name, rest)) => {
            let fields = numbers(words(rest));
            Some(
                Row {
                    name: trimmed(name),
                    reading: if fields.len() >= 9 {
                        Some((fields[0], fields[8]))
                    } else {
                        None
                    },
                },
            )
        },
        None => None,
    }
}

/// The rows of some lines of `/proc/net/dev`.
pub open spec fn net_rows(ls: Seq<Seq<char>>) -> Seq<Row>
    decreases ls.len(),
{
    if ls.len() == 0 {
        Seq::empty()
    } else {
        match net_row(ls.last()) {
            Some(row) => net_rows(ls.drop_last()).push(row),
            None => net_rows(ls.drop_last()),
        }
    }
}

/// The lines after the two of column headings.
pub open spec fn past_headings(ls: Seq<Seq<char>>) -> Seq<Seq<char>> {
    if ls.len() >= 2 {
        ls.skip(2)
    } else {
        Seq::empty()
    }
}

/// Every interface that `/proc/net/dev` lists.
pub open spec fn interfaces(text: Seq<char>) -> Seq<Row> {
    net_rows(past_headings(lines(text)))
}

/// Sums of counters, as they are being added up.
#[derive(Clone, Copy)]
struct Tally {
    sums: [u64; 2],
    any: bool,
}

impl Tally {
    spec fn is(self, rows: Seq<Row>, accepted: Seq<bool>) -> bool {
        &&& (self.sums[0] as nat, self.sums[1] as nat) == total(rows, accepted)
        &&& self.any == any(rows, accepted)
    }

    fn read(self) -> (out: Option<[u64; 2]>)
        ensures
            self.any ==> pair(out) == Some((self.sums[0] as nat, self.sums[1] as nat)),
            !self.any ==> pair(out) == None::<(nat, nat)>,
    {
        if self.any {
            Some(self.sums)
        } else {
            None
        }
    }
}

/// One more row, and what was said of it.
proof fn lemma_one_more<F: Fn(&str) -> bool>(
    rows: Seq<Row>,
    counts: F,
    accepted: Seq<bool>,
    name: &str,
    row: Row,
    yes: bool,
)
    requires
        answered(rows, counts, accepted),
        name@ == row.name,
        call_ensures(counts, (name,), yes),
    ensures
        answered(rows.push(row), counts, accepted.push(yes)),
        rows.push(row).drop_last() == rows,
        accepted.push(yes).drop_last() == accepted,
{
    assert(rows.push(row).drop_last() =~= rows);
    assert(accepted.push(yes).drop_last() =~= accepted);
    assert(answered_one(row.name, counts, yes));
    assert forall|i: int| 0 <= i < rows.push(row).len() implies answered_one(
        rows.push(row)[i].name,
        counts,
        #[trigger] accepted.push(yes)[i],
    ) by {
        if i < rows.len() {
            assert(answered_one(rows[i].name, counts, accepted[i]));
        }
    }
}

/// The rows of some lines are the beginning of the rows of more of them.
proof fn lemma_net_rows_grow(ls: Seq<Seq<char>>, n: int)
    requires
        0 <= n <= ls.len(),
    ensures
        net_rows(ls.take(n)).len() <= net_rows(ls).len(),
        net_rows(ls).take(net_rows(ls.take(n)).len() as int) == net_rows(ls.take(n)),
    decreases ls.len(),
{
    if n == ls.len() {
        assert(ls.take(n) =~= ls);
        assert(net_rows(ls).take(net_rows(ls).len() as int) =~= net_rows(ls));
    } else {
        lemma_net_rows_grow(ls.drop_last(), n);
        assert(ls.drop_last().take(n) =~= ls.take(n));
        let k = net_rows(ls.take(n)).len() as int;
        assert(net_rows(ls).take(k) =~= net_rows(ls.drop_last()).take(k));
    }
}

/// Bytes received and sent, summed over the interfaces `counts` accepts, from `/proc/net/dev`.
///
/// Which interfaces count is the caller's business. Summing all of them double-counts: a
/// packet sent over Tailscale appears once on `tailscale0` and again, wrapped, on `wlan0`,
/// and loopback carries nothing that ever left the machine.
pub fn parse_net<F: Fn(&str) -> bool>(text: &str, counts: F) -> (out: Option<[u64; 2]>)
    requires
        forall|s: &str| call_requires(counts, (s,)),
        sums_fit(interfaces(text@), counts),
    ensures
        exists|accepted: Seq<bool>| #[trigger]
            answered(interfaces(text@), counts, accepted) && pair(out) == reading(
                interfaces(text@),
                accepted,
            ),
{
    let all = chars(text);
    let ls = split_lines(all.as_slice());
    let ghost wanted = past_headings(lines(text@));
    let ghost mut accepted: Seq<bool> = Seq::empty();
    let mut tally = Tally { sums: [0, 0], any: false };
    let mut i: usize = 2;
    assert(wanted.take(0) =~= Seq::empty());
    while i < ls.len()
        invariant
            2 <= i,
            ls.len() >= 2 ==> i <= ls.len(),
            views(ls@) == lines(text@),
            wanted == past_headings(lines(text@)),
            forall|s: &str| call_requires(counts, (s,)),
            sums_fit(interfaces(text@), counts),
            i - 2 <= wanted.len() || ls.len() < 2,
            ls.len() < 2 ==> i == 2,
            ls.len() >= 2 ==> answered(net_rows(wanted.take(i - 2)), counts, accepted),
            ls.len() >= 2 ==> tally.is(net_rows(wanted.take(i - 2)), accepted),
            ls.len() < 2 ==> accepted.len() == 0 && !tally.any,
        decreases ls.len() - i,
    {
        let line = ls[i];
        let ghost upto = wanted.take(i - 2);
        let ghost rows = net_rows(upto);
        assert(views(ls@)[i as int] == line@);
        assert(wanted.take(i - 1).drop_last() =~= upto);
        assert(wanted.take(i - 1).last() == line@);
        i = i + 1;
        let (name, rest) = match split_once(line, ':') {
            Some(halves) => halves,
            None => {
                continue;
            },
        };
        let owned = string(trim(name));
        let name: &str = owned.as_str();
        let yes = counts(name);
        let ghost row = net_row(line@)->0;
        proof {
            lemma_one_more(rows, counts, accepted, name, row, yes);
            lemma_net_rows_grow(wanted, i - 2);
            assert(rows.push(row) == net_rows(wanted.take(i - 2)));
            assert(interfaces(text@).take(rows.push(row).len() as int) == rows.push(row));
            accepted = accepted.push(yes);
        }
        if !yes {
            continue;
        }
        let ws = split_words(rest);
        assert(views(ws@).skip(0) =~= views(ws@));
        let fields = numbers_from(&ws, 0);
        if fields.len() < 9 {
            continue;
        }
        tally = Tally {
            sums: [tally.sums[0] + fields[0], tally.sums[1] + fields[8]],
            any: true,
        };
    }
    assert(wanted.take(wanted.len() as int) =~= wanted);
    let out = tally.read();
    assert(answered(interfaces(text@), counts, accepted));
    out
}

/// A line of `/proc/diskstats`: major, minor, name, then reads and writes in 512-byte sectors.
pub open spec fn disk_row(line: Seq<char>) -> Option<Row> {
    let fields = words(line);
    if fields.len() < 10 {
        None
    } else {
        Some(
            Row {
                name: fields[2],
                reading: match (
                    number_within(fields[5], u64::MAX as nat),
                    number_within(fields[9], u64::MAX as nat),
                ) {
                    (Some(read), Some(written)) => Some((read * 512, written * 512)),
                    _ => None,
                },
            },
        )
    }
}

/// The rows of some lines of `/proc/diskstats`.
pub open spec fn disk_rows(ls: Seq<Seq<char>>) -> Seq<Row>
    decreases ls.len(),
{
    if ls.len() == 0 {
        Seq::empty()
    } else {
        match disk_row(ls.last()) {
            Some(row) => disk_rows(ls.drop_last()).push(row),
            None => disk_rows(ls.drop_last()),
        }
    }
}

/// Every disk and partition that `/proc/diskstats` lists.
pub open spec fn disks(text: Seq<char>) -> Seq<Row> {
    disk_rows(lines(text))
}

proof fn lemma_disk_rows_grow(ls: Seq<Seq<char>>, n: int)
    requires
        0 <= n <= ls.len(),
    ensures
        disk_rows(ls.take(n)).len() <= disk_rows(ls).len(),
        disk_rows(ls).take(disk_rows(ls.take(n)).len() as int) == disk_rows(ls.take(n)),
    decreases ls.len(),
{
    if n == ls.len() {
        assert(ls.take(n) =~= ls);
        assert(disk_rows(ls).take(disk_rows(ls).len() as int) =~= disk_rows(ls));
    } else {
        lemma_disk_rows_grow(ls.drop_last(), n);
        assert(ls.drop_last().take(n) =~= ls.take(n));
        let k = disk_rows(ls.take(n)).len() as int;
        assert(disk_rows(ls).take(k) =~= disk_rows(ls.drop_last()).take(k));
    }
}

/// Bytes read and written, summed over the disks `counts` accepts, from `/proc/diskstats`.
///
/// The kernel counts in 512-byte sectors here whatever the device's real sector size is.
/// Partitions have to be left out by the caller, or every byte is counted once for the disk
/// and again for the partition it landed on.
pub fn parse_disk<F: Fn(&str) -> bool>(text: &str, counts: F) -> (out: Option<[u64; 2]>)
    requires
        forall|s: &str| call_requires(counts, (s,)),
        sums_fit(disks(text@), counts),
    ensures
        exists|accepted: Seq<bool>| #[trigger]
            answered(disks(text@), counts, accepted) && pair(out) == reading(
                disks(text@),
                accepted,
            ),
{
    let all = chars(text);
    let ls = split_lines(all.as_slice());
    let ghost wanted = lines(text@);
    let ghost mut accepted: Seq<bool> = Seq::empty();
    let mut tally = Tally { sums: [0, 0], any: false };
    let mut i: usize = 0;
    assert(wanted.take(0) =~= Seq::empty());
    while i < ls.len()
        invariant
            i <= ls.len(),
            views(ls@) == wanted,
            wanted == lines(text@),
            forall|s: &str| call_requires(counts, (s,)),
            sums_fit(disks(text@), counts),
            answered(disk_rows(wanted.take(i as int)), counts, accepted),
            tally.is(disk_rows(wanted.take(i as int)), accepted),
        decreases ls.len() - i,
    {
        let line = ls[i];
        let ghost rows = disk_rows(wanted.take(i as int));
        assert(views(ls@)[i as int] == line@);
        assert(wanted.take(i + 1).drop_last() =~= wanted.take(i as int));
        i = i + 1;
        let fields = split_words(line);
        let ghost ws = words(line@);
        if fields.len() < 10 {
            continue;
        }
        assert(ws[2] == fields@[2]@ && ws[5] == fields@[5]@ && ws[9] == fields@[9]@);
        let owned = string(fields[2]);
        let name: &str = owned.as_str();
        let yes = counts(name);
        let ghost row = disk_row(line@)->0;
        proof {
            lemma_one_more(rows, counts, accepted, name, row, yes);
            lemma_disk_rows_grow(wanted, i as int);
            assert(rows.push(row) == disk_rows(wanted.take(i as int)));
            assert(disks(text@).take(rows.push(row).len() as int) == rows.push(row));
            accepted = accepted.push(yes);
        }
        if !yes {
            continue;
        }
        let read: u64 = match parse_within(fields[5], u64::MAX) {
            Some(n) => n,
            None => {
                continue;
            },
        };
        let written: u64 = match parse_within(fields[9], u64::MAX) {
            Some(n) => n,
            None => {
                continue;
            },
        };
        assert(row.reading == Some((read as nat * 512, written as nat * 512)));
        tally = Tally {
            sums: [tally.sums[0] + read * 512, tally.sums[1] + written * 512],
            any: true,
        };
    }
    assert(wanted.take(wanted.len() as int) =~= wanted);
    let out = tally.read();
    assert(answered(disks(text@), counts, accepted));
    out
}

/// A named measurement with a short history, in millionths.
#[derive(Debug, Clone)]
pub struct Series {
    pub label: &'static str,
    pub samples: VecDeque<u32>,
}

/// A history with one more sample on the end, and the oldest gone where it was full.
pub open spec fn remembering<T>(history: Seq<T>, sample: T) -> Seq<T> {
    if history.len() >= HISTORY {
        history.skip(1).push(sample)
    } else {
        history.push(sample)
    }
}

/// A share kept between nothing and one whole.
pub open spec fn clamped(value: int) -> int {
    if value < 0 {
        0
    } else if value > WHOLE {
        WHOLE as int
    } else {
        value
    }
}

impl Series {
    /// The samples, oldest first.
    pub open spec fn history(self) -> Seq<u32> {
        self.samples@
    }

    /// A graph never holds more than it has room for, nor anything off its scale.
    pub open spec fn wf(self) -> bool {
        &&& self.history().len() <= HISTORY
        &&& forall|i: int| 0 <= i < self.history().len() ==> self.history()[i] <= WHOLE
    }

    pub fn new(label: &'static str) -> (out: Series)
        ensures
            out.wf(),
            out.label == label,
            out.history() == Seq::<u32>::empty(),
    {
        Series { label, samples: VecDeque::with_capacity(HISTORY) }
    }

    /// Add a reading, clamped to the graph: a driver reporting 101% or a negative difference
    /// would otherwise draw outside it.
    pub fn push(&mut self, value: i128)
        requires
            old(self).wf(),
        ensures
            final(self).wf(),
            final(self).label == old(self).label,
            final(self).history() == remembering(old(self).history(), clamped(value as int) as u32),
    {
        if self.samples.len() == HISTORY {
            let _ = self.samples.pop_front();
        }
        let kept: u32 = if value < 0 {
            0
        } else if value > WHOLE as i128 {
            WHOLE
        } else {
            value as u32
        };
        assert(old(self).samples@.skip(1) =~= old(self).samples@.subrange(
            1,
            old(self).samples@.len() as int,
        ));
        self.samples.push_back(kept);
    }

    /// The newest sample, or nothing before the first.
    pub fn latest(&self) -> (out: u32)
        ensures
            out == (if self.history().len() == 0 {
                0
            } else {
                self.history().last()
            }),
    {
        if self.samples.len() == 0 {
            0
        } else {
            self.samples[self.samples.len() - 1]
        }
    }

    /// Every sample, oldest first.
    pub fn samples(&self) -> (out: Vec<u32>)
        ensures
            out@ == self.history(),
    {
        let mut out: Vec<u32> = Vec::new();
        let mut i: usize = 0;
        while i < self.samples.len()
            invariant
                i <= self.samples.len(),
                out@ == self.samples@.take(i as int),
            decreases self.samples.len() - i,
        {
            assert(self.samples@.take(i + 1) =~= self.samples@.take(i as int).push(
                self.samples@[i as int],
            ));
            out.push(self.samples[i]);
            i = i + 1;
        }
        assert(self.samples@.take(i as int) =~= self.samples@);
        out
    }

    pub fn len(&self) -> (out: usize)
        ensures
            out == self.history().len(),
    {
        self.samples.len()
    }

    pub fn is_empty(&self) -> (out: bool)
        ensures
            out == (self.history().len() == 0),
    {
        self.samples.len() == 0
    }
}

/// Two rates that belong together, in bytes a second, with a short history.
///
/// A pair rather than two [`Series`], because they share one graph and one scale: download and
/// upload drawn against different ceilings would make a trickle of one look as big as a flood
/// of the other. And bytes rather than a fraction, because a link or a disk has no natural
/// "100%" to divide by -- the graph scales to what the history has actually seen.
#[derive(Debug, Clone)]
pub struct Rates {
    pub label: &'static str,
    /// What each half is called in the reading, in the order they are pushed.
    pub names: [&'static str; 2],
    pub samples: VecDeque<[u64; 2]>,
}

/// The least a rate graph is scaled to, in bytes a second.
///
/// Without a floor an idle link scales its own background chatter to full height, and a panel
/// that shows a few hundred bytes of mDNS as a wall of bars says "busy" when nothing is.
pub const RATE_FLOOR: u64 = 262_144;

/// The most either half has reached, and never less than the floor.
pub open spec fn ceiling(history: Seq<[u64; 2]>) -> u64
    decreases history.len(),
{
    if history.len() == 0 {
        RATE_FLOOR
    } else {
        larger(larger(ceiling(history.drop_last()), history.last()[0]), history.last()[1])
    }
}

/// The larger of two rates.
pub open spec fn larger(a: u64, b: u64) -> u64 {
    if a < b {
        b
    } else {
        a
    }
}

/// Every bar fits under the top of its graph.
pub proof fn every_rate_fits_under_the_ceiling(history: Seq<[u64; 2]>, i: int)
    requires
        0 <= i < history.len(),
    ensures
        history[i][0] <= ceiling(history),
        history[i][1] <= ceiling(history),
        RATE_FLOOR <= ceiling(history),
    decreases history.len(),
{
    lemma_ceiling_floor(history);
    if i < history.len() - 1 {
        every_rate_fits_under_the_ceiling(history.drop_last(), i);
    }
}

proof fn lemma_ceiling_floor(history: Seq<[u64; 2]>)
    ensures
        RATE_FLOOR <= ceiling(history),
    decreases history.len(),
{
    if history.len() > 0 {
        lemma_ceiling_floor(history.drop_last());
    }
}

impl Rates {
    /// The samples, oldest first.
    pub open spec fn history(self) -> Seq<[u64; 2]> {
        self.samples@
    }

    /// A graph never holds more than it has room for.
    pub open spec fn wf(self) -> bool {
        self.history().len() <= HISTORY
    }

    pub fn new(label: &'static str, names: [&'static str; 2]) -> (out: Rates)
        ensures
            out.wf(),
            out.label == label,
            out.names == names,
            out.history() == Seq::<[u64; 2]>::empty(),
    {
        Rates { label, names, samples: VecDeque::with_capacity(HISTORY) }
    }

    /// Add a pair of rates.
    pub fn push(&mut self, value: [u64; 2])
        requires
            old(self).wf(),
        ensures
            final(self).wf(),
            final(self).label == old(self).label,
            final(self).names == old(self).names,
            final(self).history() == remembering(old(self).history(), value),
    {
        if self.samples.len() == HISTORY {
            let _ = self.samples.pop_front();
        }
        assert(old(self).samples@.skip(1) =~= old(self).samples@.subrange(
            1,
            old(self).samples@.len() as int,
        ));
        self.samples.push_back(value);
    }

    /// The newest pair, or nothing before the first.
    pub fn latest(&self) -> (out: [u64; 2])
        ensures
            self.history().len() > 0 ==> out == self.history().last(),
            self.history().len() == 0 ==> out@ == seq![0u64, 0u64],
    {
        if self.samples.len() == 0 {
            let none: [u64; 2] = [0, 0];
            assert(none@ =~= seq![0u64, 0u64]);
            none
        } else {
            self.samples[self.samples.len() - 1]
        }
    }

    /// Every pair, oldest first.
    pub fn samples(&self) -> (out: Vec<[u64; 2]>)
        ensures
            out@ == self.history(),
    {
        let mut out: Vec<[u64; 2]> = Vec::new();
        let mut i: usize = 0;
        while i < self.samples.len()
            invariant
                i <= self.samples.len(),
                out@ == self.samples@.take(i as int),
            decreases self.samples.len() - i,
        {
            assert(self.samples@.take(i + 1) =~= self.samples@.take(i as int).push(
                self.samples@[i as int],
            ));
            out.push(self.samples[i]);
            i = i + 1;
        }
        assert(self.samples@.take(i as int) =~= self.samples@);
        out
    }

    pub fn len(&self) -> (out: usize)
        ensures
            out == self.history().len(),
    {
        self.samples.len()
    }

    /// The top of the graph: the most either half has reached in the history shown.
    pub fn scale(&self) -> (out: u64)
        ensures
            out == ceiling(self.history()),
    {
        let mut top: u64 = RATE_FLOOR;
        let mut i: usize = 0;
        assert(self.samples@.take(0) =~= Seq::empty());
        while i < self.samples.len()
            invariant
                i <= self.samples.len(),
                top == ceiling(self.samples@.take(i as int)),
            decreases self.samples.len() - i,
        {
            assert(self.samples@.take(i + 1).drop_last() =~= self.samples@.take(i as int));
            let sample = self.samples[i];
            if top < sample[0] {
                top = sample[0];
            }
            if top < sample[1] {
                top = sample[1];
            }
            i = i + 1;
        }
        assert(self.samples@.take(i as int) =~= self.samples@);
        top
    }
}

/// A quotient rounded to the nearest whole number, and to the even one from half way.
pub open spec fn rounded(n: nat, d: nat) -> nat {
    let q = n / d;
    let twice = 2 * (n % d);
    if twice > d || (twice == d && q % 2 == 1) {
        q + 1
    } else {
        q
    }
}

/// A quotient rounded to the nearest whole number, and to the even one from half way.
pub fn round(n: u128, d: u64) -> (out: u128)
    requires
        d > 0,
    ensures
        out as nat == rounded(n as nat, d as nat),
        out <= n + 1,
{
    let d: u128 = d as u128;
    let q: u128 = n / d;
    let twice: u128 = 2 * (n % d);
    assert(q <= n) by (nonlinear_arith)
        requires
            q == n / d,
            d > 0,
    ;
    if twice > d || (twice == d && q % 2 == 1) {
        assert(q < u128::MAX) by (nonlinear_arith)
            requires
                q == n / d,
                2 * (n % d) >= d,
                d > 0,
                n <= u128::MAX,
        ;
        q + 1
    } else {
        q
    }
}

/// A number of tenths, with its one decimal place.
pub open spec fn tenths(t: nat) -> Seq<char> {
    decimal(t / 10) + seq!['.', digit(t % 10)]
}

/// How many of a unit, to one place below ten and to none above.
pub open spec fn scaled(b: nat, unit: nat) -> Seq<char> {
    if b * 100 < 995 * unit {
        tenths(rounded(b * 10, unit))
    } else {
        decimal(rounded(b, unit))
    }
}

/// A rate as a person reads it.
pub open spec fn rate_text(b: nat) -> Seq<char> {
    if b < 1_024 {
        decimal(b) + " B/s"@
    } else if b < 1_048_576 {
        scaled(b, 1_024) + " KB/s"@
    } else if b < 1_073_741_824 {
        scaled(b, 1_048_576) + " MB/s"@
    } else {
        scaled(b, 1_073_741_824) + " GB/s"@
    }
}

fn write_scaled(b: u64, unit: u64) -> (out: Vec<char>)
    requires
        unit == 1_024 || unit == 1_048_576 || unit == 1_073_741_824,
    ensures
        out@ == scaled(b as nat, unit as nat),
{
    if b as u128 * 100 < 995 * unit as u128 {
        let t: u64 = round(b as u128 * 10, unit) as u64;
        let mut out = to_decimal(t / 10);
        out.push('.');
        let last = to_decimal(t % 10);
        assert(last@ =~= seq![digit((t % 10) as nat)]);
        push_all(&mut out, last.as_slice());
        assert(out@ =~= tenths(t as nat));
        out
    } else {
        let n: u128 = round(b as u128, unit);
        proof {
            lemma_round_small(b as nat, unit as nat);
        }
        to_decimal(n as u64)
    }
}

proof fn lemma_round_small(n: nat, d: nat)
    requires
        d >= 2,
    ensures
        rounded(n, d) <= n,
{
    if n > 0 {
        assert(n / d + 1 <= n) by (nonlinear_arith)
            requires
                n > 0,
                d >= 2,
        ;
    } else {
        assert(0nat / d == 0 && 0nat % d == 0) by (nonlinear_arith)
            requires
                d >= 2,
        ;
    }
}

/// A rate as a person reads it: `740 KB/s`, `12 MB/s`, `1.4 MB/s`.
///
/// Binary units, as every file manager and `iftop` show them. Two significant figures below
/// ten and none above, so the reading does not flicker in its last digit once a second.
pub fn format_rate(bytes_per_second: u64) -> (out: String)
    ensures
        out@ == rate_text(bytes_per_second as nat),
{
    let b: u64 = bytes_per_second;
    let mut out: Vec<char> = Vec::new();
    if b < 1_024 {
        out = to_decimal(b);
        push_str(&mut out, " B/s");
    } else if b < 1_048_576 {
        out = write_scaled(b, 1_024);
        push_str(&mut out, " KB/s");
    } else if b < 1_073_741_824 {
        out = write_scaled(b, 1_048_576);
        push_str(&mut out, " MB/s");
    } else {
        out = write_scaled(b, 1_073_741_824);
        push_str(&mut out, " GB/s");
    }
    string(out.as_slice())
}

/// The loudest a reading of the volume is believed: half as much again as full.
pub const LOUDEST: u32 = 1_500_000;

/// What a sentence's second word says in millionths, kept between nothing and `max`.
pub open spec fn second_word(text: Seq<char>, max: int) -> Option<int> {
    if words(text).len() < 2 {
        None
    } else {
        level_read(words(text)[1], max)
    }
}

/// The volume, in millionths of full. `wpctl` prints `Volume: 0.45` or `Volume: 0.45 [MUTED]`.
pub fn parse_volume(text: &str) -> (out: Option<u32>)
    ensures
        match out {
            Some(v) => second_word(text@, LOUDEST as int) == Some(v as int),
            None => second_word(text@, LOUDEST as int) is None,
        },
{
    let all = chars(text);
    let ws = split_words(all.as_slice());
    if ws.len() < 2 {
        return None;
    }
    assert(views(ws@)[1] == ws@[1]@);
    parse_millionths(ws[1], LOUDEST)
}

/// How busy the GPU is, in millionths, from the percentage its driver publishes.
pub fn parse_gpu_busy(text: &str) -> (out: Option<u32>)
    ensures
        match level_read(trimmed(text@), 100 * WHOLE) {
            Some(n) => out matches Some(share) && share == n / 100,
            None => out is None,
        },
{
    let all = chars(text);
    match parse_millionths(trim(all.as_slice()), 100_000_000) {
        Some(percent) => Some(percent / 100),
        None => None,
    }
}

/// What was read off the machine for one sample.
#[derive(Debug, Clone, Copy)]
pub struct Readings {
    pub net: Option<[u64; 2]>,
    pub disk: Option<[u64; 2]>,
    pub cpu: Option<CpuTotals>,
    /// In millionths.
    pub gpu: Option<u32>,
    /// In millionths.
    pub memory: Option<i128>,
}

/// How often a sample is taken, in nanoseconds.
pub const SAMPLE_EVERY: u64 = 1_000_000_000;

/// Everything the sidecar shows, sampled on a timer.
pub struct Monitors {
    pub cpu: Series,
    pub gpu: Series,
    pub memory: Series,
    /// Received and sent, over the machine's real network hardware.
    pub network: Rates,
    /// Read and written, over its real disks.
    pub disk: Rates,
    pub previous_cpu: CpuTotals,
    pub previous_net: Option<[u64; 2]>,
    pub previous_disk: Option<[u64; 2]>,
    /// When the last sample was taken, in nanoseconds.
    pub last_sample: u64,
}

/// How fast a counter has climbed, per second, to the nearest whole one. A counter goes backwards
/// when an interface is replaced or a disk removed, and that is no rate at all.
pub open spec fn climb(now: u64, was: u64, elapsed: nat) -> nat {
    if now < was {
        0
    } else {
        rounded(((now - was) as nat) * (SAMPLE_EVERY as nat), elapsed)
    }
}

/// Both halves of a rate: nothing, unless both readings are there.
pub open spec fn rates(now: Option<[u64; 2]>, was: Option<[u64; 2]>, elapsed: nat) -> Seq<u64> {
    match (now, was) {
        (Some(n), Some(w)) => seq![
            climb(n[0], w[0], elapsed) as u64,
            climb(n[1], w[1], elapsed) as u64,
        ],
        _ => seq![0u64, 0u64],
    }
}

/// The share of the counted jiffies that were work, in millionths.
pub open spec fn busy_share(now: CpuTotals, was: CpuTotals) -> int {
    let busy = if now.busy < was.busy {
        0
    } else {
        now.busy - was.busy
    };
    let all = if now.total < was.total {
        0
    } else {
        now.total - was.total
    };
    if all > 0 {
        busy * WHOLE / all
    } else {
        0
    }
}

fn rate_one(now: u64, was: u64, elapsed: u64) -> (out: u64)
    requires
        elapsed >= SAMPLE_EVERY,
    ensures
        out == climb(now, was, elapsed as nat),
{
    let delta: u64 = now.saturating_sub(was);
    let climbed: u128 = delta as u128 * SAMPLE_EVERY as u128;
    let q: u128 = round(climbed, elapsed);
    proof {
        let whole = climbed as int / (elapsed as int);
        let rest = climbed as int % (elapsed as int);
        assert(whole < delta || (whole == delta && rest == 0)) by (nonlinear_arith)
            requires
                climbed == delta as int * 1_000_000_000,
                whole == climbed as int / (elapsed as int),
                rest == climbed as int % (elapsed as int),
                elapsed >= 1_000_000_000,
                delta >= 0,
        ;
    }
    q as u64
}

fn rate(now: Option<[u64; 2]>, was: Option<[u64; 2]>, elapsed: u64) -> (out: [u64; 2])
    requires
        elapsed >= SAMPLE_EVERY,
    ensures
        out@ == rates(now, was, elapsed as nat),
{
    let out: [u64; 2] = match (now, was) {
        (Some(n), Some(w)) => [rate_one(n[0], w[0], elapsed), rate_one(n[1], w[1], elapsed)],
        _ => [0, 0],
    };
    assert(out@ =~= rates(now, was, elapsed as nat));
    out
}

impl Monitors {
    /// Every graph keeps to its bounds.
    pub open spec fn wf(self) -> bool {
        &&& self.cpu.wf()
        &&& self.gpu.wf()
        &&& self.memory.wf()
        &&& self.network.wf()
        &&& self.disk.wf()
    }

    /// Start from what the counters say now.
    pub fn new(first: Readings, now: u64) -> (out: Monitors)
        ensures
            out.wf(),
            out.cpu.history().len() == 0,
            out.gpu.history().len() == 0,
            out.memory.history().len() == 0,
            out.network.history().len() == 0,
            out.disk.history().len() == 0,
            out.cpu.label == "CPU",
            out.gpu.label == "GPU",
            out.memory.label == "MEM",
            out.network.label == "NET",
            out.disk.label == "DISK",
            out.network.names@ == seq!["\u{2193}", "\u{2191}"],
            out.disk.names@ == seq!["R", "W"],
            first.cpu matches Some(totals) ==> out.previous_cpu == totals,
            first.cpu is None ==> out.previous_cpu == (CpuTotals { busy: 0, total: 0 }),
            out.previous_net == first.net,
            out.previous_disk == first.disk,
            out.last_sample == now,
    {
        let arrows: [&'static str; 2] = ["\u{2193}", "\u{2191}"];
        let letters: [&'static str; 2] = ["R", "W"];
        assert(arrows@ =~= seq!["\u{2193}", "\u{2191}"]);
        assert(letters@ =~= seq!["R", "W"]);
        Monitors {
            cpu: Series::new("CPU"),
            gpu: Series::new("GPU"),
            memory: Series::new("MEM"),
            network: Rates::new("NET", arrows),
            disk: Rates::new("DISK", letters),
            previous_cpu: match first.cpu {
                Some(totals) => totals,
                None => CpuTotals { busy: 0, total: 0 },
            },
            previous_net: first.net,
            previous_disk: first.disk,
            last_sample: now,
        }
    }

    /// Whether enough time has passed to take a reading.
    pub fn due(&self, now: u64) -> (out: bool)
        requires
            self.last_sample <= now,
        ensures
            out == (now - self.last_sample >= SAMPLE_EVERY),
    {
        now - self.last_sample >= SAMPLE_EVERY
    }

    /// Take a reading if enough time has passed. Returns whether anything changed.
    ///
    /// Per second of the interval actually measured, not per tick. The loop that calls this can
    /// stall for a moment, and dividing a 1.4 s interval's bytes by one second would show a
    /// spike that never happened. A CPU that could not be read leaves its graph alone; a GPU or
    /// a memory that could not reads as nothing.
    pub fn tick(&mut self, now: u64, read: Readings) -> (out: bool)
        requires
            old(self).wf(),
            old(self).last_sample <= now,
        ensures
            final(self).wf(),
            out == (now - old(self).last_sample >= SAMPLE_EVERY),
            !out ==> *final(self) == *old(self),
            out ==> {
                let elapsed = (now - old(self).last_sample) as nat;
                &&& final(self).last_sample == now
                &&& final(self).previous_net == read.net
                &&& final(self).previous_disk == read.disk
                &&& final(self).network.history().last()@ == rates(
                    read.net,
                    old(self).previous_net,
                    elapsed,
                )
                &&& final(self).network.history() == remembering(
                    old(self).network.history(),
                    final(self).network.history().last(),
                )
                &&& final(self).disk.history().last()@ == rates(
                    read.disk,
                    old(self).previous_disk,
                    elapsed,
                )
                &&& final(self).disk.history() == remembering(
                    old(self).disk.history(),
                    final(self).disk.history().last(),
                )
                &&& match read.cpu {
                    Some(totals) => {
                        &&& final(self).previous_cpu == totals
                        &&& final(self).cpu.history() == remembering(
                            old(self).cpu.history(),
                            clamped(busy_share(totals, old(self).previous_cpu)) as u32,
                        )
                    },
                    None => {
                        &&& final(self).previous_cpu == old(self).previous_cpu
                        &&& final(self).cpu.history() == old(self).cpu.history()
                    },
                }
                &&& final(self).gpu.history() == remembering(
                    old(self).gpu.history(),
                    clamped(
                        (if read.gpu is Some {
                            read.gpu->0 as int
                        } else {
                            0
                        }),
                    ) as u32,
                )
                &&& final(self).memory.history() == remembering(
                    old(self).memory.history(),
                    clamped(
                        (if read.memory is Some {
                            read.memory->0 as int
                        } else {
                            0
                        }),
                    ) as u32,
                )
            },
    {
        let elapsed: u64 = now - self.last_sample;
        if elapsed < SAMPLE_EVERY {
            return false;
        }
        self.last_sample = now;
        let net = rate(read.net, self.previous_net, elapsed);
        self.network.push(net);
        self.previous_net = read.net;
        let disk = rate(read.disk, self.previous_disk, elapsed);
        self.disk.push(disk);
        self.previous_disk = read.disk;
        if let Some(totals) = read.cpu {
            let busy: u64 = totals.busy.saturating_sub(self.previous_cpu.busy);
            let all: u64 = totals.total.saturating_sub(self.previous_cpu.total);
            // A zero interval happens if the clock jumps; reporting nothing is better than
            // dividing by it.
            let share: i128 = if all > 0 {
                busy as i128 * WHOLE as i128 / all as i128
            } else {
                0
            };
            self.cpu.push(share);
            self.previous_cpu = totals;
        }
        self.gpu.push(
            match read.gpu {
                Some(share) => share as i128,
                None => 0,
            },
        );
        self.memory.push(
            match read.memory {
                Some(share) => share,
                None => 0,
            },
        );
        true
    }
}

/// Screen brightness, and the file to write to change it.
#[derive(Debug, Clone, PartialEq, Eq)]
pub struct Backlight {
    pub path: String,
    pub max: u32,
}

impl Backlight {
    /// The backlight in a directory of `/sys/class/backlight`, given what its `max_brightness`
    /// reads.
    pub fn found(directory: &str, max_brightness: &str) -> (out: Option<Backlight>)
        ensures
            match number_within(trimmed(max_brightness@), u32::MAX as nat) {
                Some(max) => out matches Some(b) && b.max == max && b.path@ == directory@
                    + "/brightness"@,
                None => out is None,
            },
    {
        let all = chars(max_brightness);
        match parse_within(trim(all.as_slice()), u32::MAX as u64) {
            Some(max) => {
                let mut path = chars(directory);
                push_str(&mut path, "/brightness");
                Some(Backlight { path: string(path.as_slice()), max: max as u32 })
            },
            None => None,
        }
    }

    /// The share of its full brightness that its file says, in millionths, rounded down.
    pub fn level(&self, brightness: &str) -> (out: Option<u64>)
        ensures
            match number_within(trimmed(brightness@), u32::MAX as nat) {
                Some(value) => out matches Some(share) && share == value * WHOLE / (if self.max > 1 {
                    self.max as int
                } else {
                    1
                }),
                None => out is None,
            },
    {
        let all = chars(brightness);
        match parse_within(trim(all.as_slice()), u32::MAX as u64) {
            Some(value) => {
                let full: u64 = if self.max > 1 {
                    self.max as u64
                } else {
                    1
                };
                assert(value <= u32::MAX);
                Some(value * 1_000_000 / full)
            },
            None => None,
        }
    }

    /// The number to write for a share of full brightness, to the nearest whole one.
    pub fn value_for(&self, level: i64) -> (out: u32)
        ensures
            out == (clamped(level as int) * self.max + 500_000) / 1_000_000,
            out <= self.max,
    {
        let kept: u64 = if level < 0 {
            0
        } else if level > WHOLE as i64 {
            WHOLE as u64
        } else {
            level as u64
        };
        assert(0 <= kept * self.max <= 1_000_000 * self.max) by (nonlinear_arith)
            requires
                kept <= 1_000_000,
        ;
        let n: u64 = (kept * self.max as u64 + 500_000) / 1_000_000;
        n as u32
    }
}

/// The line that is read is the first that begins as it should, and none is where none does.
pub proof fn the_first_such_line_is_read(ls: Seq<Seq<char>>, prefix: Seq<char>, at: int)
    ensures
        0 <= at < ls.len() && begins(ls[at], prefix) && (forall|i: int|
            0 <= i < at ==> !begins(#[trigger] ls[i], prefix)) ==> line_beginning(ls, prefix)
            == Some(ls[at]),
        (forall|i: int| 0 <= i < ls.len() ==> !begins(#[trigger] ls[i], prefix))
            ==> line_beginning(ls, prefix) is None,
    decreases ls.len(),
{
    if ls.len() > 0 {
        let rest = ls.skip(1);
        the_first_such_line_is_read(rest, prefix, at - 1);
        if forall|i: int| 0 <= i < ls.len() ==> !begins(#[trigger] ls[i], prefix) {
            assert forall|i: int| 0 <= i < rest.len() implies !begins(
                #[trigger] rest[i],
                prefix,
            ) by {
                assert(rest[i] == ls[i + 1]);
            }
            assert(!begins(ls[0], prefix));
        }
        if 0 < at < ls.len() && begins(ls[at], prefix) && (forall|i: int|
            0 <= i < at ==> !begins(#[trigger] ls[i], prefix)) {
            assert forall|i: int| 0 <= i < at - 1 implies !begins(#[trigger] rest[i], prefix) by {
                assert(rest[i] == ls[i + 1]);
            }
            assert(rest[at - 1] == ls[at]);
            assert(!begins(ls[0], prefix));
        }
    }
}

/// Counters are kept in the order they stand in, and a word that is no number is passed over; a sum
/// is of all of them.
pub proof fn counters_keep_their_order(ws: Seq<Seq<char>>, word: Seq<char>, v: Seq<nat>, n: nat)
    ensures
        number_within(word, u64::MAX as nat) matches Some(read) ==> numbers(ws.push(word))
            == numbers(ws).push(read),
        number_within(word, u64::MAX as nat) is None ==> numbers(ws.push(word)) == numbers(ws),
        numbers(Seq::empty()).len() == 0,
        sum(v.push(n)) == sum(v) + n,
        sum(Seq::empty()) == 0,
{
    assert(ws.push(word).drop_last() =~= ws);
    assert(v.push(n).drop_last() =~= v);
}

/// What was idle and what waited for a disk are the only things counted that are not work: they are
/// the fourth counter and the fifth, and they and the work are everything.
pub proof fn waiting_is_not_work(text: Seq<char>, v: Seq<nat>)
    requires
        cpu_counters(text) == Some(v),
    ensures
        v.len() < 5 ==> cpu_totals(text) is None,
        v.len() >= 5 ==> (cpu_totals(text) matches Some((busy, total)) && busy + v[3] + v[4]
            == total && total == sum(v)),
{
    if v.len() >= 5 {
        lemma_sum_holds(v, 3, 4);
    }
}

/// What is in use of the memory is what is not available of it, as a share of what there is: a
/// millionth of the whole for each, rounded down. Nothing is where all of it is available, and the
/// whole where none is.
pub proof fn memory_in_use_is_what_is_not_available(text: Seq<char>, total: int, available: int)
    requires
        memory_field(text, "MemTotal:"@) == Some(total),
        memory_field(text, "MemAvailable:"@) == Some(available),
    ensures
        total <= 0 ==> memory_used(text) is None,
        total > 0 ==> (memory_used(text) matches Some(used) && used * total <= (total - available)
            * 1_000_000 < (used + 1) * total),
        total > 0 && available == total ==> memory_used(text) == Some(0int),
        total > 0 && available == 0 ==> memory_used(text) == Some(1_000_000int),
{
    if total > 0 {
        let n = (total - available) * 1_000_000;
        lemma_quotient(n, total);
        assert(available == total ==> n / total == 0) by (nonlinear_arith)
            requires
                n == (total - available) * 1_000_000,
                total > 0,
        ;
        assert(available == 0 ==> n / total == 1_000_000) by (nonlinear_arith)
            requires
                n == (total - available) * 1_000_000,
                total > 0,
        ;
    }
}

proof fn lemma_quotient(n: int, d: int)
    requires
        d > 0,
    ensures
        (n / d) * d <= n < (n / d + 1) * d,
{
    assert((n / d) * d <= n < (n / d + 1) * d) by (nonlinear_arith)
        requires
            d > 0,
    ;
}

/// A field of the memory is the number after its name, where its line has one.
pub proof fn a_memory_field_is_what_follows_its_name(text: Seq<char>, name: Seq<char>, line: Seq<char>)
    requires
        line_beginning(lines(text), name) == Some(line),
    ensures
        words(line).len() < 2 ==> memory_field(text, name) is None,
        words(line).len() >= 2 && millionths(words(line)[1]) is None ==> memory_field(
            text,
            name,
        ) is None,
        words(line).len() >= 2 && (millionths(words(line)[1]) matches Some(n) && -(
        MOST_MEMORY as int) <= n <= MOST_MEMORY) ==> memory_field(text, name) == millionths(
            words(line)[1],
        ),
{
}

/// Each row that was accepted and could be read adds its two counters, the first to the first and
/// the second to the second, and no other row adds anything; a reading is made of at least one.
pub proof fn every_accepted_row_is_added(
    rows: Seq<Row>,
    accepted: Seq<bool>,
    row: Row,
    yes: bool,
)
    requires
        rows.len() == accepted.len(),
    ensures
        ({
            let before = total(rows, accepted);
            let after = total(rows.push(row), accepted.push(yes));
            &&& yes && (row.reading is Some) ==> after.0 == before.0 + row.reading->Some_0.0
                && after.1 == before.1 + row.reading->Some_0.1
            &&& !yes || row.reading is None ==> after == before
            &&& any(rows.push(row), accepted.push(yes)) <==> any(rows, accepted) || (yes
                && row.reading is Some)
            &&& total(Seq::empty(), Seq::empty()) == (0nat, 0nat)
            &&& !any(Seq::empty(), Seq::empty())
            &&& reading(rows, accepted) is Some <==> any(rows, accepted)
            &&& reading(rows, accepted) is Some ==> reading(rows, accepted) == Some(before)
        }),
{
    assert(rows.push(row).drop_last() =~= rows);
    assert(accepted.push(yes).drop_last() =~= accepted);
}

/// An interface is what its line says after its name: bytes received are the first counter, and
/// bytes sent the ninth. A line with no name on it is no interface, and the two lines of headings
/// are none either.
pub proof fn an_interface_is_read_off_its_line(
    name: Seq<char>,
    rest: Seq<char>,
    ls: Seq<Seq<char>>,
    line: Seq<char>,
)
    requires
        forall|i: int| 0 <= i < name.len() ==> name[i] != ':',
    ensures
        net_row(name + seq![':'] + rest) matches Some(row) && row.name == trimmed(name) && (numbers(
            words(rest),
        ).len() >= 9 ==> row.reading == Some(
            (numbers(words(rest))[0], numbers(words(rest))[8]),
        )) && (numbers(words(rest)).len() < 9 ==> row.reading is None),
        net_row(name) is None,
        net_row(line) matches Some(row) ==> net_rows(ls.push(line)) == net_rows(ls).push(row),
        net_row(line) is None ==> net_rows(ls.push(line)) == net_rows(ls),
        ls.len() >= 2 ==> past_headings(ls).len() == ls.len() - 2,
        ls.len() > 2 ==> past_headings(ls)[0] == ls[2],
        ls.len() < 2 ==> past_headings(ls).len() == 0,
{
    crate::text::what_is_parted_goes_back_together(name, ':', rest);
    assert(ls.push(line).drop_last() =~= ls);
}

/// A disk is what its line says: its name is the third word, what was read the sixth and what was
/// written the tenth, in sectors of five hundred and twelve bytes.
pub proof fn a_disk_is_read_off_its_line(line: Seq<char>, ls: Seq<Seq<char>>, read: nat, written: nat)
    ensures
        words(line).len() < 10 ==> disk_row(line) is None,
        words(line).len() >= 10 ==> (disk_row(line) matches Some(row) && row.name == words(line)[2]),
        words(line).len() >= 10 && number_within(words(line)[5], u64::MAX as nat) == Some(read)
            && number_within(words(line)[9], u64::MAX as nat) == Some(written) ==> (disk_row(
            line,
        ) matches Some(row) && row.reading == Some((read * 512, written * 512))),
        words(line).len() >= 10 && (number_within(words(line)[5], u64::MAX as nat) is None
            || number_within(words(line)[9], u64::MAX as nat) is None) ==> (disk_row(
            line,
        ) matches Some(row) && row.reading is None),
        disk_row(line) matches Some(row) ==> disk_rows(ls.push(line)) == disk_rows(ls).push(row),
        disk_row(line) is None ==> disk_rows(ls.push(line)) == disk_rows(ls),
{
    assert(ls.push(line).drop_last() =~= ls);
}

/// A history ends with its newest sample and keeps the ones before it in order, the oldest going
/// first once it is full.
pub proof fn a_history_keeps_the_newest<T>(history: Seq<T>, sample: T)
    requires
        history.len() <= HISTORY,
    ensures
        ({
            let after = remembering(history, sample);
            &&& after.last() == sample
            &&& after.drop_last().is_suffix_of(history)
            &&& history.len() < HISTORY ==> after.len() == history.len() + 1
            &&& history.len() == HISTORY ==> after.len() == HISTORY
        }),
{
    let kept = remembering(history, sample).drop_last();
    assert(kept =~= history.skip(history.len() - kept.len()));
}

/// A share is kept on its scale: what is on it is left as it is, and what is off it is the nearer
/// end.
pub proof fn a_share_is_kept_on_its_scale(value: int)
    ensures
        0 <= clamped(value) <= 1_000_000,
        0 <= value <= 1_000_000 ==> clamped(value) == value,
        value <= 0 ==> clamped(value) == 0,
        value >= 1_000_000 ==> clamped(value) == 1_000_000,
{
}

/// The top of a graph is no higher than it has to be: the floor, or what one of the two has reached.
pub proof fn the_ceiling_is_reached(history: Seq<[u64; 2]>)
    ensures
        ceiling(history) == 262_144 || exists|i: int|
            0 <= i < history.len() && (ceiling(history) == (#[trigger] history[i])[0] || ceiling(
                history,
            ) == history[i][1]),
    decreases history.len(),
{
    if history.len() > 0 {
        let fewer = history.drop_last();
        the_ceiling_is_reached(fewer);
        let last = history.len() - 1;
        assert(history.last() == history[last]);
        if ceiling(history) != history[last][0] && ceiling(history) != history[last][1] {
            assert(ceiling(history) == ceiling(fewer));
            if ceiling(fewer) != 262_144 {
                let i = choose|i: int|
                    0 <= i < fewer.len() && (ceiling(fewer) == (#[trigger] fewer[i])[0] || ceiling(
                        fewer,
                    ) == fewer[i][1]);
                assert(history[i] == fewer[i]);
            }
        }
    }
}

/// Rounding gives the nearest whole number: no more than half away, and from half way the even one.
pub proof fn rounding_is_to_the_nearest(n: nat, d: nat)
    requires
        d > 0,
    ensures
        2 * (rounded(n, d) * d) <= 2 * n + d,
        2 * n <= 2 * (rounded(n, d) * d) + d,
        (2 * (rounded(n, d) * d) == 2 * n + d || 2 * n == 2 * (rounded(n, d) * d) + d) ==> rounded(
            n,
            d,
        ) % 2 == 0,
{
    let q = n / d;
    let r = n % d;
    assert(n == q * d + r && 0 <= r < d) by (nonlinear_arith)
        requires
            q == n / d,
            r == n % d,
            d > 0,
    ;
    assert((q + 1) * d == q * d + d) by (nonlinear_arith);
}

/// A rate reads as what it is: a bare number of bytes below a thousand and twenty-four, and above
/// that so many of the unit it is in, to the nearest tenth where that is under ten of them and to
/// the nearest whole one where it is not.
pub proof fn a_rate_reads_as_what_it_is(b: nat, unit: nat)
    requires
        unit > 0,
    ensures
        b < 1_024 ==> crate::text::number(rate_text(b).take(rate_text(b).len() - 4)) == Some(b),
        1_024 <= b < 1_048_576 ==> rate_text(b) == scaled(b, 1_024) + " KB/s"@,
        1_048_576 <= b < 1_073_741_824 ==> rate_text(b) == scaled(b, 1_048_576) + " MB/s"@,
        1_073_741_824 <= b ==> rate_text(b) == scaled(b, 1_073_741_824) + " GB/s"@,
        b * 100 < 995 * unit ==> {
            let text = scaled(b, unit);
            let t = rounded(b * 10, unit);
            &&& text[text.len() - 2] == '.'
            &&& crate::text::number(text.take(text.len() - 2)) == Some(t / 10)
            &&& text.last() as int - 48 == t % 10
        },
        b * 100 >= 995 * unit ==> crate::text::number(scaled(b, unit)) == Some(rounded(b, unit)),
{
    reveal_strlit(" B/s");
    crate::text::decimal_reads_back(b);
    crate::text::decimal_reads_back(rounded(b, unit));
    let t = rounded(b * 10, unit);
    crate::text::decimal_reads_back(t / 10);
    if b < 1_024 {
        assert(rate_text(b).take(rate_text(b).len() - 4) =~= decimal(b));
    }
    if b * 100 < 995 * unit {
        let text = scaled(b, unit);
        assert(text.take(text.len() - 2) =~= decimal(t / 10));
        assert(text.last() == digit(t % 10));
    }
}

/// A counter that has climbed by so many over so long climbs by so many a second: what it climbed,
/// where that took one second, and to the nearest otherwise. One that went backwards, or stood
/// still, has not climbed.
pub proof fn a_rate_is_per_second(now: u64, was: u64, elapsed: nat)
    requires
        elapsed > 0,
    ensures
        now <= was ==> climb(now, was, elapsed) == 0,
        now >= was && elapsed == 1_000_000_000 ==> climb(now, was, elapsed) == now - was,
        now >= was ==> 2 * (climb(now, was, elapsed) * elapsed) <= 2 * ((now - was) * 1_000_000_000)
            + elapsed,
        now >= was ==> 2 * ((now - was) * 1_000_000_000) <= 2 * (climb(now, was, elapsed) * elapsed)
            + elapsed,
{
    if now >= was {
        let n = ((now - was) as nat) * 1_000_000_000;
        rounding_is_to_the_nearest(n, elapsed);
        if now == was {
            assert(0nat / elapsed == 0 && 0nat % elapsed == 0) by (nonlinear_arith)
                requires
                    elapsed > 0,
            ;
        }
    }
}

/// The two halves of a rate are told apart, each from its own counter; and there is no rate where
/// one of the two readings is missing.
pub proof fn the_halves_of_a_rate_are_told_apart(
    now: [u64; 2],
    was: [u64; 2],
    none: Option<[u64; 2]>,
    elapsed: nat,
)
    ensures
        rates(Some(now), Some(was), elapsed).len() == 2,
        rates(Some(now), Some(was), elapsed)[0] == climb(now[0], was[0], elapsed) as u64,
        rates(Some(now), Some(was), elapsed)[1] == climb(now[1], was[1], elapsed) as u64,
        rates(None, none, elapsed) == seq![0u64, 0u64],
        rates(none, None, elapsed) == seq![0u64, 0u64],
{
}

/// How busy a processor is is the share of what was counted since that was work: nothing where none
/// of it was, the whole where all of it was, and in proportion between, in millionths rounded down.
pub proof fn a_processor_is_as_busy_as_its_work(now: CpuTotals, was: CpuTotals)
    requires
        was.busy <= now.busy,
        was.total < now.total,
    ensures
        ({
            let work = now.busy - was.busy;
            let all = now.total - was.total;
            let share = busy_share(now, was);
            &&& share * all <= work * 1_000_000 < (share + 1) * all
            &&& work == 0 ==> share == 0
            &&& work == all ==> share == 1_000_000
            &&& work <= all ==> 0 <= share <= 1_000_000
        }),
        busy_share(was, was) == 0,
{
    let work = now.busy - was.busy;
    let all = now.total - was.total;
    let n = work * 1_000_000;
    lemma_quotient(n, all);
    assert(work == 0 ==> n / all == 0) by (nonlinear_arith)
        requires
            n == work * 1_000_000,
            all > 0,
    ;
    assert(work == all ==> n / all == 1_000_000) by (nonlinear_arith)
        requires
            n == work * 1_000_000,
            all > 0,
    ;
    assert(0 <= work <= all ==> 0 <= n / all <= 1_000_000) by (nonlinear_arith)
        requires
            n == work * 1_000_000,
            all > 0,
    ;
}

/// The volume is what the sentence's second word says, and a sentence of fewer than two has none.
pub proof fn the_second_word_is_read(first: Seq<char>, second: Seq<char>, space: char, max: int)
    requires
        first.len() > 0,
        second.len() > 0,
        forall|i: int| 0 <= i < first.len() ==> !crate::text::is_space(first[i]),
        forall|i: int| 0 <= i < second.len() ==> !crate::text::is_space(second[i]),
        crate::text::is_space(space),
    ensures
        second_word(first + seq![space] + second, max) == level_read(second, max),
        second_word(first, max) is None,
{
    crate::text::a_word_ends_at_a_space(first, space, second);
    crate::text::a_word_ends_at_a_space(second, space, Seq::empty());
}

} // verus!
