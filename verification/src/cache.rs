//! Things already made, by the text they were made for.

use vstd::prelude::*;
use crate::text::{chars, same};

verus! {

/// What has been made so far.
#[derive(Debug)]
pub struct Cache<V> {
    pub entries: Vec<(String, V)>,
}

/// What is under each text: of two under the same, the later one.
pub open spec fn cached<V>(entries: Seq<(String, V)>) -> Map<Seq<char>, V>
    decreases entries.len(),
{
    if entries.len() == 0 {
        Map::empty()
    } else {
        cached(entries.drop_last()).insert(entries.last().0@, entries.last().1)
    }
}

impl<V: Copy> Cache<V> {
    /// What is under each text.
    pub open spec fn map(self) -> Map<Seq<char>, V> {
        cached(self.entries@)
    }

    /// No text is there twice.
    pub open spec fn wf(self) -> bool {
        forall|i: int, j: int|
            0 <= i < j < self.entries@.len() ==> (#[trigger] self.entries@[i]).0@ != (
            #[trigger] self.entries@[j]).0@
    }

    pub fn new() -> (out: Cache<V>)
        ensures
            out.wf(),
            out.map() == Map::<Seq<char>, V>::empty(),
            out.entries@.len() == 0,
    {
        Cache { entries: Vec::new() }
    }

    /// What was made for a text, where anything was.
    pub fn get(&self, text: &str) -> (out: Option<V>)
        requires
            self.wf(),
        ensures
            out == (if self.map().contains_key(text@) {
                Some(self.map()[text@])
            } else {
                None
            }),
    {
        let wanted = chars(text);
        let mut i: usize = self.entries.len();
        assert(self.entries@.take(i as int) =~= self.entries@);
        while i > 0
            invariant
                i <= self.entries.len(),
                wanted@ == text@,
                cached(self.entries@).contains_key(text@) == cached(
                    self.entries@.take(i as int),
                ).contains_key(text@),
                cached(self.entries@).contains_key(text@) ==> cached(self.entries@)[text@]
                    == cached(self.entries@.take(i as int))[text@],
            decreases i,
        {
            i = i - 1;
            let name = chars(self.entries[i].0.as_str());
            assert(self.entries@.take(i + 1).drop_last() =~= self.entries@.take(i as int));
            if same(name.as_slice(), wanted.as_slice()) {
                return Some(self.entries[i].1);
            }
        }
        None
    }

    pub fn len(&self) -> (out: usize)
        ensures
            out == self.entries@.len(),
    {
        self.entries.len()
    }

    /// Keep what was made for a text that had nothing.
    pub fn insert(&mut self, text: &str, value: V)
        requires
            old(self).wf(),
            !old(self).map().contains_key(text@),
        ensures
            final(self).wf(),
            final(self).map() == old(self).map().insert(text@, value),
            final(self).entries@.len() == old(self).entries@.len() + 1,
    {
        let ghost was = self.entries@;
        self.entries.push((text.to_owned(), value));
        assert(self.entries@.drop_last() =~= was);
        assert forall|i: int, j: int|
            0 <= i < j < self.entries@.len() implies (#[trigger] self.entries@[i]).0@ != (
        #[trigger] self.entries@[j]).0@ by {
            if j == was.len() {
                lemma_cached(was, i);
            }
        }
    }

    /// Forget everything, and say what there was, in the order it was made.
    pub fn clear(&mut self) -> (out: Vec<V>)
        ensures
            final(self).wf(),
            final(self).map() == Map::<Seq<char>, V>::empty(),
            final(self).entries@.len() == 0,
            out@ == Seq::new(old(self).entries@.len(), |i: int| old(self).entries@[i].1),
    {
        let mut out: Vec<V> = Vec::new();
        let mut i: usize = 0;
        while i < self.entries.len()
            invariant
                i <= self.entries.len(),
                *self == *old(self),
                out@ == Seq::new(i as nat, |i: int| old(self).entries@[i].1),
            decreases self.entries.len() - i,
        {
            out.push(self.entries[i].1);
            i = i + 1;
            assert(out@ =~= Seq::new(i as nat, |i: int| old(self).entries@[i].1));
        }
        self.entries = Vec::new();
        out
    }
}

proof fn lemma_cached<V>(entries: Seq<(String, V)>, i: int)
    requires
        0 <= i < entries.len(),
    ensures
        cached(entries).contains_key(entries[i].0@),
    decreases entries.len(),
{
    if i < entries.len() - 1 {
        lemma_cached(entries.drop_last(), i);
    }
}

/// What a cache has for a text: nothing is made for no text at all, what was made already is used
/// again, and otherwise it is to be made, after what had to go is gone.
#[derive(Debug, Clone, PartialEq, Eq)]
pub enum Lookup<V> {
    Nothing,
    Have(V),
    Make(Vec<V>),
}

/// What looking for a text gives, and does to the cache. Where it has to be made, and the cache
/// already holds more than it may, everything in it is let go first: dropping the cache is cheaper
/// than tracking ages, and the visible cost is one rebuild of each that is still wanted.
pub open spec fn looked<V: Copy>(
    before: Cache<V>,
    after: Cache<V>,
    text: Seq<char>,
    most: int,
    out: Lookup<V>,
) -> bool {
    match out {
        Lookup::Nothing => text.len() == 0 && after == before,
        Lookup::Have(value) => {
            &&& text.len() > 0
            &&& before.map().contains_key(text)
            &&& value == before.map()[text]
            &&& after == before
        },
        Lookup::Make(gone) => {
            &&& text.len() > 0
            &&& !before.map().contains_key(text)
            &&& !after.map().contains_key(text)
            &&& before.entries@.len() > most ==> after.entries@.len() == 0 && gone@ == Seq::new(
                before.entries@.len(),
                |i: int| before.entries@[i].1,
            )
            &&& before.entries@.len() <= most ==> after == before && gone@.len() == 0
        },
    }
}

impl<V: Copy> Cache<V> {
    /// Look for what was made for a text.
    pub fn look(&mut self, text: &str, most: usize) -> (out: Lookup<V>)
        requires
            old(self).wf(),
        ensures
            final(self).wf(),
            looked(*old(self), *final(self), text@, most as int, out),
    {
        if text.unicode_len() == 0 {
            return Lookup::Nothing;
        }
        match self.get(text) {
            Some(value) => Lookup::Have(value),
            None => Lookup::Make(
                if self.entries.len() > most {
                    self.clear()
                } else {
                    Vec::new()
                },
            ),
        }
    }
}

/// A cache never grows without limit: where it holds no more than one over what it may, it holds no
/// more than that once the next thing is made and kept.
pub proof fn a_cache_stays_small<V: Copy>(
    before: Cache<V>,
    after: Cache<V>,
    text: Seq<char>,
    most: int,
    out: Lookup<V>,
)
    requires
        0 <= most,
        before.entries@.len() <= most + 1,
        looked(before, after, text, most, out),
        out is Make,
    ensures
        after.entries@.len() + 1 <= most + 1,
{
}

/// What is under a text is the last thing that was put there, and nothing is under one that nothing
/// was put under.
pub proof fn the_last_thing_put_there_is_there<V>(entries: Seq<(String, V)>, text: Seq<char>, at: int)
    ensures
        0 <= at < entries.len() && entries[at].0@ == text && (forall|i: int|
            at < i < entries.len() ==> (#[trigger] entries[i]).0@ != text) ==> cached(
            entries,
        ).contains_key(text) && cached(entries)[text] == entries[at].1,
        (forall|i: int| 0 <= i < entries.len() ==> (#[trigger] entries[i]).0@ != text) ==> !cached(
            entries,
        ).contains_key(text),
    decreases entries.len(),
{
    if entries.len() > 0 {
        let fewer = entries.drop_last();
        the_last_thing_put_there_is_there(fewer, text, at);
        assert(entries.last() == entries[entries.len() - 1]);
        if forall|i: int| 0 <= i < entries.len() ==> (#[trigger] entries[i]).0@ != text {
            assert forall|i: int| 0 <= i < fewer.len() implies (#[trigger] fewer[i]).0@ != text by {
                assert(fewer[i] == entries[i]);
            }
            assert(entries[entries.len() - 1].0@ != text);
        }
        if 0 <= at < fewer.len() && entries[at].0@ == text && (forall|i: int|
            at < i < entries.len() ==> (#[trigger] entries[i]).0@ != text) {
            assert forall|i: int| at < i < fewer.len() implies (#[trigger] fewer[i]).0@ != text by {
                assert(fewer[i] == entries[i]);
            }
            assert(fewer[at] == entries[at]);
            assert(entries[entries.len() - 1].0@ != text);
        }
    }
}

/// What was made is used again and what was not is made: nothing is ever made twice while it is
/// there, nor made for no text, and looking for what is there lets nothing go.
pub proof fn what_was_made_is_used_again<V: Copy>(
    before: Cache<V>,
    after: Cache<V>,
    text: Seq<char>,
    most: int,
    out: Lookup<V>,
)
    requires
        looked(before, after, text, most, out),
    ensures
        text.len() == 0 <==> out is Nothing,
        text.len() > 0 && before.map().contains_key(text) ==> out == Lookup::Have(
            before.map()[text],
        ) && after == before,
        text.len() > 0 && !before.map().contains_key(text) ==> out is Make,
        before.entries@.len() <= most ==> after == before,
        out matches Lookup::Make(gone) ==> gone@.len() + after.entries@.len()
            == before.entries@.len(),
{
}

} // verus!
