//! A map from text to values, kept as a list of entries with distinct keys.

use vstd::prelude::*;
use crate::text::{self, text_eq};

verus! {

/// A map from text to values.
#[derive(Debug)]
pub struct TextMap<V> {
    entries: Vec<(String, V)>,
}

/// Whether some entry has that key.
pub open spec fn has_key<V>(entries: Seq<(String, V)>, key: Seq<char>) -> bool {
    exists|i: int| 0 <= i < entries.len() && (#[trigger] entries[i]).0@ == key
}

/// The place of the entry with that key.
pub open spec fn place<V>(entries: Seq<(String, V)>, key: Seq<char>) -> int {
    choose|i: int| 0 <= i < entries.len() && (#[trigger] entries[i]).0@ == key
}

/// Whether no two entries have the same key.
pub open spec fn distinct_keys<V>(entries: Seq<(String, V)>) -> bool {
    forall|i: int, j: int|
        0 <= i < j < entries.len() ==> (#[trigger] entries[i]).0@ != (#[trigger] entries[j]).0@
}

/// The map that a list of entries with distinct keys stands for.
pub open spec fn entries_map<V>(entries: Seq<(String, V)>) -> Map<Seq<char>, V> {
    Map::new(|k: Seq<char>| has_key(entries, k), |k: Seq<char>| entries[place(entries, k)].1)
}

impl<V> View for TextMap<V> {
    type V = Map<Seq<char>, V>;

    closed spec fn view(&self) -> Map<Seq<char>, V> {
        entries_map(self.entries@)
    }
}

proof fn lemma_place<V>(entries: Seq<(String, V)>, i: int)
    requires
        distinct_keys(entries),
        0 <= i < entries.len(),
    ensures
        has_key(entries, entries[i].0@),
        place(entries, entries[i].0@) == i,
{
    let k = entries[i].0@;
    let p = place(entries, k);
    assert(0 <= p < entries.len() && entries[p].0@ == k);
    if p < i {
        assert(entries[p].0@ != entries[i].0@);
    } else if i < p {
        assert(entries[i].0@ != entries[p].0@);
    }
}

/// A list of entries with distinct keys has as many keys as entries.
proof fn lemma_key_count<V>(entries: Seq<(String, V)>)
    requires
        distinct_keys(entries),
    ensures
        entries_map(entries).dom().finite(),
        entries_map(entries).dom().len() == entries.len(),
    decreases entries.len(),
{
    let keys = entries_map(entries).dom();
    if entries.len() == 0 {
        assert(keys =~= Set::<Seq<char>>::empty());
    } else {
        let rest = entries.drop_last();
        let key = entries.last().0@;
        lemma_key_count(rest);
        let fewer = entries_map(rest).dom();
        assert forall|k: Seq<char>| keys.contains(k) == fewer.insert(key).contains(k) by {
            if has_key(entries, k) {
                let i = place(entries, k);
                assert(i < rest.len() ==> rest[i].0@ == k);
            }
            if has_key(rest, k) {
                assert(entries[place(rest, k)].0@ == k);
            }
            if k == key {
                assert(entries[entries.len() - 1].0@ == k);
            }
        }
        assert(keys =~= fewer.insert(key));
        if has_key(rest, key) {
            assert(entries[place(rest, key)].0@ != entries[entries.len() - 1].0@);
        }
        assert(!fewer.contains(key));
    }
}

impl<V> TextMap<V> {
    /// No two entries have the same key.
    pub closed spec fn wf(self) -> bool {
        distinct_keys(self.entries@)
    }

    /// The empty map.
    pub fn new() -> (r: Self)
        ensures
            r.wf(),
            r@ == Map::<Seq<char>, V>::empty(),
    {
        let r = TextMap { entries: Vec::new() };
        assert(r@ =~= Map::<Seq<char>, V>::empty());
        r
    }

    fn find(&self, key: &str) -> (r: Option<usize>)
        requires
            self.wf(),
        ensures
            match r {
                Some(i) => i < self.entries@.len() && self.entries@[i as int].0@ == key@,
                None => !has_key(self.entries@, key@),
            },
    {
        let mut i: usize = 0;
        while i < self.entries.len()
            invariant
                i <= self.entries.len(),
                forall|j: int| 0 <= j < i ==> (#[trigger] self.entries@[j]).0@ != key@,
            decreases self.entries.len() - i,
        {
            if text_eq(self.entries[i].0.as_str(), key) {
                return Some(i);
            }
            i += 1;
        }
        None
    }

    /// The value under `key`.
    pub fn get(&self, key: &str) -> (r: Option<&V>)
        requires
            self.wf(),
        ensures
            match r {
                Some(v) => self@.contains_key(key@) && *v == self@[key@],
                None => !self@.contains_key(key@),
            },
    {
        match self.find(key) {
            Some(i) => {
                proof {
                    lemma_place(self.entries@, i as int);
                }
                Some(&self.entries[i].1)
            },
            None => None,
        }
    }

    /// How many keys the map has.
    pub fn len(&self) -> (r: usize)
        requires
            self.wf(),
        ensures
            self@.dom().finite(),
            r == self@.dom().len(),
    {
        proof {
            lemma_key_count(self.entries@);
        }
        self.entries.len()
    }

    /// Puts `value` under `key`, in place of what stood there.
    pub fn insert(&mut self, key: String, value: V)
        requires
            old(self).wf(),
        ensures
            final(self).wf(),
            final(self)@ == old(self)@.insert(key@, value),
    {
        let ghost before = self.entries@;
        match self.find(key.as_str()) {
            Some(i) => {
                self.entries.set(i, (key, value));
                proof {
                    let now = self.entries@;
                    assert forall|a: int, b: int| 0 <= a < b < now.len() implies (
                    #[trigger] now[a]).0@ != (#[trigger] now[b]).0@ by {
                        assert(before[a].0@ != before[b].0@);
                    }
                    lemma_same_places(before, now, i as int);
                    assert(self@ =~= entries_map(before).insert(key@, value));
                }
            },
            None => {
                self.entries.push((key, value));
                proof {
                    let now = self.entries@;
                    assert forall|a: int, b: int| 0 <= a < b < now.len() implies (
                    #[trigger] now[a]).0@ != (#[trigger] now[b]).0@ by {
                        if b < before.len() {
                            assert(before[a].0@ != before[b].0@);
                        } else {
                            assert(before[a].0@ != key@);
                        }
                    }
                    lemma_same_places_push(before, now);
                    assert(self@ =~= entries_map(before).insert(key@, value));
                }
            },
        }
    }

    /// Puts every entry of `other` into this map; where both have a key,
    /// `other` wins.
    pub fn absorb(&mut self, other: TextMap<V>)
        requires
            old(self).wf(),
            other.wf(),
        ensures
            final(self).wf(),
            final(self)@ == old(self)@.union_prefer_right(other@),
    {
        let mut rest = other.entries;
        let ghost start = self@;
        let ghost all = rest@;
        proof {
            assert(start.union_prefer_right(Map::<Seq<char>, V>::empty()) =~= start);
            assert(all.skip(all.len() as int) =~= Seq::empty());
            assert(entries_map(all.skip(all.len() as int)) =~= Map::<Seq<char>, V>::empty());
            assert(all.take(all.len() as int) =~= all);
        }
        while rest.len() > 0
            invariant
                self.wf(),
                distinct_keys(all),
                rest@.len() <= all.len(),
                rest@ == all.take(rest@.len() as int),
                self@ == start.union_prefer_right(entries_map(all.skip(rest@.len() as int))),
            decreases rest.len(),
        {
            let ghost n = rest@.len() as int;
            match rest.pop() {
                Some((key, value)) => {
                    let ghost done = all.skip(n);
                    let ghost next = all.skip(n - 1);
                    self.insert(key, value);
                    proof {
                        assert(rest@ =~= all.take(n - 1));
                        assert(next =~= seq![all[n - 1]] + done);
                        lemma_prepend(next, done);
                        assert(self@ =~= start.union_prefer_right(entries_map(next)));
                    }
                },
                None => {},
            }
        }
        assert(all.skip(0) =~= all);
    }
}

proof fn lemma_same_places<V>(before: Seq<(String, V)>, now: Seq<(String, V)>, i: int)
    requires
        distinct_keys(before),
        distinct_keys(now),
        before.len() == now.len(),
        0 <= i < now.len(),
        now == before.update(i, now[i]),
        now[i].0@ == before[i].0@,
    ensures
        forall|k: Seq<char>| has_key(now, k) == has_key(before, k),
        forall|k: Seq<char>|
            has_key(before, k) && k != now[i].0@ ==> #[trigger] entries_map(now)[k] == entries_map(
                before,
            )[k],
        entries_map(now)[now[i].0@] == now[i].1,
{
    assert forall|k: Seq<char>| has_key(now, k) == has_key(before, k) by {
        if has_key(before, k) {
            let p = place(before, k);
            assert(now[p].0@ == k);
        }
        if has_key(now, k) {
            let p = place(now, k);
            assert(before[p].0@ == k);
        }
    }
    assert forall|k: Seq<char>| has_key(before, k) && k != now[i].0@ implies #[trigger] entries_map(
        now,
    )[k] == entries_map(before)[k] by {
        let p = place(before, k);
        assert(before[p].0@ == k);
        lemma_place(before, p);
        assert(p != i);
        assert(now[p] == before[p]);
        lemma_place(now, p);
        assert(has_key(now, k));
    }
    lemma_place(now, i);
}

proof fn lemma_same_places_push<V>(before: Seq<(String, V)>, now: Seq<(String, V)>)
    requires
        distinct_keys(before),
        distinct_keys(now),
        now.len() == before.len() + 1,
        now == before.push(now.last()),
    ensures
        forall|k: Seq<char>|
            has_key(now, k) == (has_key(before, k) || k == now.last().0@),
        forall|k: Seq<char>|
            has_key(before, k) ==> #[trigger] entries_map(now)[k] == entries_map(before)[k],
        entries_map(now)[now.last().0@] == now.last().1,
{
    assert forall|k: Seq<char>| has_key(now, k) == (has_key(before, k) || k == now.last().0@) by {
        if has_key(before, k) {
            let p = place(before, k);
            assert(now[p].0@ == k);
        }
        if k == now.last().0@ {
            assert(now[now.len() - 1].0@ == k);
        }
        if has_key(now, k) {
            let p = place(now, k);
            if p < before.len() {
                assert(before[p].0@ == k);
            }
        }
    }
    assert forall|k: Seq<char>| has_key(before, k) implies #[trigger] entries_map(now)[k]
        == entries_map(before)[k] by {
        let p = place(before, k);
        assert(now[p] == before[p]);
        lemma_place(before, p);
        lemma_place(now, p);
        assert(has_key(now, k));
    }
    lemma_place(now, now.len() - 1);
}

proof fn lemma_prepend<V>(next: Seq<(String, V)>, done: Seq<(String, V)>)
    requires
        next.len() == done.len() + 1,
        next == seq![next[0]] + done,
        distinct_keys(next),
    ensures
        entries_map(next) == entries_map(done).insert(next[0].0@, next[0].1),
{
    assert forall|i: int| 0 <= i < done.len() implies #[trigger] done[i] == next[i + 1] by {}
    assert(distinct_keys(done));
    assert forall|k: Seq<char>| has_key(next, k) == (has_key(done, k) || k == next[0].0@) by {
        if has_key(done, k) {
            let p = place(done, k);
            assert(next[p + 1].0@ == k);
        }
        if k == next[0].0@ {
            assert(next[0].0@ == k);
        }
        if has_key(next, k) {
            let p = place(next, k);
            if p > 0 {
                assert(done[p - 1].0@ == k);
            }
        }
    }
    assert forall|k: Seq<char>| has_key(next, k) implies #[trigger] entries_map(next)[k]
        == entries_map(done).insert(next[0].0@, next[0].1)[k] by {
        if k == next[0].0@ {
            lemma_place(next, 0);
        } else {
            let p = place(done, k);
            assert(has_key(done, k));
            assert(done[p].0@ == k);
            lemma_place(done, p);
            lemma_place(next, p + 1);
        }
    }
    assert(entries_map(next) =~= entries_map(done).insert(next[0].0@, next[0].1));
}

/// Every entry is found under its key, with its own value, and nothing is found
/// under a key that no entry has.
pub proof fn law_entries_are_found_under_their_keys<V>(
    entries: Seq<(String, V)>,
    i: int,
    key: Seq<char>,
)
    requires
        distinct_keys(entries),
        0 <= i < entries.len(),
    ensures
        entries_map(entries).contains_key(entries[i].0@),
        entries_map(entries)[entries[i].0@] == entries[i].1,
        (forall|j: int| 0 <= j < entries.len() ==> (#[trigger] entries[j]).0@ != key)
            ==> !entries_map(entries).contains_key(key),
{
    lemma_place(entries, i);
}

} // verus!
