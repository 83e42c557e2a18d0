//! Values under text keys.

use vstd::prelude::*;
use crate::text::same;

verus! {

/// Values under text keys, each key once.
#[derive(Debug, PartialEq, Eq)]
pub struct Assoc<V> {
    pub entries: Vec<(String, V)>,
}

/// What a list of keys and values stands for; a later entry wins.
pub open spec fn map_of<V>(entries: Seq<(String, V)>) -> Map<Seq<char>, V>
    decreases entries.len(),
{
    if entries.len() == 0 {
        Map::empty()
    } else {
        map_of(entries.drop_last()).insert(entries.last().0@, entries.last().1)
    }
}

/// Whether no key occurs twice.
pub open spec fn unique<V>(entries: Seq<(String, V)>) -> bool {
    forall|i: int, j: int|
        #![trigger entries[i], entries[j]]
        0 <= i < j < entries.len() ==> entries[i].0@ != entries[j].0@
}

/// A list without repeated keys holds what its entries say and nothing else.
proof fn lemma_map_of<V>(entries: Seq<(String, V)>)
    requires
        unique(entries),
    ensures
        forall|i: int|
            #![trigger entries[i]]
            0 <= i < entries.len() ==> map_of(entries).contains_key(entries[i].0@)
                && map_of(entries)[entries[i].0@] == entries[i].1,
        forall|k: Seq<char>| #[trigger]
            map_of(entries).contains_key(k) ==> exists|i: int|
                0 <= i < entries.len() && k == (#[trigger] entries[i]).0@,
    decreases entries.len(),
{
    if entries.len() > 0 {
        let front = entries.drop_last();
        assert(unique(front)) by {
            assert forall|i: int, j: int|
                #![trigger front[i], front[j]]
                0 <= i < j < front.len() implies front[i].0@ != front[j].0@ by {
                assert(entries[i].0@ != entries[j].0@);
            }
        }
        lemma_map_of(front);
        assert forall|i: int|
            #![trigger entries[i]]
            0 <= i < entries.len() implies map_of(entries).contains_key(entries[i].0@) && map_of(
            entries,
        )[entries[i].0@] == entries[i].1 by {
            if i < entries.len() - 1 {
                assert(front[i] == entries[i]);
                assert(entries[i].0@ != entries[entries.len() - 1].0@);
            }
        }
        assert forall|k: Seq<char>| #[trigger] map_of(entries).contains_key(k) implies exists|
            i: int,
        |
            0 <= i < entries.len() && k == (#[trigger] entries[i]).0@ by {
            if k == entries.last().0@ {
                assert(entries[entries.len() - 1].0@ == k);
            } else {
                assert(map_of(front).contains_key(k));
                let i = choose|i: int| 0 <= i < front.len() && k == (#[trigger] front[i]).0@;
                assert(entries[i] == front[i]);
            }
        }
    }
}

impl<V> View for Assoc<V> {
    type V = Map<Seq<char>, V>;

    open spec fn view(&self) -> Map<Seq<char>, V> {
        map_of(self.entries@)
    }
}

impl<V> Assoc<V> {
    /// Each key occurs once.
    pub open spec fn valid(self) -> bool {
        unique(self.entries@)
    }

    /// No values.
    pub fn new() -> (r: Assoc<V>)
        ensures
            r.valid(),
            r@ == Map::<Seq<char>, V>::empty(),
    {
        Assoc { entries: Vec::new() }
    }

    /// Where a key stands, or the number of keys.
    fn find(&self, key: &str) -> (r: usize)
        requires
            self.valid(),
        ensures
            r <= self.entries@.len(),
            r < self.entries@.len() ==> self.entries@[r as int].0@ == key@ && self@.contains_key(
                key@,
            ) && self@[key@] == self.entries@[r as int].1,
            r == self.entries@.len() ==> !self@.contains_key(key@),
            forall|i: int| 0 <= i < r ==> (#[trigger] self.entries@[i]).0@ != key@,
    {
        let mut i: usize = 0;
        while i < self.entries.len()
            invariant
                i <= self.entries@.len(),
                self.valid(),
                forall|j: int| 0 <= j < i ==> (#[trigger] self.entries@[j]).0@ != key@,
            decreases self.entries@.len() - i,
        {
            if same(self.entries[i].0.as_str(), key) {
                proof {
                    lemma_map_of(self.entries@);
                }
                return i;
            }
            i += 1;
        }
        proof {
            lemma_map_of(self.entries@);
        }
        i
    }

    /// The value under a key.
    pub fn get(&self, key: &str) -> (r: Option<&V>)
        requires
            self.valid(),
        ensures
            match r {
                Some(v) => self@.contains_key(key@) && self@[key@] == *v,
                None => !self@.contains_key(key@),
            },
    {
        let i = self.find(key);
        if i < self.entries.len() {
            Some(&self.entries[i].1)
        } else {
            None
        }
    }

    /// Puts a value under a key, in place of the one that was there.
    pub fn insert(&mut self, key: String, value: V)
        requires
            old(self).valid(),
        ensures
            final(self).valid(),
            final(self)@ == old(self)@.insert(key@, value),
    {
        self.remove(key.as_str());
        let ghost before = self.entries@;
        let ghost k = key@;
        proof {
            lemma_map_of(before);
        }
        self.entries.push((key, value));
        proof {
            assert(self.entries@.drop_last() =~= before);
            assert forall|i: int, j: int|
                #![trigger self.entries@[i], self.entries@[j]]
                0 <= i < j < self.entries@.len() implies self.entries@[i].0@
                != self.entries@[j].0@ by {
                assert(self.entries@[i] == before[i]);
                if j == before.len() {
                    assert(map_of(before).contains_key(before[i].0@));
                } else {
                    assert(self.entries@[j] == before[j]);
                }
            }
            assert(self@ =~= old(self)@.insert(k, value));
        }
    }

    /// Removes the value under a key, where there is one.
    pub fn remove(&mut self, key: &str)
        requires
            old(self).valid(),
        ensures
            final(self).valid(),
            final(self)@ == old(self)@.remove(key@),
    {
        let i = self.find(key);
        let ghost before = self.entries@;
        proof {
            lemma_map_of(before);
        }
        if i < self.entries.len() {
            self.entries.remove(i);
            proof {
                let after = self.entries@;
                assert forall|a: int, b: int|
                    #![trigger after[a], after[b]]
                    0 <= a < b < after.len() implies after[a].0@ != after[b].0@ by {
                    let x = if a < i {
                        a
                    } else {
                        a + 1
                    };
                    let y = if b < i {
                        b
                    } else {
                        b + 1
                    };
                    assert(after[a] == before[x] && after[b] == before[y]);
                }
                lemma_map_of(after);
                assert forall|k: Seq<char>| map_of(after).contains_key(k) <==> #[trigger] map_of(
                    before,
                ).remove(key@).contains_key(k) by {
                    if map_of(after).contains_key(k) {
                        let a = choose|a: int| 0 <= a < after.len() && k == (#[trigger] after[a]).0@;
                        let x = if a < i {
                            a
                        } else {
                            a + 1
                        };
                        assert(after[a] == before[x]);
                        assert(before[x].0@ != before[i as int].0@);
                    }
                    if map_of(before).remove(key@).contains_key(k) {
                        let x = choose|x: int|
                            0 <= x < before.len() && k == (#[trigger] before[x]).0@;
                        assert(x != i);
                        let a = if x < i {
                            x
                        } else {
                            x - 1
                        };
                        assert(after[a] == before[x]);
                    }
                }
                assert forall|k: Seq<char>| #[trigger]
                    map_of(after).contains_key(k) implies map_of(after)[k] == map_of(
                    before,
                ).remove(key@)[k] by {
                    let a = choose|a: int| 0 <= a < after.len() && k == (#[trigger] after[a]).0@;
                    let x = if a < i {
                        a
                    } else {
                        a + 1
                    };
                    assert(after[a] == before[x]);
                    assert(map_of(before)[before[x].0@] == before[x].1);
                }
                assert(map_of(after) =~= map_of(before).remove(key@));
            }
        } else {
            assert(self@ =~= old(self)@.remove(key@));
        }
    }
}

} // verus!
