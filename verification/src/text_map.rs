//! A small map with texts as keys.

use vstd::prelude::*;
use vstd::string::*;

use crate::text::str_eq;

verus! {

/// A map with texts as keys.
#[derive(Debug)]
pub struct TextMap<V> {
    entries: Vec<(String, V)>,
}

/// The map that entries make; a later one wins over an earlier.
pub open spec fn map_of<V>(es: Seq<(String, V)>) -> Map<Seq<char>, V>
    decreases es.len(),
{
    if es.len() == 0 {
        Map::empty()
    } else {
        map_of(es.drop_last()).insert(es.last().0@, es.last().1)
    }
}

/// No key stands twice.
pub open spec fn keys_distinct<V>(es: Seq<(String, V)>) -> bool {
    forall|i: int, j: int| 0 <= i < j < es.len() ==> (#[trigger] es[i]).0@ != (#[trigger] es[j]).0@
}

/// What entries with distinct keys hold.
proof fn lemma_map_of<V>(es: Seq<(String, V)>)
    requires
        keys_distinct(es),
    ensures
        forall|i: int|
            0 <= i < es.len() ==> map_of(es).dom().contains((#[trigger] es[i]).0@) && map_of(
                es,
            )[es[i].0@] == es[i].1,
        forall|k: Seq<char>| #[trigger]
            map_of(es).dom().contains(k) ==> exists|i: int|
                0 <= i < es.len() && (#[trigger] es[i]).0@ == k,
        map_of(es).dom().finite(),
        map_of(es).dom().len() == es.len(),
    decreases es.len(),
{
    if es.len() > 0 {
        let rest = es.drop_last();
        assert(keys_distinct(rest)) by {
            assert forall|i: int, j: int| 0 <= i < j < rest.len() implies (#[trigger] rest[i]).0@
                != (#[trigger] rest[j]).0@ by {
                assert(es[i].0@ != es[j].0@);
            }
        }
        lemma_map_of(rest);
        assert forall|i: int| 0 <= i < es.len() implies map_of(es).dom().contains(
            (#[trigger] es[i]).0@,
        ) && map_of(es)[es[i].0@] == es[i].1 by {
            if i < rest.len() {
                assert(rest[i] == es[i]);
                assert(es[i].0@ != es[es.len() - 1].0@);
            }
        }
        assert forall|k: Seq<char>| #[trigger] map_of(es).dom().contains(k) implies exists|i: int|
            0 <= i < es.len() && (#[trigger] es[i]).0@ == k by {
            if k == es.last().0@ {
                assert(es[es.len() - 1].0@ == k);
            } else {
                assert(map_of(rest).dom().contains(k));
                let i = choose|i: int| 0 <= i < rest.len() && (#[trigger] rest[i]).0@ == k;
                assert(es[i].0@ == k);
            }
        }
        assert(!map_of(rest).dom().contains(es.last().0@)) by {
            if map_of(rest).dom().contains(es.last().0@) {
                let i = choose|i: int|
                    0 <= i < rest.len() && (#[trigger] rest[i]).0@ == es.last().0@;
                assert(es[i].0@ != es[es.len() - 1].0@);
            }
        }
        assert(map_of(es).dom() =~= map_of(rest).dom().insert(es.last().0@));
    } else {
        assert(map_of(es).dom() =~= Set::<Seq<char>>::empty());
    }
}

impl<V> View for TextMap<V> {
    type V = Map<Seq<char>, V>;

    closed spec fn view(&self) -> Map<Seq<char>, V> {
        map_of(self.entries@)
    }
}

impl<V> TextMap<V> {
    /// No key stands twice.
    #[verifier::type_invariant]
    spec fn distinct(&self) -> bool {
        keys_distinct(self.entries@)
    }

    /// The keys, in the order in which they came.
    pub closed spec fn keys(&self) -> Seq<Seq<char>> {
        Seq::new(self.entries@.len(), |i: int| self.entries@[i].0@)
    }

    /// A map without entries.
    pub fn new() -> (m: Self)
        ensures
            m@ == Map::<Seq<char>, V>::empty(),
    {
        TextMap { entries: Vec::new() }
    }

    /// Where `key` stands.
    fn position(&self, key: &str) -> (r: Option<usize>)
        ensures
            match r {
                Some(i) => i < self.entries@.len() && self.entries@[i as int].0@ == key@
                    && self@.dom().contains(key@) && self@[key@] == self.entries@[i as int].1,
                None => !self@.dom().contains(key@),
            },
    {
        proof {
            use_type_invariant(self);
            lemma_map_of(self.entries@);
        }
        let mut i: usize = 0;
        while i < self.entries.len()
            invariant
                i <= self.entries@.len(),
                keys_distinct(self.entries@),
                forall|j: int| 0 <= j < i ==> (#[trigger] self.entries@[j]).0@ != key@,
            decreases self.entries@.len() - i,
        {
            if str_eq(self.entries[i].0.as_str(), key) {
                proof {
                    lemma_map_of(self.entries@);
                    assert(self.entries@[i as int].0@ == key@);
                }
                return Some(i);
            }
            i = i + 1;
        }
        None
    }

    /// The value of `key`.
    pub fn get(&self, key: &str) -> (r: Option<&V>)
        ensures
            match r {
                Some(v) => self@.dom().contains(key@) && self@[key@] == *v,
                None => !self@.dom().contains(key@),
            },
    {
        match self.position(key) {
            Some(i) => Some(&self.entries[i].1),
            None => None,
        }
    }

    /// Gives `key` the value `value`.
    pub fn insert(&mut self, key: String, value: V)
        ensures
            final(self)@ == old(self)@.insert(key@, value),
    {
        let at = self.position(key.as_str());
        let mut m = TextMap::new();
        std::mem::swap(self, &mut m);
        proof {
            use_type_invariant(&m);
            lemma_map_of(m.entries@);
        }
        let ghost before = m.entries@;
        let ghost entry = (key, value);
        let mut entries = m.entries;
        match at {
            Some(i) => {
                entries.set(i, (key, value));
                proof {
                    let after = entries@;
                    assert forall|a: int, b: int| 0 <= a < b < after.len() implies (
                    #[trigger] after[a]).0@ != (#[trigger] after[b]).0@ by {
                        assert(before[a].0@ != before[b].0@);
                    }
                    lemma_map_of(after);
                    lemma_same(before, after, i as int);
                    assert(map_of(after) =~= map_of(before).insert(entry.0@, entry.1));
                }
            },
            None => {
                entries.push((key, value));
                proof {
                    let after = entries@;
                    assert(after.drop_last() =~= before);
                    assert forall|a: int, b: int| 0 <= a < b < after.len() implies (
                    #[trigger] after[a]).0@ != (#[trigger] after[b]).0@ by {
                        if b == before.len() {
                            assert(map_of(before).dom().contains(before[a].0@));
                        } else {
                            assert(before[a].0@ != before[b].0@);
                        }
                    }
                }
            },
        }
        *self = TextMap { entries };
    }

    /// How many keys there are. The keys listed are those of the map.
    pub fn len(&self) -> (n: usize)
        ensures
            self@.dom().finite(),
            n == self@.dom().len(),
            n == self.keys().len(),
            forall|k: Seq<char>| #[trigger]
                self@.dom().contains(k) <==> exists|i: int|
                    0 <= i < self.keys().len() && #[trigger] self.keys()[i] == k,
    {
        proof {
            use_type_invariant(self);
            lemma_map_of(self.entries@);
            assert forall|k: Seq<char>| #[trigger] self@.dom().contains(k) <==> exists|i: int|
                0 <= i < self.keys().len() && #[trigger] self.keys()[i] == k by {
                if self@.dom().contains(k) {
                    let i = choose|i: int|
                        0 <= i < self.entries@.len() && (#[trigger] self.entries@[i]).0@ == k;
                    assert(self.keys()[i] == k);
                }
                if exists|i: int| 0 <= i < self.keys().len() && #[trigger] self.keys()[i] == k {
                    let i = choose|i: int|
                        0 <= i < self.keys().len() && #[trigger] self.keys()[i] == k;
                    assert(self.entries@[i].0@ == k);
                }
            }
        }
        self.entries.len()
    }

    /// The key at `i`.
    pub fn key_at(&self, i: usize) -> (k: &String)
        requires
            i < self.keys().len(),
        ensures
            k@ == self.keys()[i as int],
    {
        &self.entries[i].0
    }
}

/// Entries that differ in one value have the same other values.
proof fn lemma_same<V>(a: Seq<(String, V)>, b: Seq<(String, V)>, i: int)
    requires
        0 <= i < a.len(),
        b.len() == a.len(),
        keys_distinct(a),
        keys_distinct(b),
        b[i].0@ == a[i].0@,
        forall|j: int| 0 <= j < a.len() && j != i ==> #[trigger] b[j] == a[j],
    ensures
        map_of(b) == map_of(a).insert(b[i].0@, b[i].1),
{
    lemma_map_of(a);
    lemma_map_of(b);
    let want = map_of(a).insert(b[i].0@, b[i].1);
    assert forall|k: Seq<char>| #![trigger map_of(b).dom().contains(k)] #![trigger want[k]]
        map_of(b).dom().contains(k) == want.dom().contains(k) && (map_of(b).dom().contains(k)
            ==> map_of(b)[k] == want[k]) by {
        if map_of(b).dom().contains(k) {
            let j = choose|j: int| 0 <= j < b.len() && (#[trigger] b[j]).0@ == k;
            if j != i {
                assert(b[j] == a[j]);
                assert(map_of(a).dom().contains(a[j].0@));
                if j < i {
                    assert(b[j].0@ != b[i].0@);
                } else {
                    assert(b[i].0@ != b[j].0@);
                }
            }
        }
        if want.dom().contains(k) && k != b[i].0@ {
            let j = choose|j: int| 0 <= j < a.len() && (#[trigger] a[j]).0@ == k;
            assert(j != i);
            assert(b[j] == a[j]);
        }
    }
    assert(map_of(b).dom() =~= want.dom());
    assert(map_of(b) =~= want);
}

} // verus!
