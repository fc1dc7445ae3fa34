//! A map from text to text that remembers the order in which its keys came.
//!
//! It holds query and form parameters, the bindings of a matched route, the
//! static routes of a server and the variables of a template. A key occurs
//! once; writing it again replaces its value and keeps its place.

use vstd::prelude::*;

verus! {

/// One entry of the model: a key and its value.
pub type Pair = (Seq<char>, Seq<char>);

/// The views of a run of entries.
pub open spec fn pair_texts(entries: Seq<(String, String)>) -> Seq<Pair> {
    Seq::new(entries.len(), |i: int| (entries[i].0@, entries[i].1@))
}

/// Whether some entry of `pairs` has the key `key`.
pub open spec fn has_key(pairs: Seq<Pair>, key: Seq<char>) -> bool {
    exists|i: int| 0 <= i < pairs.len() && (#[trigger] pairs[i]).0 == key
}

/// Whether no key occurs twice in `pairs`.
pub open spec fn distinct_keys(pairs: Seq<Pair>) -> bool {
    forall|i: int, j: int|
        0 <= i < j < pairs.len() ==> (#[trigger] pairs[i]).0 != (#[trigger] pairs[j]).0
}

/// The first place at which `key` stands in `pairs`, or `pairs.len()` if it
/// stands nowhere.
pub open spec fn key_index(pairs: Seq<Pair>, key: Seq<char>) -> int
    decreases pairs.len(),
{
    if pairs.len() == 0 {
        0
    } else {
        let i = key_index(pairs.drop_last(), key);
        if i < pairs.len() - 1 {
            i
        } else if pairs.last().0 == key {
            pairs.len() - 1
        } else {
            pairs.len() as int
        }
    }
}

/// `pairs` after `key` was set to `value`: the entry of `key` is replaced
/// where it stands, or a new entry is added at the end.
pub open spec fn put(pairs: Seq<Pair>, key: Seq<char>, value: Seq<char>) -> Seq<Pair> {
    let i = key_index(pairs, key);
    if i < pairs.len() {
        pairs.update(i, (key, value))
    } else {
        pairs.push((key, value))
    }
}

/// The map that `pairs` stands for: each entry written in order, so that of
/// two entries with one key the later one counts.
pub open spec fn map_of(pairs: Seq<Pair>) -> Map<Seq<char>, Seq<char>>
    decreases pairs.len(),
{
    if pairs.len() == 0 {
        Map::empty()
    } else {
        map_of(pairs.drop_last()).insert(pairs.last().0, pairs.last().1)
    }
}

/// `key_index` is the least place of the key.
pub proof fn lemma_key_index(pairs: Seq<Pair>, key: Seq<char>)
    ensures
        0 <= key_index(pairs, key) <= pairs.len(),
        key_index(pairs, key) < pairs.len() ==> pairs[key_index(pairs, key)].0 == key,
        forall|j: int| 0 <= j < key_index(pairs, key) ==> (#[trigger] pairs[j]).0 != key,
        key_index(pairs, key) < pairs.len() <==> has_key(pairs, key),
    decreases pairs.len(),
{
    if pairs.len() > 0 {
        let front = pairs.drop_last();
        lemma_key_index(front, key);
        let i = key_index(pairs, key);
        assert forall|j: int| 0 <= j < i implies (#[trigger] pairs[j]).0 != key by {
            if j < front.len() {
                assert(front[j] == pairs[j]);
            }
        }
        if i < pairs.len() {
            assert(pairs[i].0 == key);
        }
    }
}

/// The keys of `map_of(pairs)` are the keys of the entries.
pub proof fn lemma_map_of_keys(pairs: Seq<Pair>, key: Seq<char>)
    ensures
        map_of(pairs).contains_key(key) <==> has_key(pairs, key),
    decreases pairs.len(),
{
    if pairs.len() > 0 {
        let front = pairs.drop_last();
        lemma_map_of_keys(front, key);
        if has_key(front, key) {
            let i = choose|i: int| 0 <= i < front.len() && (#[trigger] front[i]).0 == key;
            assert(pairs[i] == front[i]);
        }
        if has_key(pairs, key) {
            let i = choose|i: int| 0 <= i < pairs.len() && (#[trigger] pairs[i]).0 == key;
            if i < front.len() {
                assert(front[i] == pairs[i]);
            }
        }
    }
}

/// Where no key occurs twice, each entry's key maps to that entry's value.
pub proof fn lemma_map_of_value(pairs: Seq<Pair>, i: int)
    requires
        distinct_keys(pairs),
        0 <= i < pairs.len(),
    ensures
        map_of(pairs).contains_key(pairs[i].0),
        map_of(pairs)[pairs[i].0] == pairs[i].1,
    decreases pairs.len(),
{
    let front = pairs.drop_last();
    if i < pairs.len() - 1 {
        assert forall|a: int, b: int| 0 <= a < b < front.len() implies (#[trigger] front[a]).0 != (
        #[trigger] front[b]).0 by {
            assert(front[a] == pairs[a] && front[b] == pairs[b]);
        }
        lemma_map_of_value(front, i);
        assert(front[i] == pairs[i]);
        assert(pairs[i].0 != pairs[pairs.len() - 1].0);
    }
}

/// Where no key occurs twice, the map has as many keys as there are entries.
pub proof fn lemma_map_of_len(pairs: Seq<Pair>)
    requires
        distinct_keys(pairs),
    ensures
        map_of(pairs).dom().finite(),
        map_of(pairs).dom().len() == pairs.len(),
    decreases pairs.len(),
{
    if pairs.len() > 0 {
        let front = pairs.drop_last();
        assert forall|a: int, b: int| 0 <= a < b < front.len() implies (#[trigger] front[a]).0 != (
        #[trigger] front[b]).0 by {
            assert(front[a] == pairs[a] && front[b] == pairs[b]);
        }
        lemma_map_of_len(front);
        lemma_map_of_keys(front, pairs.last().0);
        if has_key(front, pairs.last().0) {
            let i = choose|i: int| 0 <= i < front.len() && (#[trigger] front[i]).0 == pairs.last().0;
            assert(front[i] == pairs[i]);
            assert(pairs[i].0 != pairs[pairs.len() - 1].0);
        }
    }
}

/// Setting a key keeps the keys distinct and writes the key in the map.
pub proof fn lemma_put(pairs: Seq<Pair>, key: Seq<char>, value: Seq<char>)
    requires
        distinct_keys(pairs),
    ensures
        distinct_keys(put(pairs, key, value)),
        map_of(put(pairs, key, value)) == map_of(pairs).insert(key, value),
{
    lemma_key_index(pairs, key);
    let i = key_index(pairs, key);
    let after = put(pairs, key, value);
    if i < pairs.len() {
        assert forall|a: int, b: int| 0 <= a < b < after.len() implies (#[trigger] after[a]).0 != (
        #[trigger] after[b]).0 by {
            assert(after[a].0 == pairs[a].0 && after[b].0 == pairs[b].0);
        }
        assert forall|k: Seq<char>| map_of(after).contains_key(k) <==> map_of(pairs).insert(
            key,
            value,
        ).contains_key(k) by {
            lemma_map_of_keys(after, k);
            lemma_map_of_keys(pairs, k);
            if has_key(after, k) {
                let j = choose|j: int| 0 <= j < after.len() && (#[trigger] after[j]).0 == k;
                assert(pairs[j].0 == k);
            }
            if has_key(pairs, k) {
                let j = choose|j: int| 0 <= j < pairs.len() && (#[trigger] pairs[j]).0 == k;
                assert(after[j].0 == k);
            }
            if k == key {
                assert(after[i].0 == k);
            }
        }
        assert forall|k: Seq<char>| map_of(after).contains_key(k) implies map_of(after)[k] == map_of(
            pairs,
        ).insert(key, value)[k] by {
            lemma_map_of_keys(after, k);
            let j = choose|j: int| 0 <= j < after.len() && (#[trigger] after[j]).0 == k;
            lemma_map_of_value(after, j);
            if j != i {
                assert(after[j] == pairs[j]);
                lemma_map_of_value(pairs, j);
            }
        }
        assert(map_of(after) =~= map_of(pairs).insert(key, value));
    } else {
        assert(after.drop_last() =~= pairs);
        assert forall|a: int, b: int| 0 <= a < b < after.len() implies (#[trigger] after[a]).0 != (
        #[trigger] after[b]).0 by {
            assert(after[a] == pairs[a]);
            if b < pairs.len() {
                assert(after[b] == pairs[b]);
            }
        }
    }
}

/// The entries after the first `n` of `writes` were carried out in order. A
/// write sets a key to a value, as `put` does, or is `None` and does nothing.
pub open spec fn put_all(writes: Seq<Option<Pair>>, n: int) -> Seq<Pair>
    decreases n,
{
    if n <= 0 {
        Seq::<Pair>::empty()
    } else {
        let before = put_all(writes, n - 1);
        match writes[n - 1] {
            Some(pair) => put(before, pair.0, pair.1),
            None => before,
        }
    }
}

/// Whether one of the first `n` writes sets `key`.
pub open spec fn writes_key(writes: Seq<Option<Pair>>, n: int, key: Seq<char>) -> bool {
    exists|i: int| 0 <= i < n && (#[trigger] writes[i]) is Some && writes[i].unwrap().0 == key
}

/// Whether the write at place `i` is the last among the first `n` that sets
/// its key.
pub open spec fn is_last_write(writes: Seq<Option<Pair>>, n: int, i: int) -> bool {
    0 <= i < n && writes[i] is Some && forall|j: int|
        i < j < n && (#[trigger] writes[j]) is Some ==> writes[j].unwrap().0 != writes[i].unwrap().0
}

/// What a run of writes leaves: no key stands twice, the keys are those that
/// some write sets, and each key has the value of the last write that sets
/// it.
pub proof fn lemma_put_all(writes: Seq<Option<Pair>>, n: int)
    requires
        0 <= n <= writes.len(),
    ensures
        distinct_keys(put_all(writes, n)),
        forall|key: Seq<char>| #[trigger]
            map_of(put_all(writes, n)).contains_key(key) <==> writes_key(writes, n, key),
        forall|i: int| #[trigger]
            is_last_write(writes, n, i) ==> map_of(put_all(writes, n))[writes[i].unwrap().0]
                == writes[i].unwrap().1,
    decreases n,
{
    if n > 0 {
        lemma_put_all(writes, n - 1);
        let before = put_all(writes, n - 1);
        let now = put_all(writes, n);
        if writes[n - 1] is Some {
            lemma_put(before, writes[n - 1].unwrap().0, writes[n - 1].unwrap().1);
        }
        assert forall|key: Seq<char>| #[trigger]
            map_of(now).contains_key(key) <==> writes_key(writes, n, key) by {
            if writes_key(writes, n - 1, key) {
                let i = choose|i: int|
                    0 <= i < n - 1 && (#[trigger] writes[i]) is Some && writes[i].unwrap().0 == key;
                assert(0 <= i < n && writes[i] is Some && writes[i].unwrap().0 == key);
            }
            if writes_key(writes, n, key) {
                let i = choose|i: int|
                    0 <= i < n && (#[trigger] writes[i]) is Some && writes[i].unwrap().0 == key;
                if i < n - 1 {
                    assert(writes_key(writes, n - 1, key));
                }
            }
            if writes[n - 1] is Some && writes[n - 1].unwrap().0 == key {
                assert(writes_key(writes, n, key));
            }
        }
        assert forall|i: int| #[trigger] is_last_write(writes, n, i) implies map_of(
            now,
        )[writes[i].unwrap().0] == writes[i].unwrap().1 by {
            if i < n - 1 {
                assert(is_last_write(writes, n - 1, i));
                if writes[n - 1] is Some {
                    assert(writes[n - 1].unwrap().0 != writes[i].unwrap().0);
                }
            }
        }
    } else {
        assert forall|key: Seq<char>| !writes_key(writes, n, key) by {}
    }
}

/// An ordered map from text to text.
#[derive(Debug)]
pub struct StringMap {
    entries: Vec<(String, String)>,
}

impl View for StringMap {
    type V = Map<Seq<char>, Seq<char>>;

    /// The map as such, without the order of its keys.
    open spec fn view(&self) -> Map<Seq<char>, Seq<char>> {
        map_of(self.pairs())
    }
}

impl StringMap {
    #[verifier::type_invariant]
    spec fn keys_are_distinct(self) -> bool {
        distinct_keys(pair_texts(self.entries@))
    }

    /// The entries in the order in which their keys were first written.
    pub closed spec fn pairs(&self) -> Seq<Pair> {
        pair_texts(self.entries@)
    }

    /// An empty map.
    pub fn new() -> (m: StringMap)
        ensures
            m.pairs() == Seq::<Pair>::empty(),
            m@ == Map::<Seq<char>, Seq<char>>::empty(),
    {
        let m = StringMap { entries: Vec::new() };
        assert(m.pairs() =~= Seq::<Pair>::empty());
        m
    }

    /// The place of `key` among the entries, if it has one.
    fn locate(&self, key: &String) -> (found: Option<usize>)
        ensures
            match found {
                Some(i) => i == key_index(self.pairs(), key@) && i < self.pairs().len(),
                None => key_index(self.pairs(), key@) == self.pairs().len(),
            },
    {
        let mut i: usize = 0;
        while i < self.entries.len()
            invariant
                i <= self.entries@.len(),
                forall|j: int| 0 <= j < i ==> (#[trigger] self.pairs()[j]).0 != key@,
            decreases self.entries@.len() - i,
        {
            if self.entries[i].0 == *key {
                proof {
                    lemma_key_index(self.pairs(), key@);
                    assert(self.pairs()[i as int].0 == key@);
                }
                return Some(i);
            }
            i += 1;
        }
        proof {
            lemma_key_index(self.pairs(), key@);
        }
        None
    }

    /// Sets `key` to `value`. A key that is there keeps its place; a new one
    /// goes to the end.
    pub fn insert(&mut self, key: String, value: String)
        ensures
            final(self).pairs() == put(old(self).pairs(), key@, value@),
            final(self)@ == old(self)@.insert(key@, value@),
    {
        proof {
            use_type_invariant(&*self);
            lemma_put(self.pairs(), key@, value@);
        }
        let found = self.locate(&key);
        let ghost before = self.entries@;
        let mut entries: Vec<(String, String)> = Vec::new();
        core::mem::swap(&mut self.entries, &mut entries);
        match found {
            Some(i) => {
                entries.set(i, (key, value));
                assert(pair_texts(entries@) =~= put(pair_texts(before), key@, value@));
            },
            None => {
                entries.push((key, value));
                assert(pair_texts(entries@) =~= put(pair_texts(before), key@, value@));
            },
        }
        self.entries = entries;
    }

    /// The value of `key`, if it has one.
    pub fn get(&self, key: &str) -> (value: Option<&String>)
        ensures
            match value {
                Some(v) => self@.contains_key(key@) && v@ == self@[key@],
                None => !self@.contains_key(key@),
            },
    {
        let owned = key.to_owned();
        proof {
            use_type_invariant(self);
            lemma_key_index(self.pairs(), key@);
            lemma_map_of_keys(self.pairs(), key@);
        }
        match self.locate(&owned) {
            Some(i) => {
                proof {
                    lemma_map_of_value(self.pairs(), i as int);
                }
                Some(&self.entries[i].1)
            },
            None => None,
        }
    }

    /// Whether `key` has a value.
    pub fn contains_key(&self, key: &str) -> (b: bool)
        ensures
            b == self@.contains_key(key@),
    {
        self.get(key).is_some()
    }

    /// The number of keys. No key stands twice among the entries, so this is
    /// the number of entries as well.
    pub fn len(&self) -> (n: usize)
        ensures
            n == self.pairs().len(),
            n == self@.dom().len(),
            self@.dom().finite(),
            distinct_keys(self.pairs()),
    {
        proof {
            use_type_invariant(self);
            lemma_map_of_len(self.pairs());
        }
        self.entries.len()
    }

    /// Whether there is no key at all.
    pub fn is_empty(&self) -> (b: bool)
        ensures
            b == (self.pairs().len() == 0),
            b == (self@ == Map::<Seq<char>, Seq<char>>::empty()),
    {
        proof {
            use_type_invariant(self);
            lemma_map_of_len(self.pairs());
            if self.pairs().len() == 0 {
                assert(self@ =~= Map::<Seq<char>, Seq<char>>::empty());
            }
        }
        self.entries.len() == 0
    }

    /// The entry at place `i`, counted from 0 in the order of the keys, or
    /// `None` past the last one.
    pub fn entry(&self, i: usize) -> (found: Option<(&String, &String)>)
        ensures
            match found {
                Some((k, v)) => i < self.pairs().len() && self.pairs()[i as int] == (k@, v@),
                None => i >= self.pairs().len(),
            },
    {
        if i < self.entries.len() {
            Some((&self.entries[i].0, &self.entries[i].1))
        } else {
            None
        }
    }
}

impl Clone for StringMap {
    /// A copy with the same entries in the same order.
    fn clone(&self) -> (copy: Self)
        ensures
            copy.pairs() == self.pairs(),
            copy@ == self@,
    {
        proof {
            use_type_invariant(self);
        }
        let mut entries: Vec<(String, String)> = Vec::new();
        let mut i: usize = 0;
        while i < self.entries.len()
            invariant
                i <= self.entries@.len(),
                entries@.len() == i,
                forall|j: int| 0 <= j < i ==> entries@[j] == self.entries@[j],
            decreases self.entries@.len() - i,
        {
            entries.push((self.entries[i].0.clone(), self.entries[i].1.clone()));
            i += 1;
        }
        assert(entries@ =~= self.entries@);
        StringMap { entries }
    }
}

} // verus!
