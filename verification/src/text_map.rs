//! An insertion-ordered map keyed by text.
//!
//! The graph keeps its name index, its file index and its language histogram
//! in such maps. Keys are compared by their characters; every key occurs
//! once, and keys stay in the order in which they first arrived, so a walk
//! over a map is repeatable.
use vstd::prelude::*;
use crate::text::str_eq;

verus! {

/// A map from text to `V` that remembers the order in which keys arrived.
#[derive(Debug)]
pub struct TextMap<V> {
    entries: Vec<(String, V)>,
}

/// The name index and the file index: identifiers listed under a text key.
pub type IdIndex = TextMap<Vec<u128>>;

/// A histogram: a count for each text key.
pub type Histogram = TextMap<usize>;

/// The keys of a list of entries, in order.
spec fn keys_of<V>(entries: Seq<(String, V)>) -> Seq<Seq<char>> {
    Seq::new(entries.len(), |i: int| entries[i].0@)
}

/// The values of a list of entries, in order.
spec fn values_of<V>(entries: Seq<(String, V)>) -> Seq<V> {
    Seq::new(entries.len(), |i: int| entries[i].1)
}

/// The map that sends each of `keys` to the value at its position.
pub open spec fn map_of<V>(keys: Seq<Seq<char>>, values: Seq<V>) -> Map<Seq<char>, V> {
    Map::new(|k: Seq<char>| keys.contains(k), |k: Seq<char>| values[keys.index_of(k)])
}

/// With distinct keys, `map_of` holds exactly the listed pairs.
pub proof fn lemma_map_of<V>(keys: Seq<Seq<char>>, values: Seq<V>)
    requires
        keys.no_duplicates(),
        keys.len() == values.len(),
    ensures
        map_of(keys, values).dom() == keys.to_set(),
        map_of(keys, values).dom().finite(),
        map_of(keys, values).dom().len() == keys.len(),
        forall|i: int|
            0 <= i < keys.len() ==> map_of(keys, values).contains_key(#[trigger] keys[i]) && map_of(
                keys,
                values,
            )[keys[i]] == values[i],
{
    assert(map_of(keys, values).dom() =~= keys.to_set());
    keys.unique_seq_to_set();
    assert forall|i: int| 0 <= i < keys.len() implies map_of(keys, values).contains_key(
        #[trigger] keys[i],
    ) && map_of(keys, values)[keys[i]] == values[i] by {
        let j = keys.index_of(keys[i]);
        assert(keys[j] == keys[i]);
    }
}

/// Appending a pair with a fresh key inserts it.
pub proof fn lemma_map_of_push<V>(keys: Seq<Seq<char>>, values: Seq<V>, k: Seq<char>, v: V)
    requires
        keys.no_duplicates(),
        keys.len() == values.len(),
        !keys.contains(k),
    ensures
        keys.push(k).no_duplicates(),
        map_of(keys.push(k), values.push(v)) == map_of(keys, values).insert(k, v),
{
    let keys2 = keys.push(k);
    let values2 = values.push(v);
    assert forall|i: int, j: int| 0 <= i < keys2.len() && 0 <= j < keys2.len() && i != j implies keys2[i]
        != keys2[j] by {
        if i < keys.len() {
            assert(keys.contains(keys[i]));
        }
        if j < keys.len() {
            assert(keys.contains(keys[j]));
        }
    }
    lemma_map_of(keys, values);
    lemma_map_of(keys2, values2);
    let a = map_of(keys2, values2);
    let b = map_of(keys, values).insert(k, v);
    assert forall|x: Seq<char>| a.contains_key(x) <==> b.contains_key(x) by {
        if keys2.contains(x) {
            let i = keys2.index_of(x);
            assert(keys2[i] == x);
            if i < keys.len() {
                assert(keys[i] == x);
            }
        }
        if keys.contains(x) {
            let i = keys.index_of(x);
            assert(keys2[i] == x);
        }
        if x == k {
            assert(keys2[keys.len() as int] == k);
        }
    }
    assert forall|x: Seq<char>| a.contains_key(x) implies a[x] == b[x] by {
        let i = keys2.index_of(x);
        assert(keys2[i] == x);
        assert(a[keys2[i]] == values2[i]);
        if i < keys.len() {
            assert(keys[i] == x);
            assert(map_of(keys, values)[keys[i]] == values[i]);
        }
    }
    assert(a =~= b);
}

/// Replacing the value at a position replaces the value of that key.
pub proof fn lemma_map_of_update<V>(keys: Seq<Seq<char>>, values: Seq<V>, i: int, v: V)
    requires
        keys.no_duplicates(),
        keys.len() == values.len(),
        0 <= i < keys.len(),
    ensures
        map_of(keys, values.update(i, v)) == map_of(keys, values).insert(keys[i], v),
{
    let values2 = values.update(i, v);
    lemma_map_of(keys, values);
    lemma_map_of(keys, values2);
    let a = map_of(keys, values2);
    let b = map_of(keys, values).insert(keys[i], v);
    assert(keys.contains(keys[i]));
    assert forall|x: Seq<char>| a.contains_key(x) implies a[x] == b[x] by {
        let j = keys.index_of(x);
        assert(keys[j] == x);
        assert(a[keys[j]] == values2[j]);
        assert(map_of(keys, values)[keys[j]] == values[j]);
    }
    assert(a =~= b);
}

impl<V> TextMap<V> {
    /// The keys in the order in which they arrived.
    pub closed spec fn key_seq(&self) -> Seq<Seq<char>> {
        keys_of(self.entries@)
    }

    /// The values, each at the position of its key in `key_seq`.
    pub closed spec fn value_seq(&self) -> Seq<V> {
        values_of(self.entries@)
    }

    /// No key occurs twice.
    #[verifier::type_invariant]
    pub closed spec fn wf(&self) -> bool {
        self.key_seq().no_duplicates()
    }

    /// The map as a mathematical map from characters to values.
    pub open spec fn view(&self) -> Map<Seq<char>, V> {
        map_of(self.key_seq(), self.value_seq())
    }

    /// What well-formedness gives: keys and values run in parallel, the keys
    /// are distinct, and the map holds exactly the listed pairs.
    pub proof fn lemma_wf(&self)
        requires
            self.wf(),
        ensures
            self.key_seq().no_duplicates(),
            self.key_seq().len() == self.value_seq().len(),
            self@.dom() == self.key_seq().to_set(),
            self@.dom().finite(),
            self@.dom().len() == self.key_seq().len(),
            forall|i: int|
                0 <= i < self.key_seq().len() ==> self@.contains_key(#[trigger] self.key_seq()[i])
                    && self@[self.key_seq()[i]] == self.value_seq()[i],
    {
        lemma_map_of(self.key_seq(), self.value_seq());
    }

    /// An empty map.
    pub fn new() -> (m: Self)
        ensures
            m.key_seq() == Seq::<Seq<char>>::empty(),
            m@ == Map::<Seq<char>, V>::empty(),
            m.wf(),
    {
        let m = TextMap { entries: Vec::new() };
        assert(m.key_seq() =~= Seq::<Seq<char>>::empty());
        assert(m@ =~= Map::<Seq<char>, V>::empty());
        m
    }

    /// The number of keys.
    pub fn len(&self) -> (n: usize)
        ensures
            n == self.key_seq().len(),
            n == self@.dom().len(),
    {
        proof {
            use_type_invariant(self);
            self.lemma_wf();
        }
        self.entries.len()
    }

    /// Whether the map holds no key.
    pub fn is_empty(&self) -> (b: bool)
        ensures
            b == (self.key_seq().len() == 0),
            b == (self@ == Map::<Seq<char>, V>::empty()),
    {
        proof {
            use_type_invariant(self);
            self.lemma_wf();
            if self.key_seq().len() == 0 {
                assert(self@ =~= Map::<Seq<char>, V>::empty());
            } else {
                assert(self@.contains_key(self.key_seq()[0]));
            }
        }
        self.entries.len() == 0
    }

    /// The position of `key` among the keys, if it is one.
    pub fn position(&self, key: &str) -> (r: Option<usize>)
        ensures
            match r {
                Some(i) => i < self.key_seq().len() && self.key_seq()[i as int] == key@,
                None => !self.key_seq().contains(key@),
            },
    {
        let mut i: usize = 0;
        while i < self.entries.len()
            invariant
                i <= self.entries@.len(),
                forall|j: int| 0 <= j < i ==> self.key_seq()[j] != key@,
            decreases self.entries@.len() - i,
        {
            if str_eq(self.entries[i].0.as_str(), key) {
                return Some(i);
            }
            i += 1;
        }
        None
    }

    /// Whether `key` is in the map.
    pub fn contains_key(&self, key: &str) -> (b: bool)
        ensures
            b == self@.contains_key(key@),
    {
        self.position(key).is_some()
    }

    /// The value under `key`, if there is one.
    pub fn get(&self, key: &str) -> (r: Option<&V>)
        ensures
            match r {
                Some(v) => self@.contains_key(key@) && *v == self@[key@],
                None => !self@.contains_key(key@),
            },
    {
        proof {
            use_type_invariant(self);
            self.lemma_wf();
        }
        match self.position(key) {
            Some(i) => Some(&self.entries[i].1),
            None => None,
        }
    }

    /// The key at position `i`.
    pub fn key_at(&self, i: usize) -> (k: &String)
        requires
            i < self.key_seq().len(),
        ensures
            k@ == self.key_seq()[i as int],
    {
        &self.entries[i].0
    }

    /// The value at position `i`.
    pub fn value_at(&self, i: usize) -> (v: &V)
        requires
            i < self.key_seq().len(),
        ensures
            *v == self.value_seq()[i as int],
            self@.contains_key(self.key_seq()[i as int]),
            *v == self@[self.key_seq()[i as int]],
    {
        proof {
            use_type_invariant(self);
            self.lemma_wf();
        }
        &self.entries[i].1
    }

    /// Puts `value` under `key`. A new key goes to the end; a key that is
    /// already there keeps its place and gets the new value.
    pub fn insert(&mut self, key: String, value: V)
        ensures
            final(self)@ == old(self)@.insert(key@, value),
            final(self).key_seq() == if old(self)@.contains_key(key@) {
                old(self).key_seq()
            } else {
                old(self).key_seq().push(key@)
            },
            final(self).value_seq() == if old(self)@.contains_key(key@) {
                old(self).value_seq().update(old(self).key_seq().index_of(key@), value)
            } else {
                old(self).value_seq().push(value)
            },
    {
        proof {
            use_type_invariant(&*self);
            self.lemma_wf();
        }
        let ghost keys = self.key_seq();
        let ghost values = self.value_seq();
        let found = self.position(key.as_str());
        proof {
            if found is Some {
                let i = found->0 as int;
                let j = keys.index_of(key@);
                assert(keys[i] == key@);
                assert(keys.contains(key@));
                assert(keys[j] == key@);
            }
        }
        let mut entries: Vec<(String, V)> = Vec::new();
        std::mem::swap(&mut entries, &mut self.entries);
        match found {
            Some(i) => {
                entries[i].1 = value;
                proof {
                    assert(keys_of(entries@) =~= keys);
                    assert(values_of(entries@) =~= values.update(i as int, value));
                    lemma_map_of_update(keys, values, i as int, value);
                }
            },
            None => {
                entries.push((key, value));
                proof {
                    assert(keys_of(entries@) =~= keys.push(key@));
                    assert(values_of(entries@) =~= values.push(value));
                    lemma_map_of_push(keys, values, key@, value);
                }
            },
        }
        self.entries = entries;
    }
}

/// The sum of a list of counts.
pub open spec fn sum_counts(counts: Seq<usize>) -> nat
    decreases counts.len(),
{
    if counts.len() == 0 {
        0
    } else {
        sum_counts(counts.drop_last()) + counts.last() as nat
    }
}

/// Raising one count by one raises the sum by one.
pub proof fn lemma_sum_counts_update(counts: Seq<usize>, i: int, c: usize)
    requires
        0 <= i < counts.len(),
    ensures
        sum_counts(counts.update(i, c)) == sum_counts(counts) - counts[i] + c,
    decreases counts.len(),
{
    let updated = counts.update(i, c);
    if i == counts.len() - 1 {
        assert(updated.drop_last() =~= counts.drop_last());
    } else {
        lemma_sum_counts_update(counts.drop_last(), i, c);
        assert(updated.drop_last() =~= counts.drop_last().update(i, c));
    }
}

/// No count is larger than the sum.
pub proof fn lemma_sum_counts_bound(counts: Seq<usize>, i: int)
    requires
        0 <= i < counts.len(),
    ensures
        counts[i] <= sum_counts(counts),
    decreases counts.len(),
{
    if i < counts.len() - 1 {
        lemma_sum_counts_bound(counts.drop_last(), i);
    }
}

impl TextMap<Vec<u128>> {
    /// The index as a map from a key's characters to the identifiers listed
    /// under it, in the order in which they were listed.
    pub open spec fn ids(&self) -> Map<Seq<char>, Seq<u128>> {
        Map::new(|k: Seq<char>| self@.contains_key(k), |k: Seq<char>| self@[k]@)
    }

    /// The identifiers listed under `key`; none where the key is unknown.
    pub open spec fn ids_under(&self, key: Seq<char>) -> Seq<u128> {
        if self@.contains_key(key) {
            self@[key]@
        } else {
            Seq::empty()
        }
    }

    /// Lists `id` under `key`, after what is listed there already.
    pub fn append_id(&mut self, key: &str, id: u128)
        ensures
            final(self).ids() == old(self).ids().insert(key@, old(self).ids_under(key@).push(id)),
            final(self).key_seq() == if old(self)@.contains_key(key@) {
                old(self).key_seq()
            } else {
                old(self).key_seq().push(key@)
            },
    {
        proof {
            use_type_invariant(&*self);
            self.lemma_wf();
        }
        let ghost before = *self;
        let ghost keys = self.key_seq();
        let ghost values = self.value_seq();
        let found = self.position(key);
        let mut entries: Vec<(String, Vec<u128>)> = Vec::new();
        std::mem::swap(&mut entries, &mut self.entries);
        match found {
            Some(i) => {
                entries[i].1.push(id);
                proof {
                    let v = entries@[i as int].1;
                    assert(keys_of(entries@) =~= keys);
                    assert(values_of(entries@) =~= values.update(i as int, v));
                    lemma_map_of_update(keys, values, i as int, v);
                }
            },
            None => {
                let mut list: Vec<u128> = Vec::new();
                list.push(id);
                let owned = String::from_str(key);
                entries.push((owned, list));
                proof {
                    assert(keys_of(entries@) =~= keys.push(key@));
                    assert(values_of(entries@) =~= values.push(list));
                    lemma_map_of_push(keys, values, key@, list);
                    assert(list@ =~= Seq::<u128>::empty().push(id));
                }
            },
        }
        self.entries = entries;
        proof {
            assert(self.ids() =~= before.ids().insert(key@, before.ids_under(key@).push(id)));
        }
    }

    /// A copy with the same keys in the same order and the same identifiers
    /// under each.
    pub fn duplicate(&self) -> (copy: Self)
        ensures
            copy.key_seq() == self.key_seq(),
            copy.ids() == self.ids(),
    {
        proof {
            use_type_invariant(self);
            self.lemma_wf();
        }
        let mut entries: Vec<(String, Vec<u128>)> = Vec::new();
        let mut i: usize = 0;
        while i < self.entries.len()
            invariant
                i <= self.entries@.len(),
                entries@.len() == i,
                forall|j: int|
                    0 <= j < i ==> (#[trigger] entries@[j]).0@ == self.entries@[j].0@ && entries@[j].1@
                        == self.entries@[j].1@,
            decreases self.entries@.len() - i,
        {
            let key = self.entries[i].0.clone();
            let list = self.entries[i].1.clone();
            entries.push((key, list));
            i += 1;
        }
        proof {
            assert(keys_of(entries@) =~= self.key_seq());
        }
        let copy = TextMap { entries };
        proof {
            copy.lemma_wf();
            assert forall|k: Seq<char>| copy@.contains_key(k) implies copy@[k]@ == self@[k]@ by {
                let j = copy.key_seq().index_of(k);
                assert(copy.key_seq()[j] == k);
                assert(copy@[copy.key_seq()[j]] == copy.value_seq()[j]);
                assert(self@[self.key_seq()[j]] == self.value_seq()[j]);
            }
            assert(copy.ids() =~= self.ids());
        }
        copy
    }
}

/// How often `text` occurs in `texts`.
pub open spec fn occurrences(texts: Seq<Seq<char>>, text: Seq<char>) -> nat
    decreases texts.len(),
{
    if texts.len() == 0 {
        0
    } else {
        occurrences(texts.drop_last(), text) + if texts.last() == text {
            1nat
        } else {
            0nat
        }
    }
}

/// The views of a list of texts.
pub open spec fn text_views(texts: Seq<String>) -> Seq<Seq<char>> {
    Seq::new(texts.len(), |i: int| texts[i]@)
}

impl TextMap<usize> {
    /// Counts how often each text occurs in `texts`. The keys stand in the
    /// order in which the texts first occur.
    pub fn tally(texts: &Vec<String>) -> (counts: Self)
        ensures
            forall|text: Seq<char>|
                #[trigger] counts.count_of(text) == occurrences(text_views(texts@), text),
            counts.total() == texts@.len(),
    {
        let mut counts: TextMap<usize> = TextMap::new();
        let ghost all = text_views(texts@);
        let mut i: usize = 0;
        proof {
            counts.lemma_empty_total();
            assert(all.take(0) =~= Seq::<Seq<char>>::empty());
        }
        while i < texts.len()
            invariant
                i <= texts@.len(),
                all == text_views(texts@),
                all.len() == texts@.len(),
                counts.total() == i,
                forall|text: Seq<char>|
                    #[trigger] counts.count_of(text) == occurrences(all.take(i as int), text),
            decreases texts@.len() - i,
        {
            let ghost before = counts;
            proof {
                use_type_invariant(&counts);
                counts.lemma_count_le_total(texts@[i as int]@);
                assert(all.take(i + 1).drop_last() =~= all.take(i as int));
                assert(all.take(i + 1).last() == texts@[i as int]@);
            }
            counts.increment(texts[i].as_str());
            proof {
                assert forall|text: Seq<char>|
                    #[trigger] counts.count_of(text) == occurrences(all.take(i + 1), text) by {
                    assert(before.count_of(text) == occurrences(all.take(i as int), text));
                }
            }
            i += 1;
        }
        proof {
            assert(all.take(all.len() as int) =~= all);
        }
        counts
    }

    /// The sum of all counts.
    pub closed spec fn total(&self) -> nat {
        sum_counts(self.value_seq())
    }

    /// The count under `key`; zero where the key is unknown.
    pub open spec fn count_of(&self, key: Seq<char>) -> nat {
        if self@.contains_key(key) {
            self@[key] as nat
        } else {
            0
        }
    }

    /// No single count is larger than the sum of all counts.
    pub proof fn lemma_count_le_total(&self, key: Seq<char>)
        requires
            self.wf(),
        ensures
            self.count_of(key) <= self.total(),
    {
        self.lemma_wf();
        if self@.contains_key(key) {
            let i = self.key_seq().index_of(key);
            assert(self.key_seq()[i] == key);
            assert(self@[self.key_seq()[i]] == self.value_seq()[i]);
            lemma_sum_counts_bound(self.value_seq(), i);
        }
    }

    /// An empty histogram sums to zero.
    pub proof fn lemma_empty_total(&self)
        requires
            self.key_seq().len() == 0,
        ensures
            self.total() == 0,
    {
    }

    /// Counts one more under `key`; an unknown key starts at one.
    pub fn increment(&mut self, key: &str)
        requires
            old(self).count_of(key@) < usize::MAX,
        ensures
            final(self)@ == old(self)@.insert(key@, (old(self).count_of(key@) + 1) as usize),
            final(self).total() == old(self).total() + 1,
            final(self).key_seq() == if old(self)@.contains_key(key@) {
                old(self).key_seq()
            } else {
                old(self).key_seq().push(key@)
            },
    {
        proof {
            use_type_invariant(&*self);
            self.lemma_wf();
        }
        let ghost keys = self.key_seq();
        let ghost values = self.value_seq();
        let found = self.position(key);
        let mut entries: Vec<(String, usize)> = Vec::new();
        std::mem::swap(&mut entries, &mut self.entries);
        match found {
            Some(i) => {
                let count = entries[i].1;
                entries[i].1 = count + 1;
                proof {
                    let c = (count + 1) as usize;
                    assert(keys_of(entries@) =~= keys);
                    assert(values_of(entries@) =~= values.update(i as int, c));
                    lemma_map_of_update(keys, values, i as int, c);
                    lemma_sum_counts_update(values, i as int, c);
                }
            },
            None => {
                let owned = String::from_str(key);
                entries.push((owned, 1));
                proof {
                    assert(keys_of(entries@) =~= keys.push(key@));
                    assert(values_of(entries@) =~= values.push(1usize));
                    lemma_map_of_push(keys, values, key@, 1usize);
                    assert(values.push(1usize).drop_last() =~= values);
                }
            },
        }
        self.entries = entries;
    }

    /// A copy with the same keys in the same order and the same counts.
    pub fn duplicate(&self) -> (copy: Self)
        ensures
            copy.key_seq() == self.key_seq(),
            copy@ == self@,
            copy.total() == self.total(),
    {
        proof {
            use_type_invariant(self);
        }
        let mut entries: Vec<(String, usize)> = Vec::new();
        let mut i: usize = 0;
        while i < self.entries.len()
            invariant
                i <= self.entries@.len(),
                entries@.len() == i,
                forall|j: int|
                    0 <= j < i ==> (#[trigger] entries@[j]).0@ == self.entries@[j].0@ && entries@[j].1
                        == self.entries@[j].1,
            decreases self.entries@.len() - i,
        {
            let key = self.entries[i].0.clone();
            entries.push((key, self.entries[i].1));
            i += 1;
        }
        proof {
            assert(keys_of(entries@) =~= self.key_seq());
            assert(values_of(entries@) =~= self.value_seq());
        }
        TextMap { entries }
    }
}

} // verus!
