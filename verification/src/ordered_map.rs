//! A map keyed by text that lists its entries in ascending key order.

use vstd::prelude::*;

use crate::ordering;
use crate::text;

verus! {

/// A map from text to `V`, kept as two parallel vectors in ascending key order.
pub struct OrderedMap<V> {
    keys: Vec<String>,
    values: Vec<V>,
}

impl<V> View for OrderedMap<V> {
    type V = Map<Seq<char>, V>;

    closed spec fn view(&self) -> Map<Seq<char>, V> {
        Map::new(
            |key: Seq<char>| self.order().contains(key),
            |key: Seq<char>| self.values@[self.order().index_of(key)],
        )
    }
}

impl<V> OrderedMap<V> {
    /// The keys as stored.
    pub closed spec fn order(&self) -> Seq<Seq<char>> {
        Seq::new(self.keys@.len(), |i: int| self.keys@[i]@)
    }

    /// The keys ascend strictly and every key has its value.
    pub closed spec fn wf(&self) -> bool {
        &&& ordering::ascending(self.order())
        &&& self.keys@.len() == self.values@.len()
    }

    /// What the stored vectors mean for the map.
    pub proof fn lemma_order(&self)
        requires
            self.wf(),
        ensures
            self@.dom() == self.order().to_set(),
            self.order() == ordering::sorted_texts(self@.dom()),
            ordering::ascending(self.order()),
            self@.dom().finite(),
    {
        assert(self@.dom() =~= self.order().to_set());
        ordering::lemma_ascending_is_sorted(self.order());
    }

    proof fn lemma_value(&self, i: int)
        requires
            self.wf(),
            0 <= i < self.order().len(),
        ensures
            self@.dom().contains(self.order()[i]),
            self@[self.order()[i]] == self.values@[i],
    {
        let key = self.order()[i];
        assert(self.order().contains(key));
        let k = self.order().index_of(key);
        if k < i {
            text::lemma_text_lt_irreflexive(key);
            assert(text::text_lt(self.order()[k], self.order()[i]));
        } else if i < k {
            text::lemma_text_lt_irreflexive(key);
            assert(text::text_lt(self.order()[i], self.order()[k]));
        }
    }

    /// The empty map.
    pub fn new() -> (result: Self)
        ensures
            result.wf(),
            result@ == Map::<Seq<char>, V>::empty(),
    {
        let result = OrderedMap { keys: Vec::new(), values: Vec::new() };
        assert(result@ =~= Map::<Seq<char>, V>::empty());
        result
    }

    /// How many keys the map holds.
    pub fn len(&self) -> (result: usize)
        requires
            self.wf(),
        ensures
            result == self.order().len(),
    {
        self.keys.len()
    }

    /// The key at position `i` of the ascending order.
    pub fn key_at(&self, i: usize) -> (result: &String)
        requires
            self.wf(),
            i < self.order().len(),
        ensures
            result@ == self.order()[i as int],
            self@.dom().contains(result@),
    {
        proof {
            self.lemma_value(i as int);
        }
        &self.keys[i]
    }

    /// The value at position `i` of the ascending order.
    pub fn value_at(&self, i: usize) -> (result: &V)
        requires
            self.wf(),
            i < self.order().len(),
        ensures
            *result == self@[self.order()[i as int]],
    {
        proof {
            self.lemma_value(i as int);
        }
        &self.values[i]
    }

    /// The first position whose key is not before `key`.
    fn position(&self, key: &str) -> (result: usize)
        requires
            self.wf(),
        ensures
            result <= self.order().len(),
            forall|i: int| 0 <= i < result ==> text::text_lt(#[trigger] self.order()[i], key@),
            forall|i: int|
                result <= i < self.order().len() ==> !text::text_lt(
                    #[trigger] self.order()[i],
                    key@,
                ),
    {
        let mut low: usize = 0;
        let mut high: usize = self.keys.len();
        while low < high
            invariant
                self.wf(),
                low <= high <= self.order().len(),
                self.order().len() == self.keys@.len(),
                forall|i: int| 0 <= i < low ==> text::text_lt(#[trigger] self.order()[i], key@),
                forall|i: int|
                    high <= i < self.order().len() ==> !text::text_lt(
                        #[trigger] self.order()[i],
                        key@,
                    ),
            decreases high - low,
        {
            let middle: usize = low + (high - low) / 2;
            let ghost pivot = self.order()[middle as int];
            if text::text_before(self.keys[middle].as_str(), key) {
                assert forall|i: int| 0 <= i <= middle implies text::text_lt(
                    #[trigger] self.order()[i],
                    key@,
                ) by {
                    if i < middle {
                        text::lemma_text_lt_transitive(self.order()[i], pivot, key@);
                    }
                }
                low = middle + 1;
            } else {
                assert forall|i: int| middle <= i < self.order().len() implies !text::text_lt(
                    #[trigger] self.order()[i],
                    key@,
                ) by {
                    if i > middle && text::text_lt(self.order()[i], key@) {
                        text::lemma_text_lt_transitive(pivot, self.order()[i], key@);
                    }
                }
                high = middle;
            }
        }
        low
    }

    /// The value of `key`, if it has one.
    pub fn get(&self, key: &str) -> (result: Option<&V>)
        requires
            self.wf(),
        ensures
            result is Some <==> self@.dom().contains(key@),
            result is Some ==> *result->0 == self@[key@],
    {
        let position: usize = self.position(key);
        if position < self.keys.len() && text::same_text(self.keys[position].as_str(), key) {
            proof {
                self.lemma_value(position as int);
            }
            Some(&self.values[position])
        } else {
            proof {
                if self.order().contains(key@) {
                    let k = self.order().index_of(key@);
                    text::lemma_text_lt_irreflexive(key@);
                    if position < k {
                        assert(text::text_lt(self.order()[position as int], self.order()[k]));
                    }
                }
            }
            None
        }
    }

    /// Whether `key` has a value.
    pub fn contains_key(&self, key: &str) -> (result: bool)
        requires
            self.wf(),
        ensures
            result == self@.dom().contains(key@),
    {
        self.get(key).is_some()
    }

    /// Gives `key` the value, in place of the one it may have had.
    pub fn insert(&mut self, key: String, value: V)
        requires
            old(self).wf(),
        ensures
            final(self).wf(),
            final(self)@ == old(self)@.insert(key@, value),
    {
        let ghost before = *self;
        let position: usize = self.position(key.as_str());
        if position < self.keys.len() && text::same_text(
            self.keys[position].as_str(),
            key.as_str(),
        ) {
            self.values.set(position, value);
            proof {
                assert(self.order() =~= before.order());
                assert forall|t: Seq<char>| self.order().contains(t) implies #[trigger] self@[t]
                    == before@.insert(key@, value)[t] by {
                    let i = self.order().index_of(t);
                    self.lemma_value(i);
                    before.lemma_value(i);
                    before.lemma_value(position as int);
                    if i < position {
                        assert(text::text_lt(self.order()[i], self.order()[position as int]));
                        text::lemma_text_lt_irreflexive(t);
                    } else if i > position {
                        assert(text::text_lt(self.order()[position as int], self.order()[i]));
                        text::lemma_text_lt_irreflexive(t);
                    }
                }
                before.lemma_value(position as int);
                assert(self@ =~= before@.insert(key@, value));
            }
        } else {
            let ghost k = key@;
            proof {
                if position < before.order().len() {
                    text::lemma_text_lt_total(k, before.order()[position as int]);
                }
            }
            self.keys.insert(position, key);
            self.values.insert(position, value);
            proof {
                let p = position as int;
                assert(self.order() =~= before.order().insert(p, k));
                assert forall|i: int, j: int| 0 <= i < j < self.order().len() implies text::text_lt(
                    #[trigger] self.order()[i],
                    #[trigger] self.order()[j],
                ) by {
                    let a = if i < p { i } else { i - 1 };
                    let b = if j < p { j } else { j - 1 };
                    if i == p {
                        assert(self.order()[j] == before.order()[b]);
                        if b > p {
                            assert(text::text_lt(before.order()[p], before.order()[b]));
                            text::lemma_text_lt_transitive(k, before.order()[p], before.order()[b]);
                        }
                    } else if j == p {
                        assert(self.order()[i] == before.order()[a]);
                    } else {
                        assert(self.order()[i] == before.order()[a]);
                        assert(self.order()[j] == before.order()[b]);
                    }
                }
                assert forall|t: Seq<char>| #[trigger]
                    self.order().contains(t) <==> t == k || before.order().contains(t) by {
                    if before.order().contains(t) {
                        let i = before.order().index_of(t);
                        let j = if i < p { i } else { i + 1 };
                        assert(self.order()[j] == t);
                    }
                    assert(self.order()[p] == k);
                    if self.order().contains(t) && t != k {
                        let j = self.order().index_of(t);
                        let i = if j < p { j } else { j - 1 };
                        assert(before.order()[i] == t);
                    }
                }
                assert forall|t: Seq<char>| self.order().contains(t) implies #[trigger] self@[t]
                    == before@.insert(k, value)[t] by {
                    self.lemma_value(p);
                    if t != k {
                        let i = before.order().index_of(t);
                        let j = if i < p { i } else { i + 1 };
                        before.lemma_value(i);
                        assert(self.order()[j] == t);
                        self.lemma_value(j);
                    }
                }
                assert(self@.dom() =~= before@.insert(k, value).dom());
                assert(self@ =~= before@.insert(k, value));
            }
        }
    }

    /// Takes the value of `key` out of the map.
    pub fn remove(&mut self, key: &str) -> (result: Option<V>)
        requires
            old(self).wf(),
        ensures
            final(self).wf(),
            final(self)@ == old(self)@.remove(key@),
            match result {
                Some(value) => old(self)@.dom().contains(key@) && value == old(self)@[key@],
                None => !old(self)@.dom().contains(key@),
            },
    {
        let ghost before = *self;
        let ghost k = key@;
        let position: usize = self.position(key);
        if position < self.keys.len() && text::same_text(self.keys[position].as_str(), key) {
            proof {
                before.lemma_value(position as int);
            }
            self.keys.remove(position);
            let value = self.values.remove(position);
            proof {
                let p = position as int;
                assert(self.order() =~= before.order().remove(p));
                assert forall|i: int, j: int| 0 <= i < j < self.order().len() implies text::text_lt(
                    #[trigger] self.order()[i],
                    #[trigger] self.order()[j],
                ) by {
                    let a = if i < p { i } else { i + 1 };
                    let b = if j < p { j } else { j + 1 };
                    assert(self.order()[i] == before.order()[a]);
                    assert(self.order()[j] == before.order()[b]);
                }
                assert forall|t: Seq<char>| #[trigger]
                    self.order().contains(t) <==> t != k && before.order().contains(t) by {
                    if self.order().contains(t) {
                        let i = self.order().index_of(t);
                        let a = if i < p { i } else { i + 1 };
                        assert(before.order()[a] == t);
                        text::lemma_text_lt_irreflexive(k);
                        if a < p {
                            assert(text::text_lt(before.order()[a], before.order()[p]));
                        } else {
                            assert(text::text_lt(before.order()[p], before.order()[a]));
                        }
                    }
                    if t != k && before.order().contains(t) {
                        let a = before.order().index_of(t);
                        let i = if a < p { a } else { a - 1 };
                        assert(self.order()[i] == t);
                    }
                }
                assert forall|t: Seq<char>| self.order().contains(t) implies #[trigger] self@[t]
                    == before@[t] by {
                    let a = before.order().index_of(t);
                    let i = if a < p { a } else { a - 1 };
                    before.lemma_value(a);
                    assert(self.order()[i] == t);
                    self.lemma_value(i);
                }
                assert(self@.dom() =~= before@.remove(k).dom());
                assert(self@ =~= before@.remove(k));
            }
            Some(value)
        } else {
            proof {
                if self.order().contains(k) {
                    let m = self.order().index_of(k);
                    text::lemma_text_lt_irreflexive(k);
                    if position < m {
                        assert(text::text_lt(self.order()[position as int], self.order()[m]));
                    }
                }
                assert(self@ =~= before@.remove(k));
            }
            None
        }
    }

    /// The values in ascending order of their keys.
    pub fn into_values(self) -> (result: Vec<V>)
        requires
            self.wf(),
        ensures
            result@.len() == self.order().len(),
            forall|i: int|
                0 <= i < self.order().len() ==> #[trigger] result@[i] == self@[self.order()[i]],
    {
        proof {
            assert forall|i: int| 0 <= i < self.order().len() implies #[trigger] self.values@[i]
                == self@[self.order()[i]] by {
                self.lemma_value(i);
            }
        }
        self.values
    }
}

/// A record that is found by a text key.
pub trait Keyed: Sized {
    /// The key.
    spec fn key(&self) -> Seq<char>;

    /// Hands the key out.
    fn key_text(&self) -> (result: &str)
        ensures
            result@ == self.key(),
    ;
}

/// The keys that occur in a list.
pub open spec fn keys_of<T: Keyed>(items: Seq<T>) -> Set<Seq<char>>
    decreases items.len(),
{
    if items.len() == 0 {
        Set::empty()
    } else {
        keys_of(items.drop_last()).insert(items.last().key())
    }
}

/// The last record of a list that has the key.
pub open spec fn latest<T: Keyed>(items: Seq<T>, key: Seq<char>) -> T
    decreases items.len(),
{
    if items.len() == 0 || items.last().key() == key {
        items.last()
    } else {
        latest(items.drop_last(), key)
    }
}

/// The last record of a list that has the key, if there is one.
pub open spec fn lookup<T: Keyed>(items: Seq<T>, key: Seq<char>) -> Option<T> {
    if keys_of(items).contains(key) {
        Some(latest(items, key))
    } else {
        None
    }
}

/// A key is listed exactly when some record has it.
pub proof fn lemma_keys_of<T: Keyed>(items: Seq<T>, key: Seq<char>)
    ensures
        keys_of(items).contains(key) <==> exists|i: int|
            0 <= i < items.len() && (#[trigger] items[i]).key() == key,
        keys_of(items).contains(key) ==> latest(items, key).key() == key && items.contains(
            latest(items, key),
        ),
        keys_of(items).finite(),
    decreases items.len(),
{
    if items.len() > 0 {
        let rest = items.drop_last();
        lemma_keys_of(rest, key);
        if keys_of(items).contains(key) {
            if items.last().key() == key {
                assert(items[items.len() - 1].key() == key);
            } else {
                let i = choose|i: int| 0 <= i < rest.len() && (#[trigger] rest[i]).key() == key;
                assert(items[i].key() == key);
                let j = choose|j: int| 0 <= j < rest.len() && rest[j] == latest(rest, key);
                assert(items[j] == latest(items, key));
            }
        }
        if exists|i: int| 0 <= i < items.len() && (#[trigger] items[i]).key() == key {
            let i = choose|i: int| 0 <= i < items.len() && (#[trigger] items[i]).key() == key;
            if i < rest.len() {
                assert(rest[i].key() == key);
            }
        }
    }
}

/// Where the last record of each key stands.
pub fn index_by_key<T: Keyed>(items: &[T]) -> (result: OrderedMap<usize>)
    ensures
        result.wf(),
        result@.dom() == keys_of(items@),
        forall|key: Seq<char>| #[trigger]
            result@.dom().contains(key) ==> result@[key] < items@.len() && items@[result@[key] as int]
                == latest(items@, key),
{
    let mut result: OrderedMap<usize> = OrderedMap::new();
    let mut i: usize = 0;
    assert(result@.dom() =~= keys_of(items@.take(0)));
    while i < items.len()
        invariant
            i <= items@.len(),
            result.wf(),
            result@.dom() == keys_of(items@.take(i as int)),
            forall|key: Seq<char>| #[trigger]
                result@.dom().contains(key) ==> result@[key] < i && items@[result@[key] as int]
                    == latest(items@.take(i as int), key),
        decreases items@.len() - i,
    {
        result.insert(items[i].key_text().to_owned(), i);
        i = i + 1;
        assert(items@.take(i as int).drop_last() =~= items@.take(i - 1));
    }
    assert(items@.take(items@.len() as int) =~= items@);
    result
}

/// Adds every key of a map to an ordered set.
pub fn add_keys<A>(set: &mut OrderedMap<()>, from: &OrderedMap<A>)
    requires
        old(set).wf(),
        from.wf(),
    ensures
        final(set).wf(),
        final(set)@.dom() == old(set)@.dom().union(from@.dom()),
{
    let ghost start = set@.dom();
    let mut i: usize = 0;
    proof {
        from.lemma_order();
        assert(start.union(from.order().take(0).to_set()) =~= start);
    }
    while i < from.len()
        invariant
            set.wf(),
            from.wf(),
            i <= from.order().len(),
            set@.dom() == start.union(from.order().take(i as int).to_set()),
        decreases from.order().len() - i,
    {
        let key = from.key_at(i);
        set.insert(key.clone(), ());
        i = i + 1;
        proof {
            let now = from.order().take(i as int);
            assert(now =~= from.order().take(i - 1).push(key@));
            assert forall|t: Seq<char>|
                now.to_set().contains(t) == (t == key@ || from.order().take(
                    i - 1,
                ).to_set().contains(t)) by {
                if from.order().take(i - 1).contains(t) {
                    let k = from.order().take(i - 1).index_of(t);
                    assert(now[k] == t);
                }
                assert(now[i - 1] == key@);
                if now.contains(t) && t != key@ {
                    let k = now.index_of(t);
                    assert(from.order().take(i - 1)[k] == t);
                }
            }
            assert(set@.dom() =~= start.union(now.to_set()));
        }
    }
    proof {
        assert(from.order().take(i as int) =~= from.order());
    }
}

/// The keys of the first map that the second lacks, in ascending order.
pub fn missing_keys<A, B>(from: &OrderedMap<A>, other: &OrderedMap<B>) -> (result: Vec<String>)
    requires
        from.wf(),
        other.wf(),
    ensures
        text::texts(result@) == ordering::sorted_texts(from@.dom().difference(other@.dom())),
{
    let mut result: Vec<String> = Vec::new();
    let mut i: usize = 0;
    proof {
        from.lemma_order();
    }
    while i < from.len()
        invariant
            from.wf(),
            other.wf(),
            i <= from.order().len(),
            ordering::ascending(from.order()),
            ordering::ascending(text::texts(result@)),
            forall|j: int|
                0 <= j < result@.len() ==> exists|k: int|
                    0 <= k < i && #[trigger] from.order()[k] == (#[trigger] result@[j])@,
            forall|j: int|
                0 <= j < result@.len() ==> !other@.dom().contains((#[trigger] result@[j])@),
            forall|k: int|
                0 <= k < i && !other@.dom().contains(#[trigger] from.order()[k])
                    ==> text::texts(result@).contains(from.order()[k]),
        decreases from.order().len() - i,
    {
        let key = from.key_at(i);
        let ghost before = result@;
        if !other.contains_key(key.as_str()) {
            result.push(key.clone());
            proof {
                let new = text::texts(result@);
                let old_texts = text::texts(before);
                assert(new =~= old_texts.push(key@));
                assert forall|a: int, b: int| 0 <= a < b < new.len() implies text::text_lt(
                    #[trigger] new[a],
                    #[trigger] new[b],
                ) by {
                    if b == before.len() {
                        let k = choose|k: int|
                            0 <= k < i && #[trigger] from.order()[k] == (#[trigger] before[a])@;
                        assert(text::text_lt(from.order()[k], from.order()[i as int]));
                    } else {
                        assert(new[a] == old_texts[a] && new[b] == old_texts[b]);
                    }
                }
                assert forall|j: int| 0 <= j < result@.len() implies exists|k: int|
                    0 <= k < i + 1 && #[trigger] from.order()[k] == (#[trigger] result@[j])@ by {
                    if j < before.len() {
                        assert(result@[j] == before[j]);
                        let k = choose|k: int|
                            0 <= k < i && #[trigger] from.order()[k] == (#[trigger] before[j])@;
                        assert(from.order()[k] == result@[j]@);
                    } else {
                        assert(from.order()[i as int] == result@[j]@);
                    }
                }
                assert forall|k: int|
                    0 <= k < i + 1 && !other@.dom().contains(
                        #[trigger] from.order()[k],
                    ) implies text::texts(result@).contains(from.order()[k]) by {
                    if k < i {
                        let j = old_texts.index_of(from.order()[k]);
                        assert(new[j] == from.order()[k]);
                    } else {
                        assert(new[before.len() as int] == from.order()[k]);
                    }
                }
            }
        }
        i = i + 1;
    }
    proof {
        let found = text::texts(result@);
        let wanted = from@.dom().difference(other@.dom());
        assert forall|t: Seq<char>| found.to_set().contains(t) <==> wanted.contains(t) by {
            if found.to_set().contains(t) {
                let j = choose|j: int| 0 <= j < found.len() && found[j] == t;
                let k = choose|k: int|
                    0 <= k < i && #[trigger] from.order()[k] == (#[trigger] result@[j])@;
                assert(from.order().to_set().contains(from.order()[k]));
            }
            if wanted.contains(t) {
                assert(from.order().to_set().contains(t));
                let k = choose|k: int| 0 <= k < from.order().len() && from.order()[k] == t;
                assert(found.contains(from.order()[k]));
            }
        }
        assert(found.to_set() =~= wanted);
        ordering::lemma_ascending_is_sorted(found);
    }
    result
}

/// The last record of a key is the one after which none has it.
pub proof fn lemma_latest_at<T: Keyed>(items: Seq<T>, k: int)
    requires
        0 <= k < items.len(),
        forall|j: int| k < j < items.len() ==> (#[trigger] items[j]).key() != items[k].key(),
    ensures
        keys_of(items).contains(items[k].key()),
        latest(items, items[k].key()) == items[k],
    decreases items.len(),
{
    lemma_keys_of(items, items[k].key());
    if k < items.len() - 1 {
        assert(items[items.len() - 1].key() != items[k].key());
        let rest = items.drop_last();
        assert forall|j: int| k < j < rest.len() implies (#[trigger] rest[j]).key()
            != rest[k].key() by {
            assert(rest[j] == items[j]);
        }
        lemma_latest_at(rest, k);
    }
}

} // verus!
