//! Maps that keep their keys in insertion order. The key index is an
//! `indexmap::IndexMap`; the values stand in a vector, each at the position
//! that the index gives its key.

use indexmap::IndexMap;
use vstd::prelude::*;

verus! {

/// The map type of the `indexmap` crate.
#[verifier::external_type_specification]
#[verifier::external_body]
#[verifier::reject_recursive_types(K)]
#[verifier::reject_recursive_types(V)]
#[verifier::reject_recursive_types(S)]
pub struct ExIndexMap<K, V, S>(IndexMap<K, V, S>);

/// The keys of a text index, in order.
pub uninterp spec fn text_keys(m: IndexMap<String, ()>) -> Seq<Seq<char>>;

/// The keys of a number index, in order.
pub uninterp spec fn id_keys(m: IndexMap<u32, ()>) -> Seq<u32>;

/// `IndexMap::new` for text keys: no keys.
#[verifier::external_body]
fn text_index_new() -> (m: IndexMap<String, ()>)
    ensures
        text_keys(m) == Seq::<Seq<char>>::empty(),
{
    IndexMap::new()
}

/// `IndexMap::insert_full` for text keys: a key that is there keeps its place,
/// a new one goes last, and the position comes back either way.
#[verifier::external_body]
fn text_index_insert(m: &mut IndexMap<String, ()>, key: String) -> (i: usize)
    ensures
        i < text_keys(*final(m)).len(),
        text_keys(*final(m))[i as int] == key@,
        text_keys(*old(m)).contains(key@) ==> text_keys(*final(m)) == text_keys(*old(m)),
        !text_keys(*old(m)).contains(key@) ==> i == text_keys(*old(m)).len() && text_keys(*final(m))
            == text_keys(*old(m)).push(key@),
{
    m.insert_full(key, ()).0
}

/// `IndexMap::get_index_of` for text keys: the position of the key, if it is
/// there.
#[verifier::external_body]
fn text_index_of(m: &IndexMap<String, ()>, key: &str) -> (r: Option<usize>)
    ensures
        match r {
            Some(i) => i < text_keys(*m).len() && text_keys(*m)[i as int] == key@,
            None => !text_keys(*m).contains(key@),
        },
{
    m.get_index_of(key)
}

/// `IndexMap::get_index` for text keys: the key at a position.
#[verifier::external_body]
fn text_index_key(m: &IndexMap<String, ()>, i: usize) -> (r: Option<&String>)
    ensures
        match r {
            Some(k) => i < text_keys(*m).len() && k@ == text_keys(*m)[i as int],
            None => i >= text_keys(*m).len(),
        },
{
    m.get_index(i).map(|e| e.0)
}

/// `IndexMap::new` for number keys: no keys.
#[verifier::external_body]
fn id_index_new() -> (m: IndexMap<u32, ()>)
    ensures
        id_keys(m) == Seq::<u32>::empty(),
{
    IndexMap::new()
}

/// `IndexMap::insert_full` for number keys: a key that is there keeps its
/// place, a new one goes last, and the position comes back either way.
#[verifier::external_body]
fn id_index_insert(m: &mut IndexMap<u32, ()>, key: u32) -> (i: usize)
    ensures
        i < id_keys(*final(m)).len(),
        id_keys(*final(m))[i as int] == key,
        id_keys(*old(m)).contains(key) ==> id_keys(*final(m)) == id_keys(*old(m)),
        !id_keys(*old(m)).contains(key) ==> i == id_keys(*old(m)).len() && id_keys(*final(m))
            == id_keys(*old(m)).push(key),
{
    m.insert_full(key, ()).0
}

/// `IndexMap::get_index_of` for number keys: the position of the key, if it is
/// there.
#[verifier::external_body]
fn id_index_of(m: &IndexMap<u32, ()>, key: u32) -> (r: Option<usize>)
    ensures
        match r {
            Some(i) => i < id_keys(*m).len() && id_keys(*m)[i as int] == key,
            None => !id_keys(*m).contains(key),
        },
{
    m.get_index_of(&key)
}

/// `IndexMap::get_index` for number keys: the key at a position.
#[verifier::external_body]
fn id_index_key(m: &IndexMap<u32, ()>, i: usize) -> (r: Option<u32>)
    ensures
        match r {
            Some(k) => i < id_keys(*m).len() && k == id_keys(*m)[i as int],
            None => i >= id_keys(*m).len(),
        },
{
    m.get_index(i).map(|e| *e.0)
}

/// `IndexMap::swap_remove_full` for number keys: the key leaves, the last key
/// takes its place, and the position comes back.
#[verifier::external_body]
fn id_index_swap_remove(m: &mut IndexMap<u32, ()>, key: u32) -> (r: Option<usize>)
    ensures
        match r {
            Some(i) => i < id_keys(*old(m)).len() && id_keys(*old(m))[i as int] == key && id_keys(
                *final(m),
            ) == swap_removed(id_keys(*old(m)), i as int),
            None => !id_keys(*old(m)).contains(key) && id_keys(*final(m)) == id_keys(*old(m)),
        },
{
    m.swap_remove_full(&key).map(|e| e.0)
}

/// A sequence without its element at `i`, whose place the last one takes.
pub open spec fn swap_removed<A>(s: Seq<A>, i: int) -> Seq<A> {
    s.update(i, s.last()).drop_last()
}

/// Whether no key occurs twice.
pub open spec fn distinct<A>(s: Seq<A>) -> bool {
    forall|i: int, j: int| 0 <= i < j < s.len() ==> s[i] != s[j]
}

/// The keys and values of a map with text keys.
#[derive(Debug)]
struct TextParts<V> {
    keys: IndexMap<String, ()>,
    values: Vec<V>,
}

/// A map from texts to values that keeps its keys in insertion order.
#[derive(Debug)]
pub struct OrderedMap<V> {
    parts: TextParts<V>,
}

impl<V> OrderedMap<V> {
    #[verifier::type_invariant]
    spec fn inv(self) -> bool {
        &&& distinct(text_keys(self.parts.keys))
        &&& text_keys(self.parts.keys).len() == self.parts.values@.len()
    }

    /// The keys, in insertion order.
    pub closed spec fn order(&self) -> Seq<Seq<char>> {
        text_keys(self.parts.keys)
    }

    /// The values, in the order of their keys.
    pub closed spec fn values(&self) -> Seq<V> {
        self.parts.values@
    }
}

impl<V> View for OrderedMap<V> {
    type V = Map<Seq<char>, V>;

    open spec fn view(&self) -> Map<Seq<char>, V> {
        keyed(self.order(), self.values())
    }
}

/// The map that holds `values[i]` under `keys[i]`.
pub open spec fn keyed<K, V>(keys: Seq<K>, values: Seq<V>) -> Map<K, V> {
    Map::new(|k: K| keys.contains(k), |k: K| values[keys.index_of(k)])
}

/// Replacing the value of a key that is there.
proof fn lemma_keyed_update<K, V>(keys: Seq<K>, values: Seq<V>, i: int, v: V)
    requires
        distinct(keys),
        keys.len() == values.len(),
        0 <= i < keys.len(),
    ensures
        keyed(keys, values.update(i, v)) == keyed(keys, values).insert(keys[i], v),
{
    assert forall|k: K| #[trigger] keys.contains(k) implies keyed(keys, values.update(i, v))[k]
        == keyed(keys, values).insert(keys[i], v)[k] by {
        let j = keys.index_of(k);
        assert(keys[j] == k);
        if k == keys[i] {
            assert(j == i);
        }
    }
    assert(keys.contains(keys[i]));
    assert(keyed(keys, values.update(i, v)) =~= keyed(keys, values).insert(keys[i], v));
}

/// Adding a key that is not there.
proof fn lemma_keyed_push<K, V>(keys: Seq<K>, values: Seq<V>, k: K, v: V)
    requires
        distinct(keys),
        keys.len() == values.len(),
        !keys.contains(k),
    ensures
        distinct(keys.push(k)),
        keyed(keys.push(k), values.push(v)) == keyed(keys, values).insert(k, v),
{
    let ks = keys.push(k);
    assert(ks[keys.len() as int] == k);
    assert forall|q: K| ks.contains(q) <==> (keys.contains(q) || q == k) by {
        if keys.contains(q) {
            let j = keys.index_of(q);
            assert(ks[j] == q);
        }
        if ks.contains(q) && q != k {
            let j = ks.index_of(q);
            assert(keys[j] == q);
        }
    }
    assert forall|q: K| ks.contains(q) implies #[trigger] keyed(ks, values.push(v))[q] == keyed(
        keys,
        values,
    ).insert(k, v)[q] by {
        let j = ks.index_of(q);
        assert(ks[j] == q);
        if q == k {
            if j < keys.len() {
                assert(keys[j] == k);
            }
        } else {
            assert(keys[j] == q);
            let i = keys.index_of(q);
            assert(keys[i] == q);
            assert(i == j);
        }
    }
    assert(keyed(ks, values.push(v)) =~= keyed(keys, values).insert(k, v));
}

impl<V> OrderedMap<V> {
    /// An empty map.
    pub fn new() -> (m: Self)
        ensures
            m.order() == Seq::<Seq<char>>::empty(),
            m@ == Map::<Seq<char>, V>::empty(),
    {
        let parts = TextParts { keys: text_index_new(), values: Vec::new() };
        let m = OrderedMap { parts };
        proof {
            assert(m@ =~= Map::<Seq<char>, V>::empty());
        }
        m
    }

    /// How many keys there are. They are distinct, and each has a value.
    pub fn len(&self) -> (n: usize)
        ensures
            n == self.order().len(),
            distinct(self.order()),
            self.order().len() == self.values().len(),
            forall|i: int|
                0 <= i < n ==> self@.contains_key(#[trigger] self.order()[i])
                    && self@[self.order()[i]] == self.values()[i],
    {
        proof {
            use_type_invariant(self);
            assert forall|i: int| 0 <= i < self.order().len() implies self@.contains_key(
                #[trigger] self.order()[i],
            ) && self@[self.order()[i]] == self.values()[i] by {
                let k = self.order()[i];
                assert(self.order().contains(k));
                let j = self.order().index_of(k);
                assert(self.order()[j] == k);
                assert(i == j);
            }
        }
        self.parts.values.len()
    }

    /// Sets the value of a key. A new key goes last.
    pub fn insert(&mut self, key: String, value: V)
        ensures
            final(self)@ == old(self)@.insert(key@, value),
            final(self).order() == if old(self).order().contains(key@) {
                old(self).order()
            } else {
                old(self).order().push(key@)
            },
    {
        proof {
            use_type_invariant(&*self);
        }
        let mut parts = TextParts { keys: text_index_new(), values: Vec::new() };
        core::mem::swap(&mut parts, &mut self.parts);
        let ghost keys = text_keys(parts.keys);
        let ghost values = parts.values@;
        let ghost k = key@;
        let i: usize = text_index_insert(&mut parts.keys, key);
        if i < parts.values.len() {
            proof {
                if !keys.contains(k) {
                    assert(false);
                }
                lemma_keyed_update(keys, values, i as int, value);
            }
            parts.values[i] = value;
        } else {
            proof {
                if keys.contains(k) {
                    assert(false);
                }
                lemma_keyed_push(keys, values, k, value);
            }
            parts.values.push(value);
        }
        self.parts = parts;
    }

    /// The value of a key.
    pub fn get(&self, key: &str) -> (r: Option<&V>)
        ensures
            match r {
                Some(v) => self@.contains_key(key@) && *v == self@[key@],
                None => !self@.contains_key(key@),
            },
    {
        proof {
            use_type_invariant(self);
        }
        match text_index_of(&self.parts.keys, key) {
            Some(i) => {
                proof {
                    assert(self.order()[i as int] == key@);
                    let j = self.order().index_of(key@);
                    assert(self.order()[j] == key@);
                    assert(i == j);
                }
                Some(&self.parts.values[i])
            },
            None => None,
        }
    }

    /// The key and the value at a position.
    pub fn entry(&self, i: usize) -> (r: (&String, &V))
        requires
            i < self.order().len(),
        ensures
            r.0@ == self.order()[i as int],
            *r.1 == self.values()[i as int],
            self@.contains_key(r.0@),
            self@[r.0@] == *r.1,
    {
        proof {
            use_type_invariant(self);
            let k = self.order()[i as int];
            assert(self.order().contains(k));
            let j = self.order().index_of(k);
            assert(self.order()[j] == k);
            assert(i == j);
        }
        match text_index_key(&self.parts.keys, i) {
            Some(k) => (k, &self.parts.values[i]),
            None => {
                assert(false);
                vstd::pervasive::unreached()
            },
        }
    }
}

/// Number keys in insertion order, each with its position.
#[derive(Debug)]
pub struct IdIndex {
    keys: IndexMap<u32, ()>,
}

impl View for IdIndex {
    type V = Seq<u32>;

    closed spec fn view(&self) -> Seq<u32> {
        id_keys(self.keys)
    }
}

impl IdIndex {
    /// No keys.
    pub fn new() -> (m: Self)
        ensures
            m@ == Seq::<u32>::empty(),
    {
        IdIndex { keys: id_index_new() }
    }

    /// Adds a key and gives its position: a new key goes last.
    pub fn insert(&mut self, key: u32) -> (i: usize)
        ensures
            i < final(self)@.len(),
            final(self)@[i as int] == key,
            old(self)@.contains(key) ==> final(self)@ == old(self)@,
            !old(self)@.contains(key) ==> i == old(self)@.len() && final(self)@ == old(self)@.push(
                key,
            ),
    {
        id_index_insert(&mut self.keys, key)
    }

    /// The position of a key, if it is there.
    pub fn find(&self, key: u32) -> (r: Option<usize>)
        ensures
            match r {
                Some(i) => i < self@.len() && self@[i as int] == key,
                None => !self@.contains(key),
            },
    {
        id_index_of(&self.keys, key)
    }

    /// The key at a position.
    pub fn key(&self, i: usize) -> (r: Option<u32>)
        ensures
            match r {
                Some(k) => i < self@.len() && k == self@[i as int],
                None => i >= self@.len(),
            },
    {
        id_index_key(&self.keys, i)
    }

    /// Removes a key, whose place the last one takes, and gives the position.
    pub fn swap_remove(&mut self, key: u32) -> (r: Option<usize>)
        ensures
            match r {
                Some(i) => i < old(self)@.len() && old(self)@[i as int] == key && final(self)@
                    == swap_removed(old(self)@, i as int),
                None => !old(self)@.contains(key) && final(self)@ == old(self)@,
            },
    {
        id_index_swap_remove(&mut self.keys, key)
    }
}

} // verus!
