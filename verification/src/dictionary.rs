//! Dictionaries from string keys to objects: each key is copied in, and the
//! dictionary holds one retain of every object it maps a key to.

use vstd::prelude::*;
use crate::enumerator::NSEnumerator;
use crate::foundation::NSString;
use crate::id::{objects_of, Id, Ownership};
use crate::runtime::Object;

verus! {

/// The index of `k` in `keys`, if it occurs there.
pub open spec fn key_index(keys: Seq<Seq<char>>, k: Seq<char>) -> Option<int> {
    if exists|i: int| 0 <= i < keys.len() && keys[i] == k {
        Some(choose|i: int| 0 <= i < keys.len() && keys[i] == k)
    } else {
        None
    }
}

/// Whether no key occurs twice in `keys`.
pub open spec fn distinct_keys(keys: Seq<Seq<char>>) -> bool {
    forall|i: int, j: int| 0 <= i < keys.len() && 0 <= j < keys.len() && i != j ==> keys[i] != keys[j]
}

/// What a dictionary is: its keys and, at the same positions, the objects
/// they map to.
pub struct DictionaryModel {
    pub keys: Seq<Seq<char>>,
    pub values: Seq<Object>,
}

/// The dictionary `d` after mapping `k` to `v`, with the object that `k`
/// mapped to before, if it did: a new key goes after the others, a key
/// already present keeps its place.
pub open spec fn insert_pair(d: DictionaryModel, k: Seq<char>, v: Object) -> (DictionaryModel, Option<Object>) {
    match key_index(d.keys, k) {
        Some(i) => (DictionaryModel { keys: d.keys, values: d.values.update(i, v) }, Some(d.values[i])),
        None => (DictionaryModel { keys: d.keys.push(k), values: d.values.push(v) }, None),
    }
}

/// The dictionary that mapping the first `n` keys of `keys` to the objects
/// at the same positions of `values`, one pair after the other, builds from
/// an empty one, with the objects it let go of because a later pair gave
/// their key another object.
pub open spec fn build_pairs(keys: Seq<Seq<char>>, values: Seq<Object>, n: nat) -> (DictionaryModel, Seq<Object>)
    decreases n,
{
    if n == 0 {
        (DictionaryModel { keys: seq![], values: seq![] }, seq![])
    } else {
        let prev = build_pairs(keys, values, (n - 1) as nat);
        let step = insert_pair(prev.0, keys[n - 1], values[n - 1]);
        match step.1 {
            Some(o) => (step.0, prev.1.push(o)),
            None => (step.0, prev.1),
        }
    }
}

/// A dictionary from string keys to objects of type `T`, each held with
/// ownership `O`.
pub struct NSDictionary<T, O> {
    keys: Vec<NSString>,
    values: Vec<Id<T, O>>,
}

impl<T, O: Ownership> View for NSDictionary<T, O> {
    type V = DictionaryModel;

    closed spec fn view(&self) -> DictionaryModel {
        DictionaryModel { keys: self.keys@.map_values(|k: NSString| k@), values: objects_of(self.values@) }
    }
}

impl<T, O: Ownership> NSDictionary<T, O> {
    /// The dictionary's invariant: as many keys as objects, no key twice.
    pub closed spec fn wf(&self) -> bool {
        &&& self.keys@.len() == self.values@.len()
        &&& distinct_keys(self@.keys)
    }

    /// A well-formed dictionary has as many keys as objects, and no key
    /// twice.
    pub proof fn lemma_wf(&self)
        requires
            self.wf(),
        ensures
            self@.keys.len() == self@.values.len(),
            distinct_keys(self@.keys),
    {
    }

    /// An empty dictionary.
    pub fn new() -> (d: NSDictionary<T, O>)
        ensures
            d.wf(),
            d@.keys == Seq::<Seq<char>>::empty(),
            d@.values == Seq::<Object>::empty(),
    {
        let d = NSDictionary { keys: Vec::new(), values: Vec::new() };
        assert(d@.keys =~= Seq::<Seq<char>>::empty());
        assert(d@.values =~= Seq::<Object>::empty());
        d
    }

    /// The position of the key `key`, if the dictionary has it.
    fn position(&self, key: &NSString) -> (r: Option<usize>)
        requires
            self.wf(),
        ensures
            match key_index(self@.keys, key@) {
                Some(i) => r matches Some(p) && p == i,
                None => r is None,
            },
    {
        let ghost keys = self@.keys;
        let mut i: usize = 0;
        while i < self.keys.len()
            invariant
                self.wf(),
                keys == self@.keys,
                keys.len() == self.keys@.len(),
                i <= keys.len(),
                forall|j: int| 0 <= j < i ==> keys[j] != key@,
            decreases keys.len() - i,
        {
            proof {
                assert(keys[i as int] == self.keys@[i as int]@);
            }
            if self.keys[i].is_equal(key) {
                proof {
                    assert(keys[i as int] == key@);
                    let k = choose|k: int| 0 <= k < keys.len() && keys[k] == key@;
                    assert(k == i);
                }
                return Some(i);
            }
            i = i + 1;
        }
        None
    }

    /// Maps `key` (copied in) to the object of `value`; returns the pointer
    /// to the object `key` mapped to before, if it did.
    fn insert(&mut self, key: &NSString, value: Id<T, O>) -> (r: Option<Id<T, O>>)
        requires
            old(self).wf(),
        ensures
            final(self).wf(),
            final(self)@ == insert_pair(old(self)@, key@, value.object()).0,
            match insert_pair(old(self)@, key@, value.object()).1 {
                Some(o) => r matches Some(id) && id.object() == o,
                None => r is None,
            },
    {
        let ghost vo = value.object();
        match self.position(key) {
            Some(i) => {
                let old_value = self.values.remove(i);
                self.values.insert(i, value);
                proof {
                    assert(objects_of(self.values@) =~= objects_of(old(self).values@).update(i as int, vo));
                    assert(self.keys@ == old(self).keys@);
                    assert(self@.keys =~= old(self)@.keys);
                    assert(old_value.object() == old(self)@.values[i as int]);
                }
                Some(old_value)
            },
            None => {
                let ghost old_keys = self@.keys;
                self.keys.push(key.copy());
                self.values.push(value);
                proof {
                    assert(self@.keys =~= old_keys.push(key@));
                    assert(objects_of(self.values@) =~= objects_of(old(self).values@).push(vo));
                    assert forall|i: int, j: int|
                        0 <= i < self@.keys.len() && 0 <= j < self@.keys.len() && i != j implies self@.keys[i]
                        != self@.keys[j] by {
                        if i == old_keys.len() {
                            assert(old_keys[j] != key@);
                        } else if j == old_keys.len() {
                            assert(old_keys[i] != key@);
                        }
                    }
                }
                None
            },
        }
    }

    /// A dictionary mapping each of the first `n` keys of `keys` (copied in)
    /// to the object at the same position of `vals`, `n` being the smaller
    /// of the two lengths; where a key occurs twice, the later object wins.
    /// Returns the dictionary and, in order, the pointers it did not keep:
    /// those of objects a later pair displaced, then those past `n`.
    pub fn from_keys_and_objects(keys: &[&NSString], vals: Vec<Id<T, O>>) -> (r: (
        NSDictionary<T, O>,
        Vec<Id<T, O>>,
    ))
        ensures
            r.0.wf(),
            ({
                let n = if keys@.len() <= vals@.len() {
                    keys@.len()
                } else {
                    vals@.len()
                };
                let built = build_pairs(keys@.map_values(|k: &NSString| k@), objects_of(vals@), n);
                &&& r.0@ == built.0
                &&& objects_of(r.1@) == built.1 + objects_of(vals@).skip(n as int)
            }),
    {
        let ghost key_views = keys@.map_values(|k: &NSString| k@);
        let ghost objs = objects_of(vals@);
        let n = if keys.len() <= vals.len() {
            keys.len()
        } else {
            vals.len()
        };
        let mut d: NSDictionary<T, O> = NSDictionary::new();
        let mut left: Vec<Id<T, O>> = Vec::new();
        let mut rest = vals;
        let mut i: usize = 0;
        proof {
            assert(d@ == build_pairs(key_views, objs, 0).0);
            assert(objects_of(left@) =~= build_pairs(key_views, objs, 0).1);
            assert(objects_of(rest@) =~= objs.skip(0));
        }
        while i < n
            invariant
                d.wf(),
                i <= n,
                n <= keys@.len(),
                n <= objs.len(),
                key_views == keys@.map_values(|k: &NSString| k@),
                d@ == build_pairs(key_views, objs, i as nat).0,
                objects_of(left@) == build_pairs(key_views, objs, i as nat).1,
                objects_of(rest@) == objs.skip(i as int),
                rest@.len() == objs.len() - i,
            decreases n - i,
        {
            let ghost rest_before = objects_of(rest@);
            let ghost rest_vec = rest@;
            let v = rest.remove(0);
            proof {
                assert(rest_before[0] == objs[i as int]);
                assert(rest@ =~= rest_vec.subrange(1, rest_vec.len() as int));
                assert forall|k: int| 0 <= k < objects_of(rest@).len() implies objects_of(rest@)[k] == objs.skip(i + 1)[k] by {
                    assert(objects_of(rest@)[k] == rest_before[k + 1]);
                    assert(rest_before[k + 1] == objs[i + 1 + k]);
                }
                assert(objects_of(rest@) =~= objs.skip(i + 1));
                assert(key_views[i as int] == keys@[i as int]@);
            }
            match d.insert(keys[i], v) {
                Some(displaced) => {
                    let ghost left_before = objects_of(left@);
                    left.push(displaced);
                    proof {
                        assert(objects_of(left@) =~= left_before.push(displaced.object()));
                    }
                },
                None => {},
            }
            i = i + 1;
        }
        let ghost left_built = objects_of(left@);
        while rest.len() > 0
            invariant
                objects_of(left@) + objects_of(rest@) == left_built + objs.skip(n as int),
            decreases rest.len(),
        {
            let ghost left_before = objects_of(left@);
            let ghost rest_before = objects_of(rest@);
            let v = rest.remove(0);
            left.push(v);
            proof {
                assert(objects_of(left@) =~= left_before.push(rest_before[0]));
                assert(objects_of(rest@) =~= rest_before.drop_first());
                assert(objects_of(left@) + objects_of(rest@) =~= left_before + rest_before);
            }
        }
        proof {
            assert(objects_of(rest@) =~= Seq::<Object>::empty());
            assert(objects_of(left@) =~= objects_of(left@) + objects_of(rest@));
        }
        (d, left)
    }

    /// The number of keys.
    pub fn count(&self) -> (n: usize)
        requires
            self.wf(),
        ensures
            n == self@.keys.len(),
    {
        self.keys.len()
    }

    /// The object that `key` maps to, or `None` if the dictionary does not
    /// have the key.
    pub fn object_for(&self, key: &NSString) -> (r: Option<Object>)
        requires
            self.wf(),
        ensures
            match key_index(self@.keys, key@) {
                Some(i) => r == Some(self@.values[i]),
                None => r is None,
            },
    {
        match self.position(key) {
            Some(i) => Some(self.values[i].as_ptr()),
            None => None,
        }
    }

    /// The keys, in order.
    pub fn all_keys(&self) -> (v: Vec<&NSString>)
        requires
            self.wf(),
        ensures
            v@.map_values(|k: &NSString| k@) == self@.keys,
    {
        let mut v: Vec<&NSString> = Vec::new();
        let mut i: usize = 0;
        while i < self.keys.len()
            invariant
                i <= self.keys@.len(),
                v@.map_values(|k: &NSString| k@) == self@.keys.take(i as int),
            decreases self.keys@.len() - i,
        {
            let ghost before = v@;
            v.push(&self.keys[i]);
            proof {
                assert(v@ == before.push(&self.keys@[i as int]));
                assert(v@.map_values(|k: &NSString| k@) =~= before.map_values(|k: &NSString| k@).push(
                    self.keys@[i as int]@,
                ));
                assert(v@.map_values(|k: &NSString| k@) =~= self@.keys.take(i + 1));
            }
            i = i + 1;
        }
        proof {
            assert(self@.keys.take(i as int) =~= self@.keys);
        }
        v
    }

    /// The objects the keys map to, in the order of the keys.
    pub fn all_values(&self) -> (v: Vec<Object>)
        requires
            self.wf(),
        ensures
            v@ == self@.values,
    {
        let mut v: Vec<Object> = Vec::new();
        let mut i: usize = 0;
        while i < self.values.len()
            invariant
                i <= self.values@.len(),
                v@ == self@.values.take(i as int),
            decreases self.values@.len() - i,
        {
            v.push(self.values[i].as_ptr());
            proof {
                assert(v@ =~= self@.values.take(i + 1));
            }
            i = i + 1;
        }
        proof {
            assert(self@.values.take(i as int) =~= self@.values);
        }
        v
    }

    /// The keys and the objects they map to, at the same positions; the keys
    /// are distinct, so looking up the key at a position finds that position.
    pub fn keys_and_objects(&self) -> (r: (Vec<&NSString>, Vec<Object>))
        requires
            self.wf(),
        ensures
            r.0@.map_values(|k: &NSString| k@) == self@.keys,
            r.1@ == self@.values,
            distinct_keys(self@.keys),
            forall|i: int| 0 <= i < self@.keys.len() ==> key_index(self@.keys, #[trigger] self@.keys[i]) == Some(i),
    {
        proof {
            assert forall|i: int| 0 <= i < self@.keys.len() implies key_index(self@.keys, #[trigger] self@.keys[i]) == Some(i) by {
                lemma_key_index_of_key(self@.keys, i);
            }
        }
        (self.all_keys(), self.all_values())
    }

    /// An enumerator over the keys, in order.
    pub fn key_enumerator(&self) -> (e: NSKeyEnumerator<'_>)
        requires
            self.wf(),
        ensures
            e.wf(),
            e.seq() == self@.keys,
            e.index() == 0,
    {
        NSKeyEnumerator { keys: self.all_keys(), next: 0 }
    }

    /// An enumerator over the objects the keys map to, in the order of the
    /// keys.
    pub fn object_enumerator(&self) -> (e: NSEnumerator)
        requires
            self.wf(),
        ensures
            e.wf(),
            e.seq() == self@.values,
            e.index() == 0,
    {
        NSEnumerator::from_objects(self.all_values())
    }

    /// The keys of `dict` and the pointers it holds, at the same positions;
    /// the retains pass to the caller.
    pub fn into_keys_and_objects(dict: NSDictionary<T, O>) -> (r: (Vec<NSString>, Vec<Id<T, O>>))
        ensures
            r.0@.map_values(|k: NSString| k@) == dict@.keys,
            objects_of(r.1@) == dict@.values,
    {
        (dict.keys, dict.values)
    }
}

/// Enumerates the keys of a dictionary one at a time.
pub struct NSKeyEnumerator<'a> {
    keys: Vec<&'a NSString>,
    next: usize,
}

impl<'a> NSKeyEnumerator<'a> {
    /// The keys being enumerated, in order.
    pub closed spec fn seq(&self) -> Seq<Seq<char>> {
        self.keys@.map_values(|k: &NSString| k@)
    }

    /// How many keys have been enumerated so far.
    pub closed spec fn index(&self) -> int {
        self.next as int
    }

    /// The enumerator's invariant: it has not gone past the end.
    pub closed spec fn wf(&self) -> bool {
        self.next <= self.keys@.len()
    }

    /// The next key, or `None` once every key has been enumerated.
    pub fn next(&mut self) -> (r: Option<&'a NSString>)
        requires
            old(self).wf(),
        ensures
            final(self).wf(),
            final(self).seq() == old(self).seq(),
            old(self).index() < old(self).seq().len() ==> (r matches Some(k) && k@ == old(self).seq()[old(
                self,
            ).index()]) && final(self).index() == old(self).index() + 1,
            old(self).index() >= old(self).seq().len() ==> r is None && final(self).index() == old(self).index(),
    {
        if self.next < self.keys.len() {
            let k = self.keys[self.next];
            self.next = self.next + 1;
            Some(k)
        } else {
            None
        }
    }
}

/// In a sequence of distinct keys, the key at position `i` is found at
/// position `i`.
pub proof fn lemma_key_index_of_key(keys: Seq<Seq<char>>, i: int)
    requires
        distinct_keys(keys),
        0 <= i < keys.len(),
    ensures
        key_index(keys, keys[i]) == Some(i),
{
    assert(keys[i] == keys[i]);
    let j = choose|j: int| 0 <= j < keys.len() && keys[j] == keys[i];
    assert(j == i);
}

/// Mapping a key to an object and then looking the key up gives that
/// object, and every other key keeps the object it mapped to.
pub proof fn lemma_insert_then_lookup(d: DictionaryModel, k: Seq<char>, v: Object, other: Seq<char>)
    requires
        distinct_keys(d.keys),
        d.keys.len() == d.values.len(),
        other != k,
    ensures
        ({
            let d2 = insert_pair(d, k, v).0;
            &&& key_index(d2.keys, k) matches Some(i) && d2.values[i] == v
            &&& distinct_keys(d2.keys)
            &&& match key_index(d.keys, other) {
                Some(i) => key_index(d2.keys, other) matches Some(j) && d2.values[j] == d.values[i],
                None => key_index(d2.keys, other) is None,
            }
        }),
{
    let d2 = insert_pair(d, k, v).0;
    match key_index(d.keys, k) {
        Some(i) => {
            assert(d2.keys == d.keys);
        },
        None => {
            assert(d2.keys[d.keys.len() as int] == k);
            assert forall|i: int, j: int|
                0 <= i < d2.keys.len() && 0 <= j < d2.keys.len() && i != j implies d2.keys[i] != d2.keys[j] by {
                if i == d.keys.len() {
                    assert(d.keys[j] != k);
                } else if j == d.keys.len() {
                    assert(d.keys[i] != k);
                }
            }
            let ki = choose|i: int| 0 <= i < d2.keys.len() && d2.keys[i] == k;
            assert(ki == d.keys.len());
        },
    }
    match key_index(d.keys, other) {
        Some(i) => {
            assert(d2.keys[i] == other);
            let j = choose|j: int| 0 <= j < d2.keys.len() && d2.keys[j] == other;
            assert(j == i);
        },
        None => {
            if exists|j: int| 0 <= j < d2.keys.len() && d2.keys[j] == other {
                let j = choose|j: int| 0 <= j < d2.keys.len() && d2.keys[j] == other;
                assert(j < d.keys.len());
                assert(d.keys[j] == other);
            }
        },
    }
}

} // verus!
