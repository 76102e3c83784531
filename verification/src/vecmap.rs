//! A hash map keyed by vectors that keeps its entries in insertion order.

use crate::num::Num;
use crate::vector::{vec_eq, Vector};
use vstd::prelude::*;

verus! {

/// One step of the hash of a vector: mixes one value into the running hash.
pub open spec fn spec_hash_step(h: u64, x: Num) -> u64 {
    (h ^ ((x + 0x8000_0000) as u64)).wrapping_mul(0x0000_0100_0000_01b3)
}

/// The hash of a vector: its values mixed in from first to last.
pub open spec fn spec_hash(v: Seq<Num>) -> u64
    decreases v.len(),
{
    if v.len() == 0 {
        0xcbf2_9ce4_8422_2325
    } else {
        spec_hash_step(spec_hash(v.drop_last()), v.last())
    }
}

/// The hash of a vector; equal vectors have equal hashes.
pub fn hash_vector(v: &Vector) -> (h: u64)
    ensures
        h == spec_hash(v@),
{
    let mut h: u64 = 0xcbf2_9ce4_8422_2325;
    let mut i: usize = 0;
    while i < v.len()
        invariant
            i <= v.len(),
            h == spec_hash(v@.take(i as int)),
        decreases v.len() - i,
    {
        let x: u64 = (v[i] as i64 + 0x8000_0000) as u64;
        proof {
            assert(v@.take(i + 1).drop_last() =~= v@.take(i as int));
        }
        h = (h ^ x).wrapping_mul(0x0000_0100_0000_01b3);
        i = i + 1;
    }
    proof {
        assert(v@.take(i as int) =~= v@);
    }
    h
}

/// The bucket a vector falls into when there are `count` buckets.
pub open spec fn spec_slot(v: Seq<Num>, count: nat) -> int {
    spec_hash(v) as int % count as int
}

/// A map from vectors to values that remembers the order in which its keys came. Every
/// key has a position, positions never change, and a key is found through a hash table.
pub struct VecMap<V> {
    keys: Vec<Vector>,
    vals: Vec<V>,
    buckets: Vec<Vec<usize>>,
}

impl<V: Copy> VecMap<V> {
    /// The keys, in the order they were inserted.
    pub closed spec fn keys(&self) -> Seq<Seq<Num>> {
        Seq::new(self.keys@.len(), |i: int| self.keys@[i]@)
    }

    /// The values, each at the position of its key.
    pub closed spec fn vals(&self) -> Seq<V> {
        self.vals@
    }

    /// The table finds every key, and no key occurs twice.
    pub closed spec fn wf(&self) -> bool {
        &&& self.keys@.len() == self.vals@.len()
        &&& self.buckets@.len() > 0
        &&& forall|i: int, j: int|
            0 <= i < j < self.keys@.len() ==> self.keys@[i]@ != self.keys@[j]@
        &&& forall|i: int|
            0 <= i < self.keys@.len() ==> (#[trigger] self.buckets@[spec_slot(
                self.keys@[i]@,
                self.buckets@.len(),
            )])@.contains(i as usize)
        &&& forall|b: int, p: int|
            0 <= b < self.buckets@.len() && 0 <= p < self.buckets@[b]@.len()
                ==> #[trigger] self.buckets@[b]@[p] < self.keys@.len()
    }

    /// The number of buckets of the table.
    pub closed spec fn bucket_count(&self) -> nat {
        self.buckets@.len()
    }

    /// Every bucket holds just the positions of the keys that fall into it, in rising
    /// order, so that no position is held twice.
    pub closed spec fn sorted_by_slot(&self) -> bool {
        &&& forall|b: int, p: int|
            0 <= b < self.buckets@.len() && 0 <= p < self.buckets@[b]@.len() ==> spec_slot(
                self.keys@[(#[trigger] self.buckets@[b]@[p]) as int]@,
                self.buckets@.len(),
            ) == b
        &&& forall|b: int, p: int, q: int|
            0 <= b < self.buckets@.len() && 0 <= p < q < self.buckets@[b]@.len()
                ==> #[trigger] self.buckets@[b]@[p] < #[trigger] self.buckets@[b]@[q]
    }

    /// True where the vector is a key of the map.
    pub open spec fn contains(&self, key: Seq<Num>) -> bool {
        self.keys().contains(key)
    }

    /// The position of a key of the map.
    pub open spec fn index_of(&self, key: Seq<Num>) -> int {
        self.keys().index_of(key)
    }

    /// The value stored under a key of the map.
    pub open spec fn value_of(&self, key: Seq<Num>) -> V {
        self.vals()[self.index_of(key)]
    }

    /// The map as a mathematical map.
    pub open spec fn view(&self) -> Map<Seq<Num>, V> {
        Map::new(|k: Seq<Num>| self.contains(k), |k: Seq<Num>| self.value_of(k))
    }

    /// A well-formed map has one value for each key and no key twice.
    pub proof fn lemma_wf(&self)
        requires
            self.wf(),
        ensures
            self.keys().len() == self.vals().len(),
            self.keys().no_duplicates(),
            forall|i: int|
                0 <= i < self.keys().len() ==> self.contains(#[trigger] self.keys()[i])
                    && self.index_of(self.keys()[i]) == i,
    {
        assert forall|i: int| 0 <= i < self.keys().len() implies self.contains(
            #[trigger] self.keys()[i],
        ) && self.index_of(self.keys()[i]) == i by {
            let k = self.keys()[i];
            assert(self.keys().contains(k));
            let j = self.keys().index_of(k);
            assert(self.keys()[j] == k);
        }
    }

    /// What appending a new key means for the map: the key is there with its value, and
    /// every other key is as it was.
    pub proof fn lemma_pushed(&self, before: &Self, key: Seq<Num>, val: V)
        requires
            before.wf(),
            self.wf(),
            !before.contains(key),
            self.keys() == before.keys().push(key),
            self.vals() == before.vals().push(val),
        ensures
            self.contains(key) && self.value_of(key) == val,
            forall|k: Seq<Num>| #[trigger] self.contains(k) <==> before.contains(k) || k == key,
            forall|k: Seq<Num>|
                before.contains(k) ==> #[trigger] self.value_of(k) == before.value_of(k),
    {
        before.lemma_wf();
        self.lemma_wf();
        let last = before.keys().len() as int;
        assert(self.keys()[last] == key);
        assert forall|k: Seq<Num>| #[trigger] self.contains(k) <==> before.contains(k) || k
            == key by {
            if before.contains(k) {
                let i = before.index_of(k);
                assert(self.keys()[i] == k);
            }
            if self.contains(k) && k != key {
                let i = self.index_of(k);
                assert(before.keys()[i] == k);
            }
        }
        assert forall|k: Seq<Num>| before.contains(k) implies #[trigger] self.value_of(k)
            == before.value_of(k) by {
            let i = before.index_of(k);
            assert(self.keys()[i] == k);
        }
    }

    /// What replacing the value at a position means for the map: the key at the position
    /// has the new value, and every other key is as it was.
    pub proof fn lemma_replaced(&self, before: &Self, at: int, val: V)
        requires
            before.wf(),
            self.wf(),
            0 <= at < before.keys().len(),
            self.keys() == before.keys(),
            self.vals() == before.vals().update(at, val),
        ensures
            self.value_of(before.keys()[at]) == val,
            forall|k: Seq<Num>| #[trigger] self.contains(k) <==> before.contains(k),
            forall|k: Seq<Num>|
                before.contains(k) && k != before.keys()[at] ==> #[trigger] self.value_of(k)
                    == before.value_of(k),
    {
        before.lemma_wf();
        self.lemma_wf();
        assert forall|k: Seq<Num>| before.contains(k) && k != before.keys()[at] implies #[trigger]
            self.value_of(k) == before.value_of(k) by {
            let i = before.index_of(k);
            assert(before.keys()[i] == k);
        }
    }

    /// The empty map.
    pub fn new() -> (m: Self)
        ensures
            m.wf(),
            m.keys() == Seq::<Seq<Num>>::empty(),
            m.vals() == Seq::<V>::empty(),
    {
        let mut buckets: Vec<Vec<usize>> = Vec::new();
        buckets.push(Vec::new());
        let m = VecMap { keys: Vec::new(), vals: Vec::new(), buckets };
        assert(m.keys() =~= Seq::<Seq<Num>>::empty());
        m
    }

    /// The number of keys.
    pub fn len(&self) -> (n: usize)
        requires
            self.wf(),
        ensures
            n == self.keys().len(),
            n == self.vals().len(),
    {
        self.keys.len()
    }

    /// The key at a position.
    pub fn key_at(&self, i: usize) -> (k: &Vector)
        requires
            self.wf(),
            i < self.keys().len(),
        ensures
            k@ == self.keys()[i as int],
    {
        &self.keys[i]
    }

    /// The value at a position.
    pub fn val_at(&self, i: usize) -> (v: V)
        requires
            self.wf(),
            i < self.keys().len(),
        ensures
            v == self.vals()[i as int],
    {
        self.vals[i]
    }

    /// The position of a key, if the map holds it.
    pub fn find(&self, key: &Vector) -> (r: Option<usize>)
        requires
            self.wf(),
        ensures
            r is Some <==> self.contains(key@),
            r is Some ==> r.unwrap() < self.keys().len() && self.keys()[r.unwrap() as int]
                == key@ && r.unwrap() == self.index_of(key@),
    {
        let count = self.buckets.len();
        let total = self.keys.len();
        let b: usize = (hash_vector(key) % (count as u64)) as usize;
        let bucket = &self.buckets[b];
        let mut p: usize = 0;
        while p < bucket.len()
            invariant
                self.wf(),
                p <= bucket.len(),
                bucket == self.buckets@[b as int],
                b == spec_slot(key@, self.buckets@.len()),
                total == self.keys@.len(),
                forall|q: int| 0 <= q < p ==> self.keys@[bucket@[q] as int]@ != key@,
            decreases bucket.len() - p,
        {
            let i = bucket[p];
            assert(self.buckets@[b as int]@[p as int] < self.keys@.len());
            if vec_eq(&self.keys[i], key) {
                proof {
                    assert(self.keys()[i as int] == key@);
                    self.lemma_wf();
                }
                return Some(i);
            }
            p = p + 1;
        }
        proof {
            if self.contains(key@) {
                let i = choose|i: int| 0 <= i < self.keys().len() && self.keys()[i] == key@;
                assert(self.keys@[i]@ == key@);
                let u: usize = i as usize;
                assert(self.buckets@[spec_slot(self.keys@[i]@, self.buckets@.len())]@.contains(u));
                assert(bucket@.contains(u));
                let q = choose|q: int| 0 <= q < bucket@.len() && bucket@[q] == u;
                assert(self.keys@[bucket@[q] as int]@ != key@);
                assert(false);
            }
        }
        None
    }

    /// Appends a key that the map does not hold yet, with its value; the positions of the
    /// other keys stay as they are.
    pub fn push_new(&mut self, key: Vector, val: V)
        requires
            old(self).wf(),
            !old(self).contains(key@),
        ensures
            final(self).wf(),
            final(self).keys() == old(self).keys().push(key@),
            final(self).vals() == old(self).vals().push(val),
    {
        let count = self.buckets.len();
        let i = self.keys.len();
        let b: usize = (hash_vector(&key) % (count as u64)) as usize;
        let ghost before = *self;
        let ghost k = key@;
        proof {
            assert forall|j: int| 0 <= j < before.keys@.len() implies before.keys@[j]@ != k by {
                assert(before.keys()[j] == before.keys@[j]@);
            }
        }
        self.keys.push(key);
        self.vals.push(val);
        self.buckets[b].push(i);
        proof {
            assert(self.keys() =~= before.keys().push(k));
            assert forall|j: int| 0 <= j < self.keys@.len() implies (#[trigger] self.buckets@[spec_slot(
                self.keys@[j]@,
                self.buckets@.len(),
            )])@.contains(j as usize) by {
                let s = spec_slot(self.keys@[j]@, self.buckets@.len());
                if j < i {
                    assert(before.buckets@[s]@.contains(j as usize));
                    let p = choose|p: int|
                        0 <= p < before.buckets@[s]@.len() && before.buckets@[s]@[p] == j as usize;
                    assert(self.buckets@[s]@[p] == j as usize);
                } else {
                    assert(self.buckets@[s]@[self.buckets@[s]@.len() - 1] == i);
                }
            }
        }
        if i / 2 >= count && count <= usize::MAX / 2 {
            self.rebuild(count * 2);
        }
    }

    /// Replaces the value at a position.
    pub fn set_val(&mut self, i: usize, val: V)
        requires
            old(self).wf(),
            i < old(self).keys().len(),
        ensures
            final(self).wf(),
            final(self).keys() == old(self).keys(),
            final(self).vals() == old(self).vals().update(i as int, val),
    {
        self.vals.set(i, val);
    }

    /// Distributes the positions over a new number of buckets: the table has that many
    /// buckets afterwards, and each holds just the positions of the keys that fall into
    /// it, each once. The keys and the values stay as they are.
    fn rebuild(&mut self, count: usize)
        requires
            old(self).wf(),
            count > 0,
        ensures
            final(self).wf(),
            final(self).keys() == old(self).keys(),
            final(self).vals() == old(self).vals(),
            final(self).bucket_count() == count,
            final(self).sorted_by_slot(),
    {
        let mut fresh: Vec<Vec<usize>> = Vec::with_capacity(count);
        let mut c: usize = 0;
        while c < count
            invariant
                c <= count,
                fresh@.len() == c,
                forall|b: int| 0 <= b < c ==> (#[trigger] fresh@[b])@.len() == 0,
            decreases count - c,
        {
            fresh.push(Vec::new());
            c = c + 1;
        }
        let total = self.keys.len();
        let mut i: usize = 0;
        while i < total
            invariant
                i <= total,
                total == self.keys@.len(),
                count > 0,
                fresh@.len() == count,
                forall|j: int|
                    0 <= j < i ==> (#[trigger] fresh@[spec_slot(self.keys@[j]@, count as nat)])@.contains(
                        j as usize,
                    ),
                forall|b: int, p: int|
                    0 <= b < count && 0 <= p < fresh@[b]@.len() ==> #[trigger] fresh@[b]@[p] < i,
                forall|b: int, p: int|
                    0 <= b < count && 0 <= p < fresh@[b]@.len() ==> spec_slot(
                        self.keys@[(#[trigger] fresh@[b]@[p]) as int]@,
                        count as nat,
                    ) == b,
                forall|b: int, p: int, q: int|
                    0 <= b < count && 0 <= p < q < fresh@[b]@.len() ==> #[trigger] fresh@[b]@[p]
                        < #[trigger] fresh@[b]@[q],
            decreases total - i,
        {
            let b: usize = (hash_vector(&self.keys[i]) % (count as u64)) as usize;
            let ghost prior = fresh@;
            fresh[b].push(i);
            proof {
                assert forall|c: int, p: int|
                    0 <= c < count && 0 <= p < fresh@[c]@.len() implies spec_slot(
                    self.keys@[(#[trigger] fresh@[c]@[p]) as int]@,
                    count as nat,
                ) == c by {
                    if !(c == b && p == prior[c]@.len()) {
                        assert(fresh@[c]@[p] == prior[c]@[p]);
                    }
                }
                assert forall|c: int, p: int, q: int|
                    0 <= c < count && 0 <= p < q < fresh@[c]@.len() implies #[trigger] fresh@[c]@[p]
                    < #[trigger] fresh@[c]@[q] by {
                    assert(fresh@[c]@[p] == prior[c]@[p]);
                    if !(c == b && q == prior[c]@.len()) {
                        assert(fresh@[c]@[q] == prior[c]@[q]);
                    } else {
                        assert(prior[c]@[p] < i);
                    }
                }
                assert forall|j: int| 0 <= j < i + 1 implies (#[trigger] fresh@[spec_slot(
                    self.keys@[j]@,
                    count as nat,
                )])@.contains(j as usize) by {
                    let s = spec_slot(self.keys@[j]@, count as nat);
                    if j < i {
                        assert(prior[s]@.contains(j as usize));
                        let p = choose|p: int|
                            0 <= p < prior[s]@.len() && prior[s]@[p] == j as usize;
                        assert(fresh@[s]@[p] == j as usize);
                    } else {
                        assert(fresh@[s]@[fresh@[s]@.len() - 1] == i);
                    }
                }
            }
            i = i + 1;
        }
        self.buckets = fresh;
    }
}

} // verus!
