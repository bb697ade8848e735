//! Bucket-hashed keyed store.
//!
//! `AxHashMap` spreads `u64` keys over a power-of-two number of buckets using
//! a multiply-and-add folding hash (`SimpleHasher`) over the key's bytes,
//! seeded per map by its `SimpleHasherBuilder`. Each bucket is an unordered
//! run of key-value pairs; a key lives in exactly one bucket and at most one
//! slot, so the whole store abstracts to a finite `Map<u64, T>`.

use vstd::prelude::*;

verus! {

use vstd::pervasive::VecAdditionalExecFns;
use vstd::wrapping::u64_specs;

/// One folding step of the bucket hash: multiply the running state by 31 and
/// add the next byte, both wrapping at the width of `u64`.
pub open spec fn hash_step(state: u64, byte: u8) -> u64 {
    u64_specs::wrapping_add(u64_specs::wrapping_mul(state, 31), byte as u64)
}

/// `bytes` folded onto `state`, one step per byte.
pub open spec fn hash_bytes(state: u64, bytes: Seq<u8>) -> u64
    decreases bytes.len(),
{
    if bytes.len() == 0 {
        state
    } else {
        hash_step(hash_bytes(state, bytes.drop_last()), bytes.last())
    }
}

/// The eight bytes of a key, least significant first.
pub open spec fn key_bytes(key: u64) -> Seq<u8> {
    seq![
        (key & 0xff) as u8,
        ((key >> 8) & 0xff) as u8,
        ((key >> 16) & 0xff) as u8,
        ((key >> 24) & 0xff) as u8,
        ((key >> 32) & 0xff) as u8,
        ((key >> 40) & 0xff) as u8,
        ((key >> 48) & 0xff) as u8,
        ((key >> 56) & 0xff) as u8,
    ]
}

/// The hash that a builder with seed `seed` gives to `key`.
pub open spec fn hash_of(seed: u64, key: u64) -> u64 {
    hash_bytes(seed, key_bytes(key))
}

/// Multiply-and-add folding hasher over bytes.
pub struct SimpleHasher {
    state: u64,
}

impl View for SimpleHasher {
    type V = u64;

    closed spec fn view(&self) -> u64 {
        self.state
    }
}

impl SimpleHasher {
    /// The accumulated hash state.
    pub fn finish(&self) -> (r: u64)
        ensures
            r == self@,
    {
        self.state
    }

    /// Fold `bytes` into the state, one step per byte.
    pub fn write(&mut self, bytes: &[u8])
        ensures
            final(self)@ == hash_bytes(old(self)@, bytes@),
    {
        let ghost orig: u64 = self.state;
        let mut i: usize = 0;
        while i < bytes.len()
            invariant
                i <= bytes@.len(),
                self.state == hash_bytes(orig, bytes@.take(i as int)),
            decreases bytes@.len() - i,
        {
            self.state = self.state.wrapping_mul(31).wrapping_add(bytes[i] as u64);
            proof {
                assert(bytes@.take(i + 1).drop_last() =~= bytes@.take(i as int));
                assert(bytes@.take(i + 1).last() == bytes@[i as int]);
            }
            i = i + 1;
        }
        proof {
            assert(bytes@.take(bytes@.len() as int) =~= bytes@);
        }
    }
}

/// Supplier of `SimpleHasher`s, all primed with the same per-map seed.
pub struct SimpleHasherBuilder {
    seed: u64,
}

impl View for SimpleHasherBuilder {
    type V = u64;

    closed spec fn view(&self) -> u64 {
        self.seed
    }
}

impl SimpleHasherBuilder {
    /// A builder whose hashers all start from `seed`.
    pub fn new(seed: u64) -> (r: Self)
        ensures
            r@ == seed,
    {
        SimpleHasherBuilder { seed }
    }

    /// A hasher primed with this builder's seed.
    pub fn build_hasher(&self) -> (h: SimpleHasher)
        ensures
            h@ == self@,
    {
        SimpleHasher { state: self.seed }
    }
}

/// Bucket-hashed keyed store from `u64` keys to values of type `T`,
/// abstracting to a finite `Map<u64, T>`.
pub struct AxHashMap<T> {
    buckets: Vec<Vec<(u64, T)>>,
    hash_builder: SimpleHasherBuilder,
    len: usize,
}

impl<T> View for AxHashMap<T> {
    type V = Map<u64, T>;

    /// The store abstracts to the map that holds exactly the keys found in
    /// some bucket slot, each bound to the value stored beside it.
    closed spec fn view(&self) -> Map<u64, T> {
        Map::new(|k: u64| self.spec_contains(k), |k: u64| self.spec_value(k))
    }
}

impl<T> AxHashMap<T> {
    /// The seed all of this map's hashers are primed with.
    pub closed spec fn spec_seed(&self) -> u64 {
        self.hash_builder@
    }

    /// Index of the bucket that `key` belongs to.
    closed spec fn bucket_of(&self, key: u64) -> int {
        (hash_of(self.spec_seed(), key) as usize) as int % (self.buckets@.len() as int)
    }

    /// Slot `i` of the bucket for `key` holds `key`.
    closed spec fn slot_holds(&self, key: u64, i: int) -> bool {
        &&& 0 <= i < self.buckets@[self.bucket_of(key)]@.len()
        &&& self.buckets@[self.bucket_of(key)]@[i].0 == key
    }

    closed spec fn spec_contains(&self, key: u64) -> bool {
        exists|i: int| self.slot_holds(key, i)
    }

    closed spec fn spec_value(&self, key: u64) -> T {
        self.buckets@[self.bucket_of(key)]@[choose|i: int| self.slot_holds(key, i)].1
    }

    /// Every stored pair sits in the bucket its key hashes to.
    closed spec fn keys_placed(&self) -> bool {
        forall|b: int, i: int|
            0 <= b < self.buckets@.len() && 0 <= i < self.buckets@[b]@.len()
                ==> self.bucket_of(#[trigger] self.buckets@[b]@[i].0) == b
    }

    /// No bucket holds the same key twice.
    closed spec fn keys_unique(&self) -> bool {
        forall|b: int, i: int, j: int|
            0 <= b < self.buckets@.len() && 0 <= i < self.buckets@[b]@.len() && 0 <= j
                < self.buckets@[b]@.len() && i != j ==> (#[trigger] self.buckets@[b]@[i].0)
                != (#[trigger] self.buckets@[b]@[j].0)
    }

    /// Well-formedness: at least one bucket, keys placed by their hash and
    /// never duplicated, and the recorded length is the number of keys.
    pub closed spec fn wf(&self) -> bool {
        &&& self.buckets@.len() >= 1
        &&& self.keys_placed()
        &&& self.keys_unique()
        &&& self@.dom().finite()
        &&& self.len as int == self@.dom().len()
    }

    /// An empty store with room for `capacity` entries before its buckets
    /// start to crowd; the bucket count is the next power of two.
    pub fn with_capacity(capacity: usize) -> (r: Self)
        requires
            capacity <= usize::MAX / 2,
        ensures
            r.wf(),
            r@ == Map::<u64, T>::empty(),
    {
        let mut bucket_count: usize = 1;
        while bucket_count < capacity
            invariant
                1 <= bucket_count,
                capacity <= usize::MAX / 2,
            decreases 2 * capacity - bucket_count,
        {
            bucket_count = bucket_count * 2;
        }
        let mut buckets: Vec<Vec<(u64, T)>> = Vec::new();
        let mut n: usize = 0;
        while n < bucket_count
            invariant
                n == buckets@.len(),
                n <= bucket_count,
                forall|b: int| 0 <= b < n ==> (#[trigger] buckets@[b])@.len() == 0,
            decreases bucket_count - n,
        {
            buckets.push(Vec::new());
            n = n + 1;
        }
        let r = AxHashMap { buckets, hash_builder: SimpleHasherBuilder { seed: 0 }, len: 0 };
        proof {
            assert forall|k: u64| !r.spec_contains(k) by {
                assert(forall|i: int| !r.slot_holds(k, i));
            }
            assert(r@ =~= Map::<u64, T>::empty());
        }
        r
    }

    /// An empty store with the default capacity.
    pub fn new() -> (r: Self)
        ensures
            r.wf(),
            r@ == Map::<u64, T>::empty(),
    {
        Self::with_capacity(16)
    }

    /// Number of keys in the store.
    pub fn len(&self) -> (r: usize)
        requires
            self.wf(),
        ensures
            r == self@.dom().len(),
    {
        self.len
    }

    /// Whether the store holds no key at all.
    pub fn is_empty(&self) -> (r: bool)
        requires
            self.wf(),
        ensures
            r == (self@.dom().len() == 0),
    {
        self.len == 0
    }

    /// The hash this map gives to `key`.
    fn hash(&self, key: u64) -> (r: u64)
        ensures
            r == hash_of(self.spec_seed(), key),
    {
        let mut hasher = self.hash_builder.build_hasher();
        let bytes = key_to_le_bytes(key);
        hasher.write(bytes.as_slice());
        hasher.finish()
    }

    /// Bucket index for a hash value.
    fn bucket_index(&self, hash: u64) -> (r: usize)
        requires
            self.buckets@.len() >= 1,
        ensures
            r as int == (hash as usize) as int % (self.buckets@.len() as int),
            r < self.buckets@.len(),
    {
        (hash as usize) % self.buckets.len()
    }

    /// Index of the slot holding `key` in `bucket`, if any.
    fn find_slot(bucket: &Vec<(u64, T)>, key: u64) -> (r: Option<usize>)
        ensures
            (r matches Some(i) ==> i < bucket@.len() && bucket@[i as int].0 == key),
            r is None ==> forall|m: int| 0 <= m < bucket@.len() ==> (#[trigger] bucket@[m]).0
                != key,
    {
        let mut i: usize = 0;
        while i < bucket.len()
            invariant
                i <= bucket@.len(),
                forall|m: int| 0 <= m < i ==> (#[trigger] bucket@[m]).0 != key,
            decreases bucket@.len() - i,
        {
            if bucket[i].0 == key {
                return Some(i);
            }
            i = i + 1;
        }
        None
    }

    /// Bind `key` to `value`: the store afterwards is the old store with that
    /// one binding added or overwritten. Returns the value `key` was bound to
    /// before, if any.
    pub fn insert(&mut self, key: u64, value: T) -> (r: Option<T>)
        requires
            old(self).wf(),
            old(self)@.dom().len() < usize::MAX,
        ensures
            final(self).wf(),
            final(self)@ == old(self)@.insert(key, value),
            (r matches Some(v) ==> old(self)@.contains_key(key) && v == old(self)@[key]),
            r is None ==> !old(self)@.contains_key(key),
    {
        let ghost pre = *self;
        let hash = self.hash(key);
        let idx = self.bucket_index(hash);
        proof {
            assert(idx as int == pre.bucket_of(key));
        }
        let ghost pb = pre.buckets@[idx as int]@;
        match Self::find_slot(&self.buckets[idx], key) {
            Some(i) => {
                let mut pair = (key, value);
                let bucket = &mut self.buckets[idx];
                bucket.set_and_swap(i, &mut pair);
                proof {
                    let post = *self;
                    assert(post.buckets@[idx as int]@ =~= pb.update(i as int, (key, value)));
                    assert(pre.slot_holds(key, i as int));
                    // the updated slot already held `key`, so every key is
                    // where it was
                    assert forall|b: int, m: int|
                        0 <= b < post.buckets@.len() && 0 <= m
                            < post.buckets@[b]@.len() implies #[trigger] post.buckets@[b]@[m].0
                        == pre.buckets@[b]@[m].0 by {}
                    Self::lemma_same_keys_same_view(pre, post);
                    assert(pre.spec_contains(key));
                    let s = choose|s: int| pre.slot_holds(key, s);
                    assert(pre.slot_holds(key, s) && pre.slot_holds(key, i as int));
                    assert(s == i as int);
                    assert(pair.1 == pre@[key]);
                    assert(post.spec_value(key) == value);
                    assert(post@ =~= pre@.insert(key, value));
                    assert(pre@.dom() =~= post@.dom());
                }
                Some(pair.1)
            },
            None => {
                let bucket = &mut self.buckets[idx];
                bucket.push((key, value));
                self.len = self.len + 1;
                proof {
                    let post = *self;
                    let nb = post.buckets@[idx as int]@;
                    assert(nb =~= pb.push((key, value)));
                    assert(!pre.spec_contains(key));
                    Self::lemma_push_view(pre, post, idx as int, key, value);
                    assert(post@ =~= pre@.insert(key, value));
                    assert(post@.dom() =~= pre@.dom().insert(key));
                }
                None
            },
        }
    }

    /// Two stores whose buckets hold the same keys slot for slot abstract to
    /// maps with the same domain, and any common slot pair gives the same
    /// bound value.
    proof fn lemma_same_keys_same_view(pre: Self, post: Self)
        requires
            pre.wf(),
            post.spec_seed() == pre.spec_seed(),
            post.buckets@.len() == pre.buckets@.len(),
            forall|b: int|
                0 <= b < post.buckets@.len() ==> (#[trigger] post.buckets@[b])@.len()
                    == pre.buckets@[b]@.len(),
            forall|b: int, m: int|
                0 <= b < post.buckets@.len() && 0 <= m < post.buckets@[b]@.len()
                    ==> #[trigger] post.buckets@[b]@[m].0 == pre.buckets@[b]@[m].0,
        ensures
            post.keys_placed(),
            post.keys_unique(),
            forall|k: u64| post.spec_contains(k) == pre.spec_contains(k),
            forall|k: u64, s: int| post.slot_holds(k, s) ==> #[trigger] pre.slot_holds(k, s),
            post@.dom() =~= pre@.dom(),
    {
        assert forall|k: u64| post.bucket_of(k) == pre.bucket_of(k) by {}
        assert forall|b: int, m: int|
            0 <= b < post.buckets@.len() && 0 <= m
                < post.buckets@[b]@.len() implies post.bucket_of(
            #[trigger] post.buckets@[b]@[m].0,
        ) == b by {
            assert(pre.buckets@[b]@[m].0 == post.buckets@[b]@[m].0);
            assert(pre.bucket_of(pre.buckets@[b]@[m].0) == b);
        }
        assert forall|k: u64| post.spec_contains(k) == pre.spec_contains(k) by {
            if post.spec_contains(k) {
                let s = choose|s: int| post.slot_holds(k, s);
                assert(pre.slot_holds(k, s));
            }
            if pre.spec_contains(k) {
                let s = choose|s: int| pre.slot_holds(k, s);
                assert(post.slot_holds(k, s));
            }
        }
    }

    /// Appending a fresh key to its own bucket abstracts to `Map::insert`.
    proof fn lemma_push_view(pre: Self, post: Self, idx: int, key: u64, value: T)
        requires
            pre.wf(),
            post.spec_seed() == pre.spec_seed(),
            post.buckets@.len() == pre.buckets@.len(),
            0 <= idx < pre.buckets@.len(),
            idx == pre.bucket_of(key),
            !pre.spec_contains(key),
            forall|m: int|
                0 <= m < pre.buckets@[idx]@.len() ==> (#[trigger] pre.buckets@[idx]@[m]).0 != key,
            post.buckets@[idx]@ == pre.buckets@[idx]@.push((key, value)),
            forall|b: int|
                0 <= b < post.buckets@.len() && b != idx ==> #[trigger] post.buckets@[b]
                    == pre.buckets@[b],
        ensures
            post.keys_placed(),
            post.keys_unique(),
            post@ == pre@.insert(key, value),
            post@.dom() =~= pre@.dom().insert(key),
    {
        let pb = pre.buckets@[idx]@;
        let nb = post.buckets@[idx]@;
        assert forall|k: u64| post.bucket_of(k) == pre.bucket_of(k) by {}
        assert forall|b: int, m: int|
            0 <= b < post.buckets@.len() && 0 <= m
                < post.buckets@[b]@.len() implies post.bucket_of(
            #[trigger] post.buckets@[b]@[m].0,
        ) == b by {
            if b == idx && m == pb.len() {
                assert(post.buckets@[b]@[m].0 == key);
            } else {
                assert(post.buckets@[b]@[m] == pre.buckets@[b]@[m]);
                assert(pre.bucket_of(pre.buckets@[b]@[m].0) == b);
            }
        }
        assert forall|b: int, m: int, j: int|
            0 <= b < post.buckets@.len() && 0 <= m < post.buckets@[b]@.len() && 0 <= j
                < post.buckets@[b]@.len() && m != j implies (#[trigger] post.buckets@[b]@[m].0)
            != (#[trigger] post.buckets@[b]@[j].0) by {
            if b == idx {
                if m < pb.len() && j < pb.len() {
                    assert(pre.buckets@[b]@[m].0 != pre.buckets@[b]@[j].0);
                } else if m == pb.len() {
                    assert(post.buckets@[b]@[j].0 == pre.buckets@[b]@[j].0);
                } else {
                    assert(post.buckets@[b]@[m].0 == pre.buckets@[b]@[m].0);
                }
            } else {
                assert(pre.buckets@[b]@[m].0 != pre.buckets@[b]@[j].0);
            }
        }
        assert(post.slot_holds(key, pb.len() as int));
        assert forall|k: u64| k != key implies post.spec_contains(k) == pre.spec_contains(k) by {
            if post.spec_contains(k) {
                let s = choose|s: int| post.slot_holds(k, s);
                if post.bucket_of(k) == idx {
                    assert(s != pb.len());
                    assert(pre.slot_holds(k, s));
                } else {
                    assert(pre.slot_holds(k, s));
                }
            }
            if pre.spec_contains(k) {
                let s = choose|s: int| pre.slot_holds(k, s);
                assert(post.slot_holds(k, s));
            }
        }
        assert forall|k: u64| k != key && post.spec_contains(k) implies post.spec_value(k)
            == pre.spec_value(k) by {
            let s = choose|s: int| post.slot_holds(k, s);
            assert(post.slot_holds(k, s));
            assert(pre.slot_holds(k, s));
            let s2 = choose|s2: int| pre.slot_holds(k, s2);
            assert(pre.slot_holds(k, s2));
            assert(s2 == s);
            if post.bucket_of(k) == idx {
                assert(s != pb.len());
                assert(post.buckets@[idx]@[s] == pre.buckets@[idx]@[s]);
            }
        }
        assert(post.spec_value(key) == value) by {
            let s = choose|s: int| post.slot_holds(key, s);
            assert(post.slot_holds(key, s) && post.slot_holds(key, pb.len() as int));
            assert(s == pb.len() as int);
        }
        assert(post@ =~= pre@.insert(key, value));
    }

    /// Unbind `key`: the store afterwards is the old store without that
    /// binding. Returns the value `key` was bound to, if any.
    pub fn remove(&mut self, key: u64) -> (r: Option<T>)
        requires
            old(self).wf(),
        ensures
            final(self).wf(),
            final(self)@ == old(self)@.remove(key),
            (r matches Some(v) ==> old(self)@.contains_key(key) && v == old(self)@[key]),
            r is None ==> !old(self)@.contains_key(key),
    {
        let ghost pre = *self;
        let hash = self.hash(key);
        let idx = self.bucket_index(hash);
        proof {
            assert(idx as int == pre.bucket_of(key));
        }
        match Self::find_slot(&self.buckets[idx], key) {
            Some(i) => {
                proof {
                    assert(pre.slot_holds(key, i as int));
                    assert(pre@.dom().contains(key));
                    if pre@.dom().len() == 0 {
                        pre@.dom().lemma_len0_is_empty();
                    }
                }
                let bucket = &mut self.buckets[idx];
                let pair = bucket.remove(i);
                self.len = self.len - 1;
                proof {
                    let post = *self;
                    Self::lemma_remove_view(pre, post, idx as int, key, i as int);
                    let s = choose|s: int| pre.slot_holds(key, s);
                    assert(pre.slot_holds(key, s) && pre.slot_holds(key, i as int));
                    assert(s == i as int);
                    assert(pair.1 == pre@[key]);
                    assert(post@.dom() =~= pre@.dom().remove(key));
                }
                Some(pair.1)
            },
            None => {
                proof {
                    assert(!pre.spec_contains(key));
                    assert(pre@.remove(key) =~= pre@);
                }
                None
            },
        }
    }

    /// Taking the one slot that holds `key` out of its bucket abstracts to
    /// `Map::remove`.
    proof fn lemma_remove_view(pre: Self, post: Self, idx: int, key: u64, i: int)
        requires
            pre.wf(),
            post.spec_seed() == pre.spec_seed(),
            post.buckets@.len() == pre.buckets@.len(),
            0 <= idx < pre.buckets@.len(),
            idx == pre.bucket_of(key),
            pre.slot_holds(key, i),
            post.buckets@[idx]@ == pre.buckets@[idx]@.remove(i),
            forall|b: int|
                0 <= b < post.buckets@.len() && b != idx ==> #[trigger] post.buckets@[b]
                    == pre.buckets@[b],
        ensures
            post.keys_placed(),
            post.keys_unique(),
            post@ == pre@.remove(key),
            post@.dom() =~= pre@.dom().remove(key),
    {
        let pb = pre.buckets@[idx]@;
        let nb = post.buckets@[idx]@;
        assert(nb.len() == pb.len() - 1);
        assert forall|m: int| 0 <= m < nb.len() implies #[trigger] nb[m] == pb[
            if m < i {
                m
            } else {
                m + 1
            }
        ] by {}
        assert forall|k: u64| post.bucket_of(k) == pre.bucket_of(k) by {}
        assert forall|b: int, m: int|
            0 <= b < post.buckets@.len() && 0 <= m
                < post.buckets@[b]@.len() implies post.bucket_of(
            #[trigger] post.buckets@[b]@[m].0,
        ) == b by {
            if b == idx {
                let m0 = if m < i {
                    m
                } else {
                    m + 1
                };
                assert(post.buckets@[b]@[m] == pre.buckets@[b]@[m0]);
                assert(pre.bucket_of(pre.buckets@[b]@[m0].0) == b);
            } else {
                assert(pre.bucket_of(pre.buckets@[b]@[m].0) == b);
            }
        }
        assert forall|b: int, m: int, j: int|
            0 <= b < post.buckets@.len() && 0 <= m < post.buckets@[b]@.len() && 0 <= j
                < post.buckets@[b]@.len() && m != j implies (#[trigger] post.buckets@[b]@[m].0)
            != (#[trigger] post.buckets@[b]@[j].0) by {
            if b == idx {
                let m0 = if m < i {
                    m
                } else {
                    m + 1
                };
                let j0 = if j < i {
                    j
                } else {
                    j + 1
                };
                assert(pre.buckets@[b]@[m0].0 != pre.buckets@[b]@[j0].0);
            } else {
                assert(pre.buckets@[b]@[m].0 != pre.buckets@[b]@[j].0);
            }
        }
        assert(!post.spec_contains(key)) by {
            if post.spec_contains(key) {
                let s = choose|s: int| post.slot_holds(key, s);
                let s0 = if s < i {
                    s
                } else {
                    s + 1
                };
                assert(pre.buckets@[idx]@[s0].0 == key);
                assert(pre.buckets@[idx]@[i].0 == key);
                assert(s0 != i);
            }
        }
        assert forall|k: u64| k != key implies post.spec_contains(k) == pre.spec_contains(k) by {
            if post.spec_contains(k) {
                let s = choose|s: int| post.slot_holds(k, s);
                if post.bucket_of(k) == idx {
                    let s0 = if s < i {
                        s
                    } else {
                        s + 1
                    };
                    assert(pre.slot_holds(k, s0));
                } else {
                    assert(pre.slot_holds(k, s));
                }
            }
            if pre.spec_contains(k) {
                let s = choose|s: int| pre.slot_holds(k, s);
                if pre.bucket_of(k) == idx {
                    assert(s != i);
                    if s < i {
                        assert(post.slot_holds(k, s));
                    } else {
                        assert(post.slot_holds(k, s - 1));
                    }
                } else {
                    assert(post.slot_holds(k, s));
                }
            }
        }
        assert forall|k: u64| k != key && post.spec_contains(k) implies post.spec_value(k)
            == pre.spec_value(k) by {
            let s = choose|s: int| post.slot_holds(k, s);
            assert(post.slot_holds(k, s));
            let s0 = if post.bucket_of(k) == idx && s >= i {
                s + 1
            } else {
                s
            };
            assert(pre.slot_holds(k, s0));
            assert(post.buckets@[post.bucket_of(k)]@[s] == pre.buckets@[pre.bucket_of(k)]@[s0]);
            let s2 = choose|s2: int| pre.slot_holds(k, s2);
            assert(pre.slot_holds(k, s2));
            assert(s2 == s0);
        }
        assert(post@ =~= pre@.remove(key));
    }

    /// Look `key` up: `Some` with the bound value exactly when the store
    /// holds the key.
    pub fn get(&self, key: u64) -> (r: Option<&T>)
        requires
            self.wf(),
        ensures
            (r matches Some(v) ==> self@.contains_key(key) && *v == self@[key]),
            r is None ==> !self@.contains_key(key),
    {
        let hash = self.hash(key);
        let idx = self.bucket_index(hash);
        let bucket = &self.buckets[idx];
        let mut i: usize = 0;
        while i < bucket.len()
            invariant
                self.wf(),
                bucket == &self.buckets@[idx as int],
                idx as int == self.bucket_of(key),
                i <= bucket@.len(),
                forall|m: int| 0 <= m < i ==> (#[trigger] bucket@[m]).0 != key,
            decreases bucket@.len() - i,
        {
            if bucket[i].0 == key {
                proof {
                    assert(self.slot_holds(key, i as int));
                    let s = choose|s: int| self.slot_holds(key, s);
                    assert(self.slot_holds(key, s));
                    assert(s == i as int);
                }
                return Some(&bucket[i].1);
            }
            i = i + 1;
        }
        proof {
            assert forall|m: int| !self.slot_holds(key, m) by {}
        }
        None
    }
    /// An iterator over the store's entries, bucket by bucket.
    pub fn iter(&self) -> (r: Iter<'_, T>)
        requires
            self.wf(),
        ensures
            r.wf(),
            r.spec_map() == self@,
            r.spec_len_hint() == self@.dom().len(),
    {
        Iter { hashmap: self, bucket_idx: 0, item_idx: 0, bucket_len: self.len }
    }
}

/// Iterator over the entries of an `AxHashMap`, bucket by bucket.
pub struct Iter<'a, T> {
    hashmap: &'a AxHashMap<T>,
    bucket_idx: usize,
    item_idx: usize,
    bucket_len: usize,
}

impl<'a, T> Iter<'a, T> {
    /// The iterated store is well formed.
    pub closed spec fn wf(&self) -> bool {
        self.hashmap.wf()
    }

    /// The map being iterated.
    pub closed spec fn spec_map(&self) -> Map<u64, T> {
        self.hashmap@
    }

    /// The entry count recorded when the iterator was made.
    pub closed spec fn spec_len_hint(&self) -> usize {
        self.bucket_len
    }

    /// The next entry, or `None` once the buckets are exhausted. Every
    /// yielded pair is a real binding of the iterated store.
    pub fn next(&mut self) -> (r: Option<(u64, &'a T)>)
        requires
            old(self).wf(),
        ensures
            final(self).wf(),
            final(self).spec_map() == old(self).spec_map(),
            final(self).spec_len_hint() == old(self).spec_len_hint(),
            (r matches Some(p) ==> old(self).spec_map().contains_key(p.0) && *p.1
                == old(self).spec_map()[p.0]),
    {
        let hm = self.hashmap;
        while self.bucket_idx < hm.buckets.len()
            invariant
                self.hashmap == hm,
                hm == old(self).hashmap,
                self.bucket_len == old(self).bucket_len,
                hm.wf(),
            decreases hm.buckets@.len() - self.bucket_idx,
        {
            let b = self.bucket_idx;
            let bucket = &hm.buckets[b];
            if self.item_idx < bucket.len() {
                let i = self.item_idx;
                self.item_idx = i + 1;
                let pair = &bucket[i];
                proof {
                    assert(hm.bucket_of(pair.0) == b as int);
                    assert(hm.slot_holds(pair.0, i as int));
                    let s = choose|s: int| hm.slot_holds(pair.0, s);
                    assert(hm.slot_holds(pair.0, s));
                    assert(s == i as int);
                }
                return Some((pair.0, &pair.1));
            }
            self.bucket_idx = b + 1;
            self.item_idx = 0;
        }
        None
    }

    /// Bounds on how many entries are left: at least none, at most the
    /// store's entry count when the iterator was made.
    pub fn size_hint(&self) -> (r: (usize, Option<usize>))
        ensures
            r.0 == 0,
            r.1 == Some(self.spec_len_hint()),
    {
        (0, Some(self.bucket_len))
    }
}

/// Eight little-endian bytes of `key`.
fn key_to_le_bytes(key: u64) -> (r: Vec<u8>)
    ensures
        r@ == key_bytes(key),
{
    let mut out: Vec<u8> = Vec::new();
    out.push((key & 0xff) as u8);
    out.push(((key >> 8) & 0xff) as u8);
    out.push(((key >> 16) & 0xff) as u8);
    out.push(((key >> 24) & 0xff) as u8);
    out.push(((key >> 32) & 0xff) as u8);
    out.push(((key >> 40) & 0xff) as u8);
    out.push(((key >> 48) & 0xff) as u8);
    out.push(((key >> 56) & 0xff) as u8);
    proof {
        assert(out@ =~= key_bytes(key));
    }
    out
}

} // verus!
