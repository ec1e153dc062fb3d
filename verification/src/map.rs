//! A finite map from string keys to values that remembers the order in
//! which keys were first inserted, with a hash index for lookups.
use std::collections::HashMap;
use vstd::prelude::*;

verus! {

broadcast use {vstd::string::group_string_axioms, vstd::std_specs::hash::group_hash_axioms};

/// The prime modulus of `key_hash`.
pub const HASH_MODULUS: u64 = 4294967291;

/// The hash of a key: its characters read as digits in base 31, modulo
/// `HASH_MODULUS`.
pub open spec fn key_hash(s: Seq<char>) -> u64
    decreases s.len(),
{
    if s.len() == 0 {
        0
    } else {
        ((key_hash(s.drop_last()) * 31 + (s.last() as u32)) % (HASH_MODULUS as int)) as u64
    }
}

proof fn lemma_key_hash_bound(s: Seq<char>)
    ensures
        key_hash(s) < HASH_MODULUS,
    decreases s.len(),
{
    if s.len() > 0 {
        lemma_key_hash_bound(s.drop_last());
    }
}

/// The hash of the key `k`.
fn hash_key(k: &str) -> (h: u64)
    ensures
        h == key_hash(k@),
{
    let mut h: u64 = 0;
    for c in it: k.chars()
        invariant
            it.seq() == k@,
            h == key_hash(it.seq().take(it.index() as int)),
            h < HASH_MODULUS,
    {
        let ghost i = it.index() as int;
        assert(it.seq().take(i + 1).drop_last() =~= it.seq().take(i));
        h = (h * 31 + (c as u32) as u64) % HASH_MODULUS;
        proof {
            lemma_key_hash_bound(it.seq().take(i + 1));
        }
    }
    assert(k@.take(k@.len() as int) =~= k@);
    h
}

/// Map from string keys to values. Inserting a key that is already present
/// replaces its value and keeps its position; a new key goes last.
#[derive(Debug)]
pub struct StrMap<V> {
    entries: Vec<(String, V)>,
    index: HashMap<u64, Vec<usize>>,
}

/// The keys of `entries`, in order.
pub open spec fn keys_of<V>(entries: Seq<(String, V)>) -> Seq<Seq<char>> {
    entries.map_values(|e: (String, V)| e.0@)
}

impl<V> View for StrMap<V> {
    type V = Map<Seq<char>, V>;

    closed spec fn view(&self) -> Map<Seq<char>, V> {
        Map::new(|k: Seq<char>| self.key_seq().contains(k), |k: Seq<char>| self.value_at(k))
    }
}

impl<V> StrMap<V> {
    /// No key occurs twice.
    spec fn keys_unique(self) -> bool {
        keys_of(self.entries@).no_duplicates()
    }

    /// Every bucket of the index lists positions of entries whose key has
    /// the bucket's hash.
    spec fn buckets_sound(self) -> bool {
        forall|h: u64, j: int|
            #![trigger self.index@[h]@[j]]
            self.index@.contains_key(h) && 0 <= j < self.index@[h]@.len() ==> {
                &&& self.index@[h]@[j] < self.entries@.len()
                &&& key_hash(self.entries@[self.index@[h]@[j] as int].0@) == h
            }
    }

    /// Every entry is listed in the bucket of its key's hash.
    spec fn buckets_complete(self) -> bool {
        forall|i: int|
            0 <= i < self.entries@.len() ==> {
                &&& self.index@.contains_key(key_hash(#[trigger] self.entries@[i].0@))
                &&& self.index@[key_hash(self.entries@[i].0@)]@.contains(i as usize)
            }
    }

    /// Keys are unique and the index lists exactly where each key is.
    #[verifier::type_invariant]
    spec fn well_formed(self) -> bool {
        &&& self.keys_unique()
        &&& self.buckets_sound()
        &&& self.buckets_complete()
    }

    /// The keys in insertion order.
    pub closed spec fn key_seq(&self) -> Seq<Seq<char>> {
        keys_of(self.entries@)
    }

    /// The value stored under `k` (meaningful when `k` is present).
    closed spec fn value_at(&self, k: Seq<char>) -> V {
        self.entries@[self.key_seq().index_of(k)].1
    }

    proof fn lemma_entry(&self, i: int)
        requires
            self.keys_unique(),
            0 <= i < self.entries@.len(),
        ensures
            self@.dom().contains(self.entries@[i].0@),
            self@[self.entries@[i].0@] == self.entries@[i].1,
    {
        let k = self.entries@[i].0@;
        assert(self.key_seq()[i] == k);
        let j = self.key_seq().index_of(k);
        assert(0 <= j < self.key_seq().len() && self.key_seq()[j] == k);
    }

    /// An empty map.
    pub fn new() -> (m: Self)
        ensures
            m@ == Map::<Seq<char>, V>::empty(),
            m.key_seq() == Seq::<Seq<char>>::empty(),
    {
        let m = StrMap { entries: Vec::new(), index: HashMap::new() };
        assert(m@ =~= Map::<Seq<char>, V>::empty());
        m
    }

    /// Number of keys.
    pub fn len(&self) -> (n: usize)
        ensures
            n == self.key_seq().len(),
    {
        self.entries.len()
    }

    /// Index of the entry whose key is `k`, if any.
    fn find(&self, k: &str) -> (r: Option<usize>)
        requires
            self.well_formed(),
        ensures
            match r {
                Some(i) => i < self.entries@.len() && self.entries@[i as int].0@ == k@,
                None => !self@.dom().contains(k@),
            },
    {
        let key = k.to_string();
        let h = hash_key(k);
        let n = self.entries.len();
        match self.index.get(&h) {
            None => {
                assert forall|j: int| 0 <= j < self.key_seq().len() implies self.key_seq()[j] != k@ by {
                    assert(self.key_seq()[j] == self.entries@[j].0@);
                    assert(self.index@.contains_key(key_hash(self.entries@[j].0@)));
                }
                None
            },
            Some(bucket) => {
                let mut j: usize = 0;
                while j < bucket.len()
                    invariant
                        self.well_formed(),
                        key@ == k@,
                        h == key_hash(k@),
                        self.index@.contains_key(h),
                        *bucket == self.index@[h],
                        n == self.entries@.len(),
                        j <= bucket@.len(),
                        forall|q: int| 0 <= q < j ==> self.entries@[bucket@[q] as int].0@ != k@,
                    decreases bucket@.len() - j,
                {
                    let i = bucket[j];
                    assert(self.index@[h]@[j as int] == i);
                    if self.entries[i].0 == key {
                        return Some(i);
                    }
                    j = j + 1;
                }
                assert forall|q: int| 0 <= q < self.key_seq().len() implies self.key_seq()[q] != k@ by {
                    assert(self.key_seq()[q] == self.entries@[q].0@);
                    if self.entries@[q].0@ == k@ {
                        assert(q < n);
                        assert(self.index@[key_hash(self.entries@[q].0@)]@.contains(q as usize));
                        let t = choose|t: int|
                            0 <= t < self.index@[h]@.len() && self.index@[h]@[t] == q as usize;
                        assert(bucket@[t] == q as usize);
                        assert(self.entries@[bucket@[t] as int].0@ != k@);
                    }
                }
                None
            },
        }
    }

    /// The value stored under `k`, if any.
    pub fn get(&self, k: &str) -> (r: Option<&V>)
        ensures
            match r {
                Some(v) => self@.dom().contains(k@) && *v == self@[k@],
                None => !self@.dom().contains(k@),
            },
    {
        proof {
            use_type_invariant(self);
        }
        match self.find(k) {
            Some(i) => {
                proof {
                    self.lemma_entry(i as int);
                }
                Some(&self.entries[i].1)
            },
            None => None,
        }
    }

    /// Whether `k` is present.
    pub fn contains_key(&self, k: &str) -> (b: bool)
        ensures
            b == self@.dom().contains(k@),
    {
        proof {
            use_type_invariant(self);
        }
        match self.find(k) {
            Some(i) => {
                proof {
                    self.lemma_entry(i as int);
                }
                true
            },
            None => false,
        }
    }

    /// The keys, in insertion order: each key of the map exactly once.
    pub fn keys(&self) -> (r: Vec<String>)
        ensures
            r@.map_values(|k: String| k@) == self.key_seq(),
            self.key_seq().no_duplicates(),
            forall|k: Seq<char>| #[trigger] self@.dom().contains(k) <==> self.key_seq().contains(k),
    {
        proof {
            use_type_invariant(self);
        }
        let mut r: Vec<String> = Vec::new();
        let mut i: usize = 0;
        while i < self.entries.len()
            invariant
                i <= self.entries@.len(),
                r@.map_values(|k: String| k@) == self.key_seq().take(i as int),
            decreases self.entries@.len() - i,
        {
            let k = self.entries[i].0.clone();
            let ghost r0 = r@;
            r.push(k);
            assert(r@.map_values(|k: String| k@) =~= self.key_seq().take(i + 1)) by {
                assert(r@ == r0.push(k));
                assert(r@.map_values(|k: String| k@) =~= r0.map_values(|k: String| k@).push(k@));
                assert(r0.map_values(|k: String| k@) == self.key_seq().take(i as int));
                assert(self.key_seq()[i as int] == self.entries@[i as int].0@);
            }
            i = i + 1;
        }
        assert(self.key_seq().take(self.entries@.len() as int) =~= self.key_seq());
        r
    }

    /// Stores `v` under `k`, replacing any earlier value.
    pub fn insert(&mut self, k: String, v: V)
        ensures
            final(self)@ == old(self)@.insert(k@, v),
            old(self)@.dom().contains(k@) ==> final(self).key_seq() == old(self).key_seq(),
            !old(self)@.dom().contains(k@) ==> final(self).key_seq() == old(self).key_seq().push(
                k@,
            ),
    {
        proof {
            use_type_invariant(&*self);
        }
        let pos = self.find(k.as_str());
        let h = hash_key(k.as_str());
        let ghost old_self = *self;
        let ghost kv = k@;
        let mut taken: StrMap<V> = StrMap::new();
        std::mem::swap(&mut taken, self);
        let StrMap { entries: mut entries, index: mut index } = taken;
        match pos {
            Some(i) => {
                entries.set(i, (k, v));
                assert(keys_of(entries@) =~= keys_of(old_self.entries@));
                assert forall|x: int| 0 <= x < entries@.len() implies #[trigger] entries@[x].0@
                    == old_self.entries@[x].0@ by {
                    if x == i as int {
                        assert(old_self.entries@[x].0@ == kv);
                    }
                }
            },
            None => {
                let idx = entries.len();
                entries.push((k, v));
                let mut bucket = match index.remove(&h) {
                    Some(b) => b,
                    None => Vec::new(),
                };
                let ghost old_bucket = bucket@;
                bucket.push(idx);
                index.insert(h, bucket);
                assert(keys_of(entries@) =~= keys_of(old_self.entries@).push(kv));
                assert forall|a: int, b: int|
                    0 <= a < b < keys_of(entries@).len() implies keys_of(entries@)[a] != keys_of(
                    entries@,
                )[b] by {
                    if b == keys_of(entries@).len() - 1 {
                        assert(old_self.key_seq()[a] == keys_of(entries@)[a]);
                    }
                }
                assert forall|hh: u64, j: int|
                    #![trigger index@[hh]@[j]]
                    index@.contains_key(hh) && 0 <= j < index@[hh]@.len() implies {
                        &&& index@[hh]@[j] < entries@.len()
                        &&& key_hash(entries@[index@[hh]@[j] as int].0@) == hh
                    } by {
                    if hh == h {
                        if j < old_bucket.len() {
                            assert(old_self.index@[h]@[j] == index@[hh]@[j]);
                        }
                    } else {
                        assert(old_self.index@[hh]@[j] == index@[hh]@[j]);
                    }
                }
                assert forall|x: int| 0 <= x < entries@.len() implies {
                    &&& index@.contains_key(key_hash(#[trigger] entries@[x].0@))
                    &&& index@[key_hash(entries@[x].0@)]@.contains(x as usize)
                } by {
                    if x < idx {
                        let hx = key_hash(entries@[x].0@);
                        assert(entries@[x] == old_self.entries@[x]);
                        assert(old_self.index@[hx]@.contains(x as usize));
                        let t = choose|t: int|
                            0 <= t < old_self.index@[hx]@.len() && old_self.index@[hx]@[t] == x as usize;
                        if hx == h {
                            assert(index@[hx]@[t] == x as usize);
                        } else {
                            assert(index@[hx] == old_self.index@[hx]);
                        }
                    } else {
                        assert(index@[h]@[old_bucket.len() as int] == idx);
                    }
                }
            },
        }
        *self = StrMap { entries, index };
        proof {
            let new_self = *self;
            assert forall|key: Seq<char>| #[trigger]
                new_self@.dom().contains(key) == old_self@.insert(kv, v).dom().contains(key) by {
                if key != kv {
                    if old_self.key_seq().contains(key) {
                        let j = old_self.key_seq().index_of(key);
                        assert(new_self.key_seq()[j] == key);
                    }
                    if new_self.key_seq().contains(key) {
                        let j = new_self.key_seq().index_of(key);
                        assert(old_self.key_seq()[j] == key);
                    }
                } else {
                    match pos {
                        Some(i) => assert(new_self.key_seq()[i as int] == kv),
                        None => assert(new_self.key_seq()[old_self.key_seq().len() as int] == kv),
                    }
                }
            }
            assert forall|key: Seq<char>| #[trigger] new_self@.dom().contains(key) implies new_self@[key]
                == old_self@.insert(kv, v)[key] by {
                assert(new_self.keys_unique());
                let j = new_self.key_seq().index_of(key);
                assert(0 <= j < new_self.key_seq().len() && new_self.key_seq()[j] == key);
                new_self.lemma_entry(j);
                if key != kv {
                    match pos {
                        Some(i) => {
                            assert(j != i);
                        },
                        None => {
                            assert(j < old_self.key_seq().len());
                        },
                    }
                    assert(old_self.entries@[j] == new_self.entries@[j]);
                    old_self.lemma_entry(j);
                } else {
                    match pos {
                        Some(i) => {
                            assert(new_self.key_seq()[i as int] == kv);
                            assert(j == i);
                        },
                        None => {
                            let last = old_self.key_seq().len() as int;
                            assert(new_self.key_seq()[last] == kv);
                            assert(j == last);
                        },
                    }
                }
            }
            assert(new_self@ =~= old_self@.insert(kv, v));
        }
    }
}

/// The keys that inserting the keys `new`, in order, adds to a map whose
/// keys are `keys`: a key not yet present goes last.
pub open spec fn insert_keys(keys: Seq<Seq<char>>, new: Seq<Seq<char>>) -> Seq<Seq<char>>
    decreases new.len(),
{
    if new.len() == 0 {
        keys
    } else {
        let next = if keys.contains(new[0]) {
            keys
        } else {
            keys.push(new[0])
        };
        insert_keys(next, new.drop_first())
    }
}

impl<V> StrMap<V> {
    /// Inserts every entry of `other`, in its order; values of `other` win.
    pub fn extend(&mut self, other: StrMap<V>)
        ensures
            final(self)@ == old(self)@.union_prefer_right(other@),
            final(self).key_seq() == insert_keys(old(self).key_seq(), other.key_seq()),
    {
        proof {
            use_type_invariant(&other);
        }
        let ghost o = other;
        let StrMap { entries: other_entries, index: _ } = other;
        let ghost n = o.entries@.len();
        proof {
            assert(o.entries@.skip(0) =~= o.entries@);
            let all = Map::new(
                |k: Seq<char>| keys_of(o.entries@.skip(0)).contains(k),
                |k: Seq<char>| o@[k],
            );
            assert(all =~= o@);
        }
        for e in it: other_entries.into_iter()
            invariant
                it.seq() == o.entries@,
                n == o.entries@.len(),
                o.keys_unique(),
                old(self)@.union_prefer_right(o@) == self@.union_prefer_right(
                    Map::new(
                        |k: Seq<char>| keys_of(o.entries@.skip(it.index() as int)).contains(k),
                        |k: Seq<char>| o@[k],
                    ),
                ),
                insert_keys(old(self).key_seq(), o.key_seq()) == insert_keys(
                    self.key_seq(),
                    keys_of(o.entries@.skip(it.index() as int)),
                ),
        {
            let ghost idx = it.index() as int;
            let ghost r0 = o.entries@.skip(idx);
            let ghost rest = o.entries@.skip(idx + 1);
            let ghost s0 = *self;
            let (k, v) = e;
            let ghost kv = k@;
            proof {
                assert(e == o.entries@[idx]);
                o.lemma_entry(idx);
            }
            self.insert(k, v);
            proof {
                assert(keys_of(r0).drop_first() =~= keys_of(rest));
                assert(keys_of(r0)[0] == kv);
                let before = Map::new(|q: Seq<char>| keys_of(r0).contains(q), |q: Seq<char>| o@[q]);
                let after = Map::new(|q: Seq<char>| keys_of(rest).contains(q), |q: Seq<char>| o@[q]);
                assert forall|q: Seq<char>| #[trigger] keys_of(r0).contains(q) <==> (q == kv
                    || keys_of(rest).contains(q)) by {
                    if keys_of(r0).contains(q) && q != kv {
                        let j = choose|j: int| 0 <= j < keys_of(r0).len() && keys_of(r0)[j] == q;
                        assert(j != 0);
                        assert(keys_of(rest)[j - 1] == q);
                    }
                    if keys_of(rest).contains(q) {
                        let j = choose|j: int| 0 <= j < keys_of(rest).len() && keys_of(rest)[j] == q;
                        assert(keys_of(r0)[j + 1] == q);
                    }
                }
                assert(s0@.union_prefer_right(before) =~= self@.union_prefer_right(after));
            }
        }
        proof {
            let empty = Map::new(
                |k: Seq<char>| keys_of(o.entries@.skip(n as int)).contains(k),
                |k: Seq<char>| o@[k],
            );
            assert(keys_of(o.entries@.skip(n as int)) =~= Seq::<Seq<char>>::empty());
            assert(empty =~= Map::<Seq<char>, V>::empty());
            assert(self@.union_prefer_right(empty) =~= self@);
        }
    }
}

} // verus!
