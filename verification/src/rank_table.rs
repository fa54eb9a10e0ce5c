use std::collections::HashMap;
use std::collections::HashSet;
use vstd::prelude::*;

verus! {

broadcast use vstd::std_specs::hash::group_hash_axioms;

/// FNV-1a offset basis.
pub const FNV_OFFSET: u64 = 0xcbf2_9ce4_8422_2325;

/// FNV-1a prime.
pub const FNV_PRIME: u64 = 0x0000_0100_0000_01b3;

/// The 64-bit FNV-1a hash of a byte string, used to bucket the keys of a [`RankTable`].
pub open spec fn fnv1a(s: Seq<u8>) -> u64
    decreases s.len(),
{
    if s.len() == 0 {
        FNV_OFFSET
    } else {
        vstd::wrapping::u64_specs::wrapping_mul(fnv1a(s.drop_last()) ^ (s.last() as u64), FNV_PRIME)
    }
}

/// Computes [`fnv1a`] of `bytes`.
pub fn fnv1a_hash(bytes: &[u8]) -> (h: u64)
    ensures
        h == fnv1a(bytes@),
{
    let mut h: u64 = FNV_OFFSET;
    let mut i: usize = 0;
    while i < bytes.len()
        invariant
            i <= bytes.len(),
            h == fnv1a(bytes@.subrange(0, i as int)),
        decreases bytes.len() - i,
    {
        assert(bytes@.subrange(0, i + 1).drop_last() =~= bytes@.subrange(0, i as int));
        h = (h ^ (bytes[i] as u64)).wrapping_mul(FNV_PRIME);
        i = i + 1;
    }
    assert(bytes@.subrange(0, i as int) =~= bytes@);
    h
}

/// Compares two byte strings.
pub fn bytes_equal(a: &[u8], b: &[u8]) -> (r: bool)
    ensures
        r == (a@ == b@),
{
    if a.len() != b.len() {
        return false;
    }
    let mut i: usize = 0;
    while i < a.len()
        invariant
            a.len() == b.len(),
            i <= a.len(),
            forall|j: int| 0 <= j < i ==> a@[j] == b@[j],
        decreases a.len() - i,
    {
        if a[i] != b[i] {
            return false;
        }
        i = i + 1;
    }
    assert(a@ =~= b@);
    true
}

/// No key occurs twice in `s`.
pub open spec fn keys_unique<K, V>(s: Seq<(K, V)>) -> bool {
    forall|i: int, j: int| 0 <= i < j < s.len() ==> #[trigger] s[i].0 != #[trigger] s[j].0
}

/// The map obtained by inserting the pairs of `s` in order, later pairs overriding earlier ones.
pub open spec fn insert_all<K, V>(s: Seq<(K, V)>) -> Map<K, V>
    decreases s.len(),
{
    if s.len() == 0 {
        Map::empty()
    } else {
        insert_all(s.drop_last()).insert(s.last().0, s.last().1)
    }
}

/// A key is in [`insert_all`] exactly when some pair carries it.
pub proof fn lemma_insert_all_dom<K, V>(s: Seq<(K, V)>, k: K)
    ensures
        insert_all(s).contains_key(k) <==> exists|i: int| 0 <= i < s.len() && #[trigger] s[i].0 == k,
    decreases s.len(),
{
    if s.len() > 0 {
        lemma_insert_all_dom(s.drop_last(), k);
        if insert_all(s.drop_last()).contains_key(k) {
            let i = choose|i: int| 0 <= i < s.drop_last().len() && #[trigger] s.drop_last()[i].0 == k;
            assert(s[i].0 == k);
        }
        if exists|i: int| 0 <= i < s.len() && #[trigger] s[i].0 == k {
            let i = choose|i: int| 0 <= i < s.len() && #[trigger] s[i].0 == k;
            if i < s.len() - 1 {
                assert(s.drop_last()[i].0 == k);
            }
        }
    }
}

/// With unique keys, each pair's key maps to that pair's value.
pub proof fn lemma_insert_all_value<K, V>(s: Seq<(K, V)>, i: int)
    requires
        keys_unique(s),
        0 <= i < s.len(),
    ensures
        insert_all(s).contains_key(s[i].0),
        insert_all(s)[s[i].0] == s[i].1,
    decreases s.len(),
{
    lemma_insert_all_dom(s, s[i].0);
    if i < s.len() - 1 {
        let t = s.drop_last();
        assert(keys_unique(t)) by {
            assert forall|a: int, b: int| 0 <= a < b < t.len() implies #[trigger] t[a].0 != #[trigger] t[b].0 by {
                assert(t[a] == s[a] && t[b] == s[b]);
            }
        }
        assert(t[i] == s[i]);
        lemma_insert_all_value(t, i);
        assert(s[i].0 != s[s.len() - 1].0);
    }
}

/// With unique keys, the map has one key per pair.
pub proof fn lemma_insert_all_len<K, V>(s: Seq<(K, V)>)
    requires
        keys_unique(s),
    ensures
        insert_all(s).dom().finite(),
        insert_all(s).len() == s.len(),
    decreases s.len(),
{
    if s.len() > 0 {
        let t = s.drop_last();
        assert(keys_unique(t)) by {
            assert forall|a: int, b: int| 0 <= a < b < t.len() implies #[trigger] t[a].0 != #[trigger] t[b].0 by {
                assert(t[a] == s[a] && t[b] == s[b]);
            }
        }
        lemma_insert_all_len(t);
        lemma_insert_all_dom(t, s.last().0);
        if insert_all(t).contains_key(s.last().0) {
            let i = choose|i: int| 0 <= i < t.len() && #[trigger] t[i].0 == s.last().0;
            assert(s[i].0 == s[s.len() - 1].0);
        }
    }
}

/// Replacing the value of one pair of a key-unique sequence is a map insertion.
pub proof fn lemma_insert_all_update<K, V>(s: Seq<(K, V)>, i: int, v: V)
    requires
        keys_unique(s),
        0 <= i < s.len(),
    ensures
        keys_unique(s.update(i, (s[i].0, v))),
        insert_all(s.update(i, (s[i].0, v))) == insert_all(s).insert(s[i].0, v),
{
    let u = s.update(i, (s[i].0, v));
    assert(keys_unique(u)) by {
        assert forall|a: int, b: int| 0 <= a < b < u.len() implies #[trigger] u[a].0 != #[trigger] u[b].0 by {
            assert(u[a].0 == s[a].0 && u[b].0 == s[b].0);
        }
    }
    let m1 = insert_all(u);
    let m2 = insert_all(s).insert(s[i].0, v);
    assert forall|k: K| m1.contains_key(k) <==> m2.contains_key(k) by {
        lemma_insert_all_dom(u, k);
        lemma_insert_all_dom(s, k);
        if exists|j: int| 0 <= j < u.len() && #[trigger] u[j].0 == k {
            let j = choose|j: int| 0 <= j < u.len() && #[trigger] u[j].0 == k;
            assert(s[j].0 == k);
        }
        if exists|j: int| 0 <= j < s.len() && #[trigger] s[j].0 == k {
            let j = choose|j: int| 0 <= j < s.len() && #[trigger] s[j].0 == k;
            assert(u[j].0 == k);
        }
    }
    assert forall|k: K| m1.contains_key(k) implies m1[k] == m2[k] by {
        lemma_insert_all_dom(u, k);
        let j = choose|j: int| 0 <= j < u.len() && #[trigger] u[j].0 == k;
        lemma_insert_all_value(u, j);
        if j != i {
            lemma_insert_all_value(s, j);
        }
    }
    assert(m1 =~= m2);
}

/// No value occurs twice in `s`.
pub open spec fn values_unique<K, V>(s: Seq<(K, V)>) -> bool {
    forall|i: int, j: int| 0 <= i < j < s.len() ==> #[trigger] s[i].1 != #[trigger] s[j].1
}

/// No two keys of `m` map to the same value.
pub open spec fn map_injective<K, V>(m: Map<K, V>) -> bool {
    forall|a: K, b: K|
        #![trigger m[a], m[b]]
        m.contains_key(a) && m.contains_key(b) && a != b ==> m[a] != m[b]
}

/// For a key-unique sequence, distinct values of the pairs means an injective map.
pub proof fn lemma_values_unique_injective<K, V>(s: Seq<(K, V)>)
    requires
        keys_unique(s),
    ensures
        values_unique(s) <==> map_injective(insert_all(s)),
{
    let m = insert_all(s);
    if values_unique(s) {
        assert forall|a: K, b: K|
            #![trigger m[a], m[b]]
            m.contains_key(a) && m.contains_key(b) && a != b implies m[a] != m[b] by {
            lemma_insert_all_dom(s, a);
            lemma_insert_all_dom(s, b);
            let i = choose|i: int| 0 <= i < s.len() && #[trigger] s[i].0 == a;
            let j = choose|j: int| 0 <= j < s.len() && #[trigger] s[j].0 == b;
            lemma_insert_all_value(s, i);
            lemma_insert_all_value(s, j);
            if i < j {
                assert(s[i].1 != s[j].1);
            } else {
                assert(s[j].1 != s[i].1);
            }
        }
    }
    if map_injective(m) {
        assert forall|i: int, j: int| 0 <= i < j < s.len() implies #[trigger] s[i].1 != #[trigger] s[j].1 by {
            lemma_insert_all_value(s, i);
            lemma_insert_all_value(s, j);
            assert(s[i].0 != s[j].0);
            assert(m[s[i].0] != m[s[j].0]);
        }
    }
}

/// The value of `k` in `m`, if any.
pub open spec fn lookup<K, V>(m: Map<K, V>, k: K) -> Option<V> {
    if m.contains_key(k) {
        Some(m[k])
    } else {
        None
    }
}

/// Reading a key just written gives the value written; every other key reads as before.
pub proof fn lemma_read_after_write<K, V>(m: Map<K, V>, k: K, v: V, other: K)
    ensures
        lookup(m.insert(k, v), k) == Some(v),
        other != k ==> lookup(m.insert(k, v), other) == lookup(m, other),
{
}

/// A map from byte strings to ranks, kept as a list of distinct keys in insertion
/// order with a hash index over it.
pub struct RankTable {
    entries: Vec<(Vec<u8>, u32)>,
    buckets: HashMap<u64, Vec<usize>>,
}

impl RankTable {
    /// The pairs held, keys taken by their bytes, in the order their keys were first inserted.
    pub closed spec fn pairs(&self) -> Seq<(Seq<u8>, u32)> {
        self.entries@.map_values(|e: (Vec<u8>, u32)| (e.0@, e.1))
    }

    /// The table as a map.
    pub open spec fn as_map(&self) -> Map<Seq<u8>, u32> {
        insert_all(self.pairs())
    }

    /// The table's internal invariant.
    pub closed spec fn wf(&self) -> bool {
        &&& keys_unique(self.pairs())
        &&& forall|i: int|
            0 <= i < self.entries@.len() ==> {
                let h = fnv1a(#[trigger] self.entries@[i].0@);
                &&& self.buckets@.contains_key(h)
                &&& self.buckets@[h]@.contains(i as usize)
            }
        &&& forall|h: u64, j: int|
            #![trigger self.buckets@[h]@[j]]
            self.buckets@.contains_key(h) && 0 <= j < self.buckets@[h]@.len()
                ==> self.buckets@[h]@[j] < self.entries@.len()
    }

    /// An empty table.
    pub fn new() -> (t: RankTable)
        ensures
            t.wf(),
            t.as_map() == Map::<Seq<u8>, u32>::empty(),
            t.pairs().len() == 0,
    {
        let t = RankTable { entries: Vec::new(), buckets: HashMap::new() };
        assert(t.pairs() =~= Seq::<(Seq<u8>, u32)>::empty());
        t
    }

    /// The number of distinct keys.
    pub fn len(&self) -> (n: usize)
        requires
            self.wf(),
        ensures
            n == self.as_map().len(),
            n == self.pairs().len(),
    {
        proof {
            lemma_insert_all_len(self.pairs());
        }
        self.entries.len()
    }

    /// The position of `key` among the entries, if present.
    fn find(&self, key: &[u8], h: u64) -> (r: Option<usize>)
        requires
            self.wf(),
            h == fnv1a(key@),
        ensures
            match r {
                Some(i) => i < self.pairs().len() && self.pairs()[i as int].0 == key@,
                None => forall|i: int| 0 <= i < self.pairs().len() ==> #[trigger] self.pairs()[i].0 != key@,
            },
    {
        match self.buckets.get(&h) {
            None => {
                assert forall|i: int| 0 <= i < self.pairs().len() implies #[trigger] self.pairs()[i].0 != key@ by {
                    let e = self.entries@[i];
                    assert(self.pairs()[i].0 == e.0@);
                }
                None
            },
            Some(bucket) => {
                let mut j: usize = 0;
                while j < bucket.len()
                    invariant
                        self.wf(),
                        h == fnv1a(key@),
                        self.buckets@.contains_key(h),
                        bucket@ == self.buckets@[h]@,
                        j <= bucket.len(),
                        forall|k: int| 0 <= k < j ==> self.entries@[#[trigger] bucket@[k] as int].0@ != key@,
                    decreases bucket.len() - j,
                {
                    let idx = bucket[j];
                    assert(self.buckets@[h]@[j as int] < self.entries@.len());
                    if bytes_equal(self.entries[idx].0.as_slice(), key) {
                        return Some(idx);
                    }
                    j = j + 1;
                }
                let n = self.entries.len();
                assert forall|i: int| 0 <= i < self.pairs().len() implies #[trigger] self.pairs()[i].0 != key@ by {
                    assert(self.entries@.len() == self.pairs().len());
                    assert(i < n);
                    let e = self.entries@[i];
                    assert(self.pairs()[i].0 == e.0@);
                    if e.0@ == key@ {
                        let iu = i as usize;
                        assert(iu as int == i);
                        assert(self.buckets@[h]@.contains(iu));
                        let k = choose|k: int| 0 <= k < bucket@.len() && bucket@[k] == iu;
                        assert(self.entries@[bucket@[k] as int].0@ != key@);
                    }
                }
                None
            },
        }
    }

    /// The rank of `key`, if present.
    pub fn get(&self, key: &[u8]) -> (r: Option<u32>)
        requires
            self.wf(),
        ensures
            r == lookup(self.as_map(), key@),
    {
        let h = fnv1a_hash(key);
        proof {
            lemma_insert_all_dom(self.pairs(), key@);
        }
        match self.find(key, h) {
            Some(i) => {
                proof {
                    lemma_insert_all_value(self.pairs(), i as int);
                }
                Some(self.entries[i].1)
            },
            None => None,
        }
    }

    /// Inserts `key` with `rank`, replacing the rank of an equal key already present.
    pub fn insert(&mut self, key: Vec<u8>, rank: u32)
        requires
            old(self).wf(),
        ensures
            final(self).wf(),
            final(self).as_map() == old(self).as_map().insert(key@, rank),
    {
        let h = fnv1a_hash(key.as_slice());
        match self.find(key.as_slice(), h) {
            Some(i) => {
                let ghost old_pairs = self.pairs();
                proof {
                    lemma_insert_all_update(old_pairs, i as int, rank);
                }
                self.entries.set(i, (key, rank));
                assert(self.pairs() =~= old_pairs.update(i as int, (old_pairs[i as int].0, rank)));
                assert(old_pairs[i as int].0 == key@);
                assert forall|k: int| 0 <= k < self.entries@.len() implies {
                    let hk = fnv1a(#[trigger] self.entries@[k].0@);
                    &&& self.buckets@.contains_key(hk)
                    &&& self.buckets@[hk]@.contains(k as usize)
                } by {
                    if k != i {
                        assert(self.entries@[k] == old(self).entries@[k]);
                    } else {
                        assert(self.entries@[k].0@ == old(self).entries@[k].0@);
                    }
                }
            },
            None => {
                let ghost old_pairs = self.pairs();
                let idx = self.entries.len();
                self.entries.push((key, rank));
                assert(self.pairs() =~= old_pairs.push((key@, rank)));
                assert(self.pairs().drop_last() =~= old_pairs);
                let mut bucket = match self.buckets.remove(&h) {
                    Some(b) => b,
                    None => Vec::new(),
                };
                let ghost old_bucket = bucket@;
                bucket.push(idx);
                self.buckets.insert(h, bucket);
                assert(keys_unique(self.pairs())) by {
                    assert forall|a: int, b: int| 0 <= a < b < self.pairs().len() implies
                        #[trigger] self.pairs()[a].0 != #[trigger] self.pairs()[b].0 by {
                        if b == idx {
                            assert(old_pairs[a].0 != key@);
                        } else {
                            assert(self.pairs()[a] == old_pairs[a] && self.pairs()[b] == old_pairs[b]);
                        }
                    }
                }
                assert forall|k: int| 0 <= k < self.entries@.len() implies {
                    let hk = fnv1a(#[trigger] self.entries@[k].0@);
                    &&& self.buckets@.contains_key(hk)
                    &&& self.buckets@[hk]@.contains(k as usize)
                } by {
                    if k == idx {
                        assert(self.buckets@[h]@[old_bucket.len() as int] == idx);
                    } else {
                        assert(self.entries@[k] == old(self).entries@[k]);
                        let hk = fnv1a(self.entries@[k].0@);
                        assert(old(self).buckets@.contains_key(hk));
                        assert(old(self).buckets@[hk]@.contains(k as usize));
                        if hk == h {
                            let m = choose|m: int| 0 <= m < old_bucket.len() && old_bucket[m] == k as usize;
                            assert(self.buckets@[h]@[m] == k as usize);
                        } else {
                            assert(self.buckets@[hk] == old(self).buckets@[hk]);
                        }
                    }
                }
                assert forall|hh: u64, j: int|
                    #![trigger self.buckets@[hh]@[j]]
                    self.buckets@.contains_key(hh) && 0 <= j < self.buckets@[hh]@.len()
                        implies self.buckets@[hh]@[j] < self.entries@.len() by {
                    if hh == h {
                        if j < old_bucket.len() {
                            assert(old(self).buckets@[h]@[j] < old(self).entries@.len());
                        }
                    } else {
                        assert(old(self).buckets@[hh]@[j] < old(self).entries@.len());
                    }
                }
            },
        }
    }

    /// Whether no two keys share a rank.
    pub fn ranks_distinct(&self) -> (r: bool)
        requires
            self.wf(),
        ensures
            r == map_injective(self.as_map()),
    {
        let mut seen: HashSet<u32> = HashSet::new();
        let mut i: usize = 0;
        while i < self.entries.len()
            invariant
                self.wf(),
                i <= self.entries@.len(),
                self.pairs().len() == self.entries@.len(),
                forall|r: u32| seen@.contains(r) <==> exists|k: int| 0 <= k < i && #[trigger] self.pairs()[k].1 == r,
                values_unique(self.pairs().take(i as int)),
            decreases self.entries@.len() - i,
        {
            let r = self.entries[i].1;
            assert(self.pairs()[i as int].1 == r);
            if !seen.insert(r) {
                proof {
                    let k = choose|k: int| 0 <= k < i && #[trigger] self.pairs()[k].1 == r;
                    lemma_values_unique_injective(self.pairs());
                    assert(!values_unique(self.pairs()));
                }
                return false;
            }
            assert forall|a: int, b: int| 0 <= a < b < i + 1 implies
                #[trigger] self.pairs().take(i + 1)[a].1 != #[trigger] self.pairs().take(i + 1)[b].1 by {
                if b == i {
                    assert(self.pairs()[a].1 != r);
                } else {
                    assert(self.pairs().take(i as int)[a] == self.pairs()[a]);
                    assert(self.pairs().take(i as int)[b] == self.pairs()[b]);
                }
            }
            i = i + 1;
        }
        proof {
            assert(self.pairs().take(i as int) =~= self.pairs());
            lemma_values_unique_injective(self.pairs());
        }
        true
    }

    /// The pairs, consumed, in the order their keys were first inserted.
    pub fn into_pairs(self) -> (v: Vec<(Vec<u8>, u32)>)
        requires
            self.wf(),
        ensures
            v@.map_values(|e: (Vec<u8>, u32)| (e.0@, e.1)) == self.pairs(),
            keys_unique(self.pairs()),
            insert_all(self.pairs()) == self.as_map(),
    {
        self.entries
    }
}

} // verus!
