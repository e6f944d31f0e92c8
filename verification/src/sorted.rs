//! A map that keeps its entries in key order.
use vstd::prelude::*;

verus! {

/// A key with a strict total order on its view.
pub trait SortKey: View + Sized {
    /// `a` comes before `b`.
    spec fn before(a: Self::V, b: Self::V) -> bool;

    proof fn irreflexive(a: Self::V)
        ensures
            !Self::before(a, a),
    ;

    proof fn transitive(a: Self::V, b: Self::V, c: Self::V)
        requires
            Self::before(a, b),
            Self::before(b, c),
        ensures
            Self::before(a, c),
    ;

    proof fn total(a: Self::V, b: Self::V)
        ensures
            Self::before(a, b) || a == b || Self::before(b, a),
    ;

    fn precedes(&self, other: &Self) -> (b: bool)
        ensures
            b == Self::before(self@, other@),
    ;
}

impl SortKey for u64 {
    open spec fn before(a: u64, b: u64) -> bool {
        a < b
    }

    proof fn irreflexive(a: u64) {
    }

    proof fn transitive(a: u64, b: u64, c: u64) {
    }

    proof fn total(a: u64, b: u64) {
    }

    fn precedes(&self, other: &Self) -> (b: bool) {
        *self < *other
    }
}

impl SortKey for i32 {
    open spec fn before(a: i32, b: i32) -> bool {
        a < b
    }

    proof fn irreflexive(a: i32) {
    }

    proof fn transitive(a: i32, b: i32, c: i32) {
    }

    proof fn total(a: i32, b: i32) {
    }

    fn precedes(&self, other: &Self) -> (b: bool) {
        *self < *other
    }
}

impl SortKey for (i32, u64) {
    open spec fn before(a: (i32, u64), b: (i32, u64)) -> bool {
        a.0 < b.0 || (a.0 == b.0 && a.1 < b.1)
    }

    proof fn irreflexive(a: (i32, u64)) {
    }

    proof fn transitive(a: (i32, u64), b: (i32, u64), c: (i32, u64)) {
    }

    proof fn total(a: (i32, u64), b: (i32, u64)) {
    }

    fn precedes(&self, other: &Self) -> (b: bool) {
        self.0 < other.0 || (self.0 == other.0 && self.1 < other.1)
    }
}

impl SortKey for (i32, u64, u32) {
    open spec fn before(a: (i32, u64, u32), b: (i32, u64, u32)) -> bool {
        a.0 < b.0 || (a.0 == b.0 && (a.1 < b.1 || (a.1 == b.1 && a.2 < b.2)))
    }

    proof fn irreflexive(a: (i32, u64, u32)) {
    }

    proof fn transitive(a: (i32, u64, u32), b: (i32, u64, u32), c: (i32, u64, u32)) {
    }

    proof fn total(a: (i32, u64, u32), b: (i32, u64, u32)) {
    }

    fn precedes(&self, other: &Self) -> (b: bool) {
        self.0 < other.0 || (self.0 == other.0 && (self.1 < other.1 || (self.1 == other.1 && self.2
            < other.2)))
    }
}

impl SortKey for String {
    open spec fn before(a: Seq<char>, b: Seq<char>) -> bool {
        crate::text::before(a, b)
    }

    proof fn irreflexive(a: Seq<char>) {
        crate::text::lemma_before_irreflexive(a);
    }

    proof fn transitive(a: Seq<char>, b: Seq<char>, c: Seq<char>) {
        crate::text::lemma_before_transitive(a, b, c);
    }

    proof fn total(a: Seq<char>, b: Seq<char>) {
        crate::text::lemma_before_total(a, b);
    }

    fn precedes(&self, other: &Self) -> (b: bool) {
        crate::text::comes_before(self.as_str(), other.as_str())
    }
}

/// The keys come in strictly ascending order.
pub open spec fn ascending<K: SortKey>(keys: Seq<K::V>) -> bool {
    forall|i: int, j: int|
        0 <= i < j < keys.len() ==> K::before(#[trigger] keys[i], #[trigger] keys[j])
}

/// Keys in ascending order, and the value of each.
pub struct SortedMap<K, V> {
    keys: Vec<K>,
    values: Vec<V>,
}

impl<K: SortKey, V> SortedMap<K, V> {
    /// The keys, in order.
    pub closed spec fn key_list(&self) -> Seq<K::V> {
        Seq::new(self.keys@.len(), |i: int| self.keys@[i]@)
    }

    /// The values, in the order of their keys.
    pub closed spec fn value_list(&self) -> Seq<V> {
        self.values@
    }

    /// The keys ascend, and each has a value.
    pub open spec fn wf(&self) -> bool {
        &&& self.key_list().len() == self.value_list().len()
        &&& ascending::<K>(self.key_list())
    }
}

impl<K: SortKey, V> View for SortedMap<K, V> {
    type V = Map<<K as View>::V, V>;

    open spec fn view(&self) -> Map<<K as View>::V, V> {
        Map::new(
            |k: <K as View>::V| self.key_list().contains(k),
            |k: <K as View>::V| self.value_list()[self.key_list().index_of(k)],
        )
    }
}

impl<K: SortKey, V> SortedMap<K, V> {
    /// The entry at `i` is what the map holds for the key at `i`.
    pub proof fn lemma_entry(&self, i: int)
        requires
            self.wf(),
            0 <= i < self.key_list().len(),
        ensures
            self@.contains_key(self.key_list()[i]),
            self@[self.key_list()[i]] == self.value_list()[i],
    {
        let keys = self.key_list();
        assert(keys.contains(keys[i]));
        let at = keys.index_of(keys[i]);
        assert(0 <= at < keys.len() && keys[at] == keys[i]);
        K::irreflexive(keys[i]);
    }

    /// A key of the map stands somewhere in the key list.
    pub proof fn lemma_key(&self, k: K::V) -> (i: int)
        requires
            self.wf(),
            self@.contains_key(k),
        ensures
            0 <= i < self.key_list().len(),
            self.key_list()[i] == k,
            self@[k] == self.value_list()[i],
    {
        let i = self.key_list().index_of(k);
        assert(self.key_list().contains(k));
        self.lemma_entry(i);
        i
    }

    /// A map with the same entries as `m` except at `k`.
    proof fn lemma_inserted(&self, m: Map<K::V, V>, old_keys: Seq<K::V>, old_values: Seq<V>, p: int, k: K::V, v: V)
        requires
            self.wf(),
            ascending::<K>(old_keys),
            old_keys.len() == old_values.len(),
            0 <= p <= old_keys.len(),
            m.dom() == old_keys.to_set(),
            forall|i: int| 0 <= i < old_keys.len() ==> m[#[trigger] old_keys[i]] == old_values[i],
            self.key_list() == old_keys.insert(p, k),
            self.value_list() == old_values.insert(p, v),
        ensures
            self@ == m.insert(k, v),
    {
        let keys = self.key_list();
        self.lemma_entry(p);
        assert forall|x: K::V| self@.contains_key(x) == m.insert(k, v).contains_key(x) by {
            if self@.contains_key(x) {
                let i = self.lemma_key(x);
                if i < p {
                    assert(old_keys[i] == x);
                } else if i > p {
                    assert(old_keys[i - 1] == x);
                }
            }
            if m.contains_key(x) {
                assert(old_keys.contains(x));
                let i = old_keys.index_of(x);
                if i < p {
                    assert(keys[i] == x);
                } else {
                    assert(keys[i + 1] == x);
                }
            }
        }
        assert forall|x: K::V| self@.contains_key(x) implies self@[x] == m.insert(k, v)[x] by {
            let i = self.lemma_key(x);
            self.lemma_entry(i);
            if i < p {
                assert(old_keys[i] == x);
                K::irreflexive(x);
                assert(K::before(keys[i], keys[p]));
            } else if i > p {
                assert(old_keys[i - 1] == x);
                K::irreflexive(x);
                assert(K::before(keys[p], keys[i]));
            }
        }
        assert(self@ =~= m.insert(k, v));
    }

    /// The facts that tie the map to its two lists.
    pub proof fn lemma_lists(&self)
        requires
            self.wf(),
        ensures
            self@.dom() == self.key_list().to_set(),
            forall|i: int|
                0 <= i < self.key_list().len() ==> self@[#[trigger] self.key_list()[i]]
                    == self.value_list()[i],
    {
        assert(self@.dom() =~= self.key_list().to_set());
        assert forall|i: int| 0 <= i < self.key_list().len() implies self@[#[trigger] self.key_list()[i]]
            == self.value_list()[i] by {
            self.lemma_entry(i);
        }
    }

    /// A map without entries.
    pub fn new() -> (map: Self)
        ensures
            map.wf(),
            map.key_list() == Seq::<K::V>::empty(),
            map@ == Map::<K::V, V>::empty(),
    {
        let map = SortedMap { keys: Vec::new(), values: Vec::new() };
        assert(map.key_list() =~= Seq::<K::V>::empty());
        assert(map@ =~= Map::<K::V, V>::empty());
        map
    }

    /// The number of entries.
    pub fn len(&self) -> (n: usize)
        ensures
            n == self.key_list().len(),
    {
        self.keys.len()
    }

    /// The key at `i`.
    pub fn key_at(&self, i: usize) -> (key: &K)
        requires
            i < self.key_list().len(),
        ensures
            key@ == self.key_list()[i as int],
    {
        &self.keys[i]
    }

    /// The value at `i`.
    pub fn value_at(&self, i: usize) -> (value: &V)
        requires
            i < self.value_list().len(),
        ensures
            *value == self.value_list()[i as int],
    {
        &self.values[i]
    }

    /// The first position whose key does not come before `key`.
    fn position(&self, key: &K) -> (p: usize)
        requires
            self.wf(),
        ensures
            p <= self.key_list().len(),
            forall|j: int| 0 <= j < p ==> K::before(#[trigger] self.key_list()[j], key@),
            forall|j: int|
                p <= j < self.key_list().len() ==> !K::before(#[trigger] self.key_list()[j], key@),
    {
        let mut lo: usize = 0;
        let mut hi: usize = self.keys.len();
        while lo < hi
            invariant
                self.wf(),
                lo <= hi <= self.key_list().len(),
                self.key_list().len() == self.keys@.len(),
                forall|j: int| 0 <= j < lo ==> K::before(#[trigger] self.key_list()[j], key@),
                forall|j: int|
                    hi <= j < self.key_list().len() ==> !K::before(
                        #[trigger] self.key_list()[j],
                        key@,
                    ),
            decreases hi - lo,
        {
            let mid: usize = lo + (hi - lo) / 2;
            let ghost keys = self.key_list();
            assert(keys[mid as int] == self.keys@[mid as int]@);
            if self.keys[mid].precedes(key) {
                proof {
                    assert forall|j: int| 0 <= j <= mid implies K::before(
                        #[trigger] keys[j],
                        key@,
                    ) by {
                        if j < mid {
                            K::transitive(keys[j], keys[mid as int], key@);
                        }
                    }
                }
                lo = mid + 1;
            } else {
                proof {
                    assert forall|j: int| mid <= j < keys.len() implies !K::before(
                        #[trigger] keys[j],
                        key@,
                    ) by {
                        if mid < j && K::before(keys[j], key@) {
                            K::transitive(keys[mid as int], keys[j], key@);
                        }
                    }
                }
                hi = mid;
            }
        }
        lo
    }

    /// Where `key` stands, if the map holds it.
    pub fn find(&self, key: &K) -> (at: Option<usize>)
        requires
            self.wf(),
        ensures
            match at {
                Some(i) => i < self.key_list().len() && self.key_list()[i as int] == key@
                    && self@.contains_key(key@) && self@[key@] == self.value_list()[i as int],
                None => !self@.contains_key(key@),
            },
    {
        let p = self.position(key);
        if p < self.keys.len() {
            assert(self.key_list()[p as int] == self.keys@[p as int]@);
            if !key.precedes(&self.keys[p]) {
                proof {
                    K::total(self.key_list()[p as int], key@);
                    self.lemma_entry(p as int);
                }
                return Some(p);
            }
        }
        proof {
            if self@.contains_key(key@) {
                let i = self.lemma_key(key@);
                K::irreflexive(key@);
                assert(p <= i);
                if p < i {
                    assert(K::before(self.key_list()[p as int], self.key_list()[i]));
                }
            }
        }
        None
    }

    /// Whether the map holds `key`.
    pub fn contains_key(&self, key: &K) -> (b: bool)
        requires
            self.wf(),
        ensures
            b == self@.contains_key(key@),
    {
        self.find(key).is_some()
    }

    /// The value of `key`, if the map holds it.
    pub fn get(&self, key: &K) -> (value: Option<&V>)
        requires
            self.wf(),
        ensures
            match value {
                Some(v) => self@.contains_key(key@) && self@[key@] == *v,
                None => !self@.contains_key(key@),
            },
    {
        match self.find(key) {
            Some(i) => Some(&self.values[i]),
            None => None,
        }
    }

    /// Gives `key` the value `value`.
    pub fn insert(&mut self, key: K, value: V)
        requires
            old(self).wf(),
        ensures
            final(self).wf(),
            final(self)@ == old(self)@.insert(key@, value),
    {
        let p = self.position(&key);
        let ghost keys = self.key_list();
        let ghost values = self.value_list();
        let ghost before = self@;
        proof {
            self.lemma_lists();
        }
        if p < self.keys.len() {
            assert(keys[p as int] == self.keys@[p as int]@);
            if !key.precedes(&self.keys[p]) {
                proof {
                    K::total(keys[p as int], key@);
                }
                self.values.set(p, value);
                proof {
                    assert(self.key_list() =~= keys);
                    assert(self.value_list() =~= values.update(p as int, value));
                    self.lemma_lists();
                    assert forall|x: K::V| self@.contains_key(x) implies self@[x] == before.insert(
                        key@,
                        value,
                    )[x] by {
                        let i = self.lemma_key(x);
                        assert(keys[i] == x);
                        if i != p {
                            K::irreflexive(x);
                        }
                    }
                    assert(self@ =~= before.insert(key@, value));
                }
                return ;
            }
            assert(K::before(key@, keys[p as int]));
        }
        self.keys.insert(p, key);
        self.values.insert(p, value);
        proof {
            assert(self.key_list() =~= keys.insert(p as int, key@));
            assert(self.value_list() =~= values.insert(p as int, value));
            let now = self.key_list();
            assert forall|i: int, j: int| 0 <= i < j < now.len() implies K::before(
                #[trigger] now[i],
                #[trigger] now[j],
            ) by {
                if i < p && j > p {
                    assert(K::before(keys[i], keys[j - 1]));
                } else if i < p && j < p {
                    assert(K::before(keys[i], keys[j]));
                } else if i < p && j == p {
                    assert(K::before(keys[i], key@));
                } else if i == p {
                    if j - 1 > p {
                        K::transitive(key@, keys[p as int], keys[j - 1]);
                    }
                } else {
                    assert(K::before(keys[i - 1], keys[j - 1]));
                }
            }
            self.lemma_inserted(before, keys, values, p as int, key@, value);
        }
    }

    /// Gives the key at `i` the value `value`.
    pub fn update_at(&mut self, i: usize, value: V)
        requires
            old(self).wf(),
            i < old(self).key_list().len(),
        ensures
            final(self).wf(),
            final(self).key_list() == old(self).key_list(),
            final(self).value_list() == old(self).value_list().update(i as int, value),
            final(self)@ == old(self)@.insert(old(self).key_list()[i as int], value),
    {
        let ghost keys = self.key_list();
        let ghost values = self.value_list();
        let ghost before = self@;
        proof {
            self.lemma_lists();
        }
        self.values.set(i, value);
        proof {
            assert(self.key_list() =~= keys);
            assert(self.value_list() =~= values.update(i as int, value));
            self.lemma_lists();
            assert(keys.contains(keys[i as int]));
            assert(self@.dom() =~= before.insert(keys[i as int], value).dom());
            assert forall|x: K::V| self@.contains_key(x) implies self@[x] == before.insert(
                keys[i as int],
                value,
            )[x] by {
                let j = self.lemma_key(x);
                assert(keys[j] == x);
                if j != i {
                    K::irreflexive(x);
                }
            }
            assert(self@ =~= before.insert(keys[i as int], value));
        }
    }

    /// Takes the entry at `i` out.
    pub fn remove_at(&mut self, i: usize) -> (value: V)
        requires
            old(self).wf(),
            i < old(self).key_list().len(),
        ensures
            final(self).wf(),
            final(self).key_list() == old(self).key_list().remove(i as int),
            final(self).value_list() == old(self).value_list().remove(i as int),
            final(self)@ == old(self)@.remove(old(self).key_list()[i as int]),
            value == old(self).value_list()[i as int],
    {
        let ghost keys = self.key_list();
        let ghost values = self.value_list();
        let ghost before = self@;
        let ghost k = keys[i as int];
        proof {
            self.lemma_lists();
        }
        self.keys.remove(i);
        let value = self.values.remove(i);
        proof {
            assert(self.key_list() =~= keys.remove(i as int));
            assert(self.value_list() =~= values.remove(i as int));
            let now = self.key_list();
            assert forall|a: int, b: int| 0 <= a < b < now.len() implies K::before(
                #[trigger] now[a],
                #[trigger] now[b],
            ) by {
                let a0 = if a < i {
                    a
                } else {
                    a + 1
                };
                let b0 = if b < i {
                    b
                } else {
                    b + 1
                };
                assert(K::before(keys[a0], keys[b0]));
            }
            assert forall|x: K::V| self@.contains_key(x) == before.remove(k).contains_key(x) by {
                if self@.contains_key(x) {
                    let a = self.lemma_key(x);
                    let a0 = if a < i {
                        a
                    } else {
                        a + 1
                    };
                    assert(keys[a0] == x);
                    K::irreflexive(x);
                }
                if before.contains_key(x) && x != k {
                    let a0 = keys.index_of(x);
                    assert(keys.contains(x));
                    assert(keys[a0] == x);
                    if a0 < i {
                        assert(now[a0] == x);
                    } else {
                        assert(now[a0 - 1] == x);
                    }
                }
            }
            assert forall|x: K::V| self@.contains_key(x) implies self@[x] == before.remove(
                k,
            )[x] by {
                let a = self.lemma_key(x);
                self.lemma_entry(a);
                let a0 = if a < i {
                    a
                } else {
                    a + 1
                };
                assert(keys[a0] == x);
            }
            assert(self@ =~= before.remove(k));
        }
        value
    }

    /// Takes the entry of `key` out, if the map holds one.
    pub fn remove(&mut self, key: &K) -> (value: Option<V>)
        requires
            old(self).wf(),
        ensures
            final(self).wf(),
            final(self)@ == old(self)@.remove(key@),
            match value {
                Some(v) => old(self)@.contains_key(key@) && old(self)@[key@] == v,
                None => !old(self)@.contains_key(key@),
            },
    {
        match self.find(key) {
            Some(i) => {
                let value = self.remove_at(i);
                Some(value)
            },
            None => {
                assert(self@ =~= self@.remove(key@));
                None
            },
        }
    }
}

} // verus!
