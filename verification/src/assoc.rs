use vstd::pervasive::VecAdditionalExecFns;
use vstd::prelude::*;

verus! {

/// Keys of an [`AssocMap`]: values that can be cloned and compared in
/// executable code, where comparison coincides with equality of their
/// mathematical views.
pub trait Key: Sized {
    /// The mathematical value a key stands for.
    type KV;

    spec fn key_view(&self) -> Self::KV;

    fn key_eq(&self, other: &Self) -> (r: bool)
        ensures
            r == (self.key_view() == other.key_view()),
    ;

    fn key_clone(&self) -> (r: Self)
        ensures
            r.key_view() == self.key_view(),
    ;
}

impl Key for String {
    type KV = Seq<char>;

    open spec fn key_view(&self) -> Seq<char> {
        self@
    }

    fn key_eq(&self, other: &Self) -> (r: bool) {
        self.eq(other)
    }

    fn key_clone(&self) -> (r: Self) {
        self.clone()
    }
}

impl Key for u64 {
    type KV = u64;

    open spec fn key_view(&self) -> u64 {
        *self
    }

    fn key_eq(&self, other: &Self) -> (r: bool) {
        *self == *other
    }

    fn key_clone(&self) -> (r: Self) {
        *self
    }
}

impl Key for crate::addr::Addr {
    type KV = crate::addr::Addr;

    open spec fn key_view(&self) -> crate::addr::Addr {
        *self
    }

    fn key_eq(&self, other: &Self) -> (r: bool) {
        *self == *other
    }

    fn key_clone(&self) -> (r: Self) {
        *self
    }
}

/// The mapping that a sequence of (key, value) entries stands for: a later
/// entry for a key overrides an earlier one.
pub open spec fn assoc_map<K: Key, V>(s: Seq<(K, V)>) -> Map<K::KV, V>
    decreases s.len(),
{
    if s.len() == 0 {
        Map::empty()
    } else {
        assoc_map(s.drop_last()).insert(s.last().0.key_view(), s.last().1)
    }
}

/// Whether some entry of `s` has key view `k`.
pub open spec fn has_key<K: Key, V>(s: Seq<(K, V)>, k: K::KV) -> bool {
    exists|i: int| 0 <= i < s.len() && (#[trigger] s[i].0.key_view()) == k
}

/// Whether the entries of `s` bind pairwise distinct keys.
pub open spec fn unique_keys<K: Key, V>(s: Seq<(K, V)>) -> bool {
    forall|i: int, j: int|
        0 <= i < j < s.len() ==> (#[trigger] s[i].0.key_view()) != (#[trigger] s[j].0.key_view())
}

/// The domain of `assoc_map(s)` is finite and holds exactly the keys of the
/// entries of `s`.
pub proof fn lemma_assoc_map_dom<K: Key, V>(s: Seq<(K, V)>)
    ensures
        assoc_map(s).dom().finite(),
        forall|k: K::KV| #[trigger] assoc_map(s).contains_key(k) <==> has_key(s, k),
    decreases s.len(),
{
    if s.len() == 0 {
    } else {
        lemma_assoc_map_dom(s.drop_last());
        assert forall|k: K::KV| #[trigger] assoc_map(s).contains_key(k) <==> has_key(s, k) by {
            if assoc_map(s).contains_key(k) {
                if k == s.last().0.key_view() {
                    assert(s[s.len() - 1].0.key_view() == k);
                } else {
                    let i = choose|i: int|
                        0 <= i < s.drop_last().len() && (#[trigger] s.drop_last()[i].0.key_view())
                            == k;
                    assert(s[i].0.key_view() == k);
                }
            }
            if has_key(s, k) {
                let i = choose|i: int| 0 <= i < s.len() && (#[trigger] s[i].0.key_view()) == k;
                if i < s.len() - 1 {
                    assert(s.drop_last()[i].0.key_view() == k);
                }
            }
        }
    }
}

/// With pairwise distinct keys, `assoc_map(s)` maps each entry's key to
/// that entry's value, and its domain is as large as `s`.
pub proof fn lemma_assoc_map_index<K: Key, V>(s: Seq<(K, V)>)
    requires
        unique_keys(s),
    ensures
        assoc_map(s).dom().finite(),
        assoc_map(s).dom().len() == s.len(),
        forall|i: int|
            0 <= i < s.len() ==> assoc_map(s).contains_key(#[trigger] s[i].0.key_view())
                && assoc_map(s)[s[i].0.key_view()] == s[i].1,
    decreases s.len(),
{
    lemma_assoc_map_dom(s);
    if s.len() == 0 {
    } else {
        let rest = s.drop_last();
        lemma_assoc_map_index(rest);
        lemma_assoc_map_dom(rest);
        assert(!has_key(rest, s.last().0.key_view()));
        assert forall|i: int|
            0 <= i < s.len() implies assoc_map(s).contains_key(#[trigger] s[i].0.key_view())
            && assoc_map(s)[s[i].0.key_view()] == s[i].1 by {
            if i < s.len() - 1 {
                assert(rest[i] == s[i]);
                assert(s[i].0.key_view() != s.last().0.key_view());
            }
        }
    }
}

/// Appending an entry with a key no earlier entry has keeps the keys
/// pairwise distinct.
pub proof fn lemma_unique_push<K: Key, V>(s: Seq<(K, V)>, k: K, v: V)
    requires
        unique_keys(s),
        !has_key(s, k.key_view()),
    ensures
        unique_keys(s.push((k, v))),
        assoc_map(s.push((k, v))) == assoc_map(s).insert(k.key_view(), v),
{
    let t = s.push((k, v));
    assert forall|i: int, j: int|
        0 <= i < j < t.len() implies (#[trigger] t[i].0.key_view())
        != (#[trigger] t[j].0.key_view()) by {
        if j < t.len() - 1 {
            assert(t[i] == s[i] && t[j] == s[j]);
        } else {
            assert(t[i] == s[i]);
            assert(!(s[i].0.key_view() == k.key_view()));
        }
    }
    assert(t.drop_last() =~= s);
    assert(t.last() == (k, v));
}

/// Overwriting the entry at `i` with one of the same key turns the map's
/// binding for that key to the new value and touches nothing else.
pub proof fn lemma_assoc_map_update<K: Key, V>(s: Seq<(K, V)>, i: int, k: K, v: V)
    requires
        unique_keys(s),
        0 <= i < s.len(),
        k.key_view() == s[i].0.key_view(),
    ensures
        unique_keys(s.update(i, (k, v))),
        assoc_map(s.update(i, (k, v))) == assoc_map(s).insert(k.key_view(), v),
    decreases s.len(),
{
    let t = s.update(i, (k, v));
    assert forall|x: int, y: int|
        0 <= x < y < t.len() implies (#[trigger] t[x].0.key_view())
        != (#[trigger] t[y].0.key_view()) by {
        assert(s[x].0.key_view() != s[y].0.key_view());
    }
    if i == s.len() - 1 {
        assert(t.drop_last() =~= s.drop_last());
        assert(assoc_map(t) == assoc_map(s.drop_last()).insert(k.key_view(), v));
        assert(assoc_map(s) == assoc_map(s.drop_last()).insert(s[i].0.key_view(), s[i].1));
        assert(assoc_map(s).insert(k.key_view(), v) =~= assoc_map(s.drop_last()).insert(
            k.key_view(),
            v,
        ));
    } else {
        assert(t.drop_last() =~= s.drop_last().update(i, (k, v)));
        lemma_assoc_map_update(s.drop_last(), i, k, v);
        assert(t.last() == s.last());
        assert(assoc_map(t) == assoc_map(s.drop_last()).insert(k.key_view(), v).insert(
            s.last().0.key_view(),
            s.last().1,
        ));
        assert(s[i] == s.drop_last()[i]);
        assert(k.key_view() != s.last().0.key_view());
        assert(assoc_map(s.drop_last()).insert(k.key_view(), v).insert(
            s.last().0.key_view(),
            s.last().1,
        ) =~= assoc_map(s.drop_last()).insert(s.last().0.key_view(), s.last().1).insert(
            k.key_view(),
            v,
        ));
    }
}

/// Removing the entry at `i` removes exactly its key's binding.
pub proof fn lemma_assoc_map_remove<K: Key, V>(s: Seq<(K, V)>, i: int)
    requires
        unique_keys(s),
        0 <= i < s.len(),
    ensures
        unique_keys(s.remove(i)),
        assoc_map(s.remove(i)) == assoc_map(s).remove(s[i].0.key_view()),
    decreases s.len(),
{
    lemma_assoc_map_dom(s);
    lemma_assoc_map_index(s);
    let t = s.remove(i);
    assert forall|x: int, y: int|
        0 <= x < y < t.len() implies (#[trigger] t[x].0.key_view())
        != (#[trigger] t[y].0.key_view()) by {
        let sx: int = if x < i {
            x
        } else {
            x + 1
        };
        let sy: int = if y < i {
            y
        } else {
            y + 1
        };
        assert(t[x] == s[sx] && t[y] == s[sy]);
        assert(s[sx].0.key_view() != s[sy].0.key_view());
    }
    if i == s.len() - 1 {
        assert(t =~= s.drop_last());
        lemma_assoc_map_dom(s.drop_last());
        assert(!has_key(s.drop_last(), s[i].0.key_view()));
        assert(assoc_map(t) =~= assoc_map(s).remove(s[i].0.key_view()));
    } else {
        lemma_assoc_map_remove(s.drop_last(), i);
        assert(t.drop_last() =~= s.drop_last().remove(i));
        assert(t.last() == s.last());
        assert(assoc_map(t) == assoc_map(s.drop_last()).remove(s[i].0.key_view()).insert(
            s.last().0.key_view(),
            s.last().1,
        ));
        assert(s[i] == s.drop_last()[i]);
        assert(s[i].0.key_view() != s.last().0.key_view());
        assert(assoc_map(s.drop_last()).remove(s[i].0.key_view()).insert(
            s.last().0.key_view(),
            s.last().1,
        ) =~= assoc_map(s.drop_last()).insert(s.last().0.key_view(), s.last().1).remove(
            s[i].0.key_view(),
        ));
    }
}

/// Removing a key that no entry has leaves the map unchanged.
pub proof fn lemma_assoc_map_remove_absent<K: Key, V>(s: Seq<(K, V)>, k: K::KV)
    requires
        !has_key(s, k),
    ensures
        assoc_map(s).remove(k) == assoc_map(s),
{
    lemma_assoc_map_dom(s);
    assert(assoc_map(s).remove(k) =~= assoc_map(s));
}

/// A mapping from keys to values, stored as a vector of entries with
/// pairwise distinct keys and viewed as a mathematical [`Map`].
pub struct AssocMap<K, V> {
    pub entries: Vec<(K, V)>,
}

impl<K: Key, V> View for AssocMap<K, V> {
    type V = Map<K::KV, V>;

    open spec fn view(&self) -> Map<K::KV, V> {
        assoc_map(self.entries@)
    }
}

impl<K: Key, V> AssocMap<K, V> {
    /// The entries bind pairwise distinct keys.
    pub open spec fn wf(&self) -> bool {
        unique_keys(self.entries@)
    }

    pub fn empty() -> (r: Self)
        ensures
            r.wf(),
            r@ == Map::<K::KV, V>::empty(),
            r.entries@.len() == 0,
    {
        AssocMap { entries: Vec::new() }
    }

    pub fn len(&self) -> (r: usize)
        ensures
            r == self.entries@.len(),
    {
        self.entries.len()
    }

        /// Merges `other`'s entries into this map, inserting or overwriting
    /// one by one, so that `other`'s bindings win on common keys.
    pub fn merge_from(&mut self, other: &Vec<(K, V)>) where V: Copy
        requires
            old(self).wf(),
        ensures
            final(self).wf(),
            final(self)@ == old(self)@.union_prefer_right(assoc_map(other@)),
    {
        let ghost m = old(self)@;
        let n = other.len();
        let mut i: usize = 0;
        proof {
            assert(m.union_prefer_right(assoc_map(other@.take(0))) =~= m);
        }
        while i < n
            invariant
                i <= n,
                n == other@.len(),
                self.wf(),
                self@ == m.union_prefer_right(assoc_map(other@.take(i as int))),
            decreases n - i,
        {
            let k = other[i].0.key_clone();
            let v = other[i].1;
            proof {
                assert(other@.take(i + 1).drop_last() =~= other@.take(i as int));
                assert(other@.take(i + 1).last() == other@[i as int]);
                assert(m.union_prefer_right(assoc_map(other@.take(i as int))).insert(
                    other@[i as int].0.key_view(),
                    v,
                ) =~= m.union_prefer_right(assoc_map(other@.take(i + 1))));
            }
            self.insert(k, v);
            i = i + 1;
        }
        proof {
            assert(other@.take(n as int) =~= other@);
        }
    }

    /// The position of the entry whose key has view `k.key_view()`, if any.
    fn position(&self, k: &K) -> (r: Option<usize>)
        ensures
            match r {
                Some(i) => i < self.entries@.len() && self.entries@[i as int].0.key_view()
                    == k.key_view(),
                None => !has_key(self.entries@, k.key_view()),
            },
    {
        let n = self.entries.len();
        let mut i: usize = 0;
        while i < n
            invariant
                i <= n,
                n == self.entries@.len(),
                forall|j: int|
                    0 <= j < i ==> (#[trigger] self.entries@[j].0.key_view()) != k.key_view(),
            decreases n - i,
        {
            if self.entries[i].0.key_eq(k) {
                return Some(i);
            }
            i = i + 1;
        }
        None
    }

    pub fn contains_key(&self, k: &K) -> (r: bool)
        ensures
            r == self@.contains_key(k.key_view()),
    {
        proof {
            lemma_assoc_map_dom(self.entries@);
        }
        self.position(k).is_some()
    }

    pub fn get(&self, k: &K) -> (r: Option<&V>)
        requires
            self.wf(),
        ensures
            (r is Some) == self@.contains_key(k.key_view()),
            (r matches Some(v) ==> self@[k.key_view()] == *v),
    {
        proof {
            lemma_assoc_map_dom(self.entries@);
            lemma_assoc_map_index(self.entries@);
        }
        match self.position(k) {
            Some(i) => Some(&self.entries[i].1),
            None => None,
        }
    }

    /// Binds `k` to `v`, overwriting any earlier binding.
    pub fn insert(&mut self, k: K, v: V)
        requires
            old(self).wf(),
        ensures
            final(self).wf(),
            final(self)@ == old(self)@.insert(k.key_view(), v),
            final(self).entries@.len() <= old(self).entries@.len() + 1,
    {
        let ghost s = self.entries@;
        match self.position(&k) {
            Some(i) => {
                proof {
                    lemma_assoc_map_update(s, i as int, k, v);
                }
                self.entries.set(i, (k, v));
            },
            None => {
                proof {
                    lemma_unique_push(s, k, v);
                }
                self.entries.push((k, v));
            },
        }
    }

    /// Removes the binding for `k`, if there is one.
    pub fn remove(&mut self, k: &K)
        requires
            old(self).wf(),
        ensures
            final(self).wf(),
            final(self)@ == old(self)@.remove(k.key_view()),
            final(self).entries@.len() <= old(self).entries@.len(),
    {
        let ghost s = self.entries@;
        match self.position(k) {
            Some(i) => {
                proof {
                    lemma_assoc_map_remove(s, i as int);
                }
                self.entries.remove(i);
            },
            None => {
                proof {
                    lemma_assoc_map_remove_absent::<K, V>(s, k.key_view());
                }
            },
        }
    }

    /// The keys of the entries, in entry order.
    pub fn keys(&self) -> (r: Vec<K>)
        ensures
            r@.len() == self.entries@.len(),
            forall|i: int|
                0 <= i < r@.len() ==> (#[trigger] r@[i].key_view())
                    == self.entries@[i].0.key_view(),
    {
        let n = self.entries.len();
        let mut r: Vec<K> = Vec::new();
        let mut i: usize = 0;
        while i < n
            invariant
                i <= n,
                n == self.entries@.len(),
                r@.len() == i,
                forall|j: int|
                    0 <= j < i ==> (#[trigger] r@[j].key_view()) == self.entries@[j].0.key_view(),
            decreases n - i,
        {
            r.push(self.entries[i].0.key_clone());
            i = i + 1;
        }
        r
    }
}

} // verus!
