//! The cache itself: a table of key/value entries with insert-only growth.
//!
//! The table is a vector of `(String, PinBox<V>)` pairs with pairwise
//! distinct keys; its abstract view is the map from each key's characters to
//! the boxed value. Lookups walk the table, inserts append to it, and only
//! [`HashCache::clear`] — which needs `&mut` access to the whole cache —
//! removes entries. A stored value is therefore never replaced: every
//! operation's contract says exactly how it leaves the view, and the view of
//! a key, once present, survives every later lookup and insert.

use vstd::prelude::*;

use crate::pin_box::PinBox;
use std::collections::hash_map::RandomState;

verus! {

/// Maps each key of `s`, as a character sequence, to the value boxed beside
/// it; with duplicate keys the later entry would win, but the cache keeps
/// its keys pairwise distinct.
spec fn map_of<V>(s: Seq<(String, PinBox<V>)>) -> Map<Seq<char>, V>
    decreases s.len(),
{
    if s.len() == 0 {
        Map::empty()
    } else {
        map_of(s.drop_last()).insert(s.last().0@, s.last().1.spec_value())
    }
}

proof fn lemma_map_of_contains<V>(s: Seq<(String, PinBox<V>)>, k: Seq<char>)
    ensures
        map_of(s).contains_key(k) <==> (exists|i: int|
            0 <= i < s.len() && (#[trigger] s[i].0@) == k),
    decreases s.len(),
{
    if s.len() > 0 {
        lemma_map_of_contains(s.drop_last(), k);
        assert(forall|i: int| 0 <= i < s.len() - 1 ==> (#[trigger] s.drop_last()[i]) == s[i]);
        if s.last().0@ == k {
            assert(s[s.len() - 1].0@ == k);
        } else if map_of(s).contains_key(k) {
            let i = choose|i: int| 0 <= i < s.len() - 1 && (#[trigger] s.drop_last()[i].0@) == k;
            assert(s[i].0@ == k);
        } else {
            assert(forall|i: int| 0 <= i < s.len() - 1 && (#[trigger] s[i].0@) == k
                ==> s.drop_last()[i].0@ == k);
        }
    }
}

proof fn lemma_map_of_get<V>(s: Seq<(String, PinBox<V>)>, i: int)
    requires
        0 <= i < s.len(),
        forall|j: int| i < j < s.len() ==> (#[trigger] s[j].0@) != s[i].0@,
    ensures
        map_of(s).contains_key(s[i].0@),
        map_of(s)[s[i].0@] == s[i].1.spec_value(),
    decreases s.len(),
{
    if i == s.len() - 1 {
    } else {
        assert(forall|j: int| i < j < s.len() - 1 ==> (#[trigger] s.drop_last()[j]) == s[j]);
        assert(s.drop_last()[i] == s[i]);
        lemma_map_of_get(s.drop_last(), i);
        assert(s[s.len() - 1].0@ != s[i].0@);
    }
}

proof fn lemma_map_of_push<V>(s: Seq<(String, PinBox<V>)>, e: (String, PinBox<V>))
    ensures
        map_of(s.push(e)) == map_of(s).insert(e.0@, e.1.spec_value()),
{
    assert(s.push(e).drop_last() =~= s);
    assert(s.push(e).last() == e);
}

/// Character-by-character string comparison; true exactly when the two
/// strings read as the same character sequence.
fn str_eq(a: &str, b: &str) -> (r: bool)
    ensures
        r == (a@ == b@),
{
    let a_len = a.unicode_len();
    let b_len = b.unicode_len();
    if a_len != b_len {
        return false;
    }
    let mut i: usize = 0;
    while i < a_len
        invariant
            a_len == a@.len(),
            a_len == b@.len(),
            0 <= i <= a_len,
            forall|j: int| 0 <= j < i ==> a@[j] == b@[j],
        decreases a_len - i,
    {
        if a.get_char(i) != b.get_char(i) {
            return false;
        }
        i += 1;
    }
    proof {
        assert(a@ =~= b@);
    }
    true
}

/// A fresh default value; `Default` implementations of concrete foreign
/// types carry no specification, so nothing is claimed of the result.
fn default_of<T: Default>() -> T {
    T::default()
}

/// The settings a [`HashCache`] is built from: an initial capacity hint, a
/// hash strategy, and the provider used by default-provider inserts.
#[non_exhaustive]
#[derive(Debug)]
pub struct HashCacheConfig<S, F> {
    pub capacity: usize,
    pub hasher: S,
    pub provider: F,
}

impl<S: Default, F: Default> Default for HashCacheConfig<S, F> {
    /// An empty configuration: no capacity hint, default hash strategy,
    /// default provider.
    fn default() -> (r: Self)
        ensures
            r.capacity == 0,
            call_ensures(S::default, (), r.hasher),
            call_ensures(F::default, (), r.provider),
    {
        HashCacheConfig { capacity: 0, hasher: S::default(), provider: F::default() }
    }
}

/// A key/value cache that only grows: a value stored for a key stays in
/// place, unchanged, until the whole cache is cleared or dropped.
///
/// The view of a cache (`self@`) is a `Map<Seq<char>, V>` from each stored
/// key's characters to its value. `S` is the configured hash strategy and
/// `F` the default provider; both are configuration the lookup logic does
/// not depend on — the table itself keeps its keys pairwise distinct.
#[derive(Debug)]
pub struct HashCache<V, S = RandomState, F = ()> {
    arena: Vec<(String, PinBox<V>)>,
    hasher: S,
    provider: F,
}

impl<V, S, F> View for HashCache<V, S, F> {
    type V = Map<Seq<char>, V>;

    closed spec fn view(&self) -> Map<Seq<char>, V> {
        map_of(self.arena@)
    }
}

impl<V, S, F> HashCache<V, S, F> {
    /// Keys are stored at most once.
    #[verifier::type_invariant]
    spec fn well_formed(self) -> bool {
        forall|i: int, j: int|
            0 <= i < j < self.arena@.len() ==> (#[trigger] self.arena@[i].0@) != (
            #[trigger] self.arena@[j].0@)
    }

    /// The provider fixed at construction time, used by default-provider
    /// inserts.
    pub closed spec fn spec_provider(&self) -> F {
        self.provider
    }

    /// The hash strategy fixed at construction time.
    pub closed spec fn spec_hasher(&self) -> S {
        self.hasher
    }
}

impl<V, S: Default, F: Default> Default for HashCache<V, S, F> {
    /// An empty cache built from the default configuration.
    fn default() -> (r: Self)
        ensures
            r@ == Map::<Seq<char>, V>::empty(),
            call_ensures(S::default, (), r.spec_hasher()),
            call_ensures(F::default, (), r.spec_provider()),
    {
        Self::with_config(Default::default())
    }
}

impl<V> HashCache<V> {
    /// An empty cache with the standard hash strategy and no default
    /// provider.
    pub fn new() -> (r: Self)
        ensures
            r@ == Map::<Seq<char>, V>::empty(),
    {
        Self::default()
    }

    /// An empty cache sized for `capacity` entries up front.
    pub fn with_capacity(capacity: usize) -> (r: Self)
        ensures
            r@ == Map::<Seq<char>, V>::empty(),
    {
        Self::with_config(
            HashCacheConfig { capacity, hasher: default_of::<RandomState>(), provider: () },
        )
    }
}

impl<V, S> HashCache<V, S> {
    /// An empty cache using `hasher` as its hash strategy.
    pub fn with_hasher(hasher: S) -> (r: Self)
        ensures
            r@ == Map::<Seq<char>, V>::empty(),
            r.spec_hasher() == hasher,
    {
        Self::with_config(HashCacheConfig { capacity: 0, hasher, provider: () })
    }
}

impl<V, S, F> HashCache<V, S, F> {
    /// An empty cache whose default-provider inserts will call `provider`.
    pub fn with_provider(provider: F) -> (r: Self) where S: Default
        ensures
            r@ == Map::<Seq<char>, V>::empty(),
            r.spec_provider() == provider,
            call_ensures(S::default, (), r.spec_hasher()),
    {
        Self::with_config(HashCacheConfig { capacity: 0, hasher: S::default(), provider })
    }

    /// An empty cache built from an explicit configuration.
    pub fn with_config(config: HashCacheConfig<S, F>) -> (r: Self)
        ensures
            r@ == Map::<Seq<char>, V>::empty(),
            r.spec_hasher() == config.hasher,
            r.spec_provider() == config.provider,
    {
        let HashCacheConfig { capacity, hasher, provider } = config;
        HashCache { arena: Vec::with_capacity(capacity), hasher, provider }
    }

    /// Shared read access to the table of entries.
    fn arena(&self) -> (r: &Vec<(String, PinBox<V>)>)
        ensures
            r == &self.arena,
    {
        &self.arena
    }

    /// Empties the table. `&mut self` certifies that no reference handed
    /// out by an earlier lookup or insert is still alive.
    pub fn clear(&mut self)
        ensures
            final(self)@ == Map::<Seq<char>, V>::empty(),
            final(self).spec_provider() == old(self).spec_provider(),
            final(self).spec_hasher() == old(self).spec_hasher(),
    {
        self.arena = Vec::new();
    }

    /// The index of `key`'s entry, if the table holds one.
    fn find_index(&self, key: &str) -> (r: Option<usize>)
        ensures
            match r {
                Some(i) => i < self.arena@.len() && self.arena@[i as int].0@ == key@,
                None => forall|j: int|
                    0 <= j < self.arena@.len() ==> (#[trigger] self.arena@[j].0@) != key@,
            },
    {
        let n = self.arena.len();
        let mut i: usize = 0;
        while i < n
            invariant
                n == self.arena@.len(),
                0 <= i <= n,
                forall|j: int| 0 <= j < i ==> (#[trigger] self.arena@[j].0@) != key@,
            decreases n - i,
        {
            if str_eq(self.arena[i].0.as_str(), key) {
                return Some(i);
            }
            i += 1;
        }
        None
    }

    /// Looks `key` up without changing the cache: a reference to the stored
    /// value when the key is present, `None` when it is not.
    pub fn get<'a>(&'a self, key: &str) -> (r: Option<&'a V>)
        ensures
            match r {
                Some(v) => self@.contains_key(key@) && *v == self@[key@],
                None => !self@.contains_key(key@),
            },
    {
        proof {
            use_type_invariant(&*self);
            lemma_map_of_contains(self.arena@, key@);
        }
        match self.find_index(key) {
            Some(i) => {
                proof {
                    lemma_map_of_get(self.arena@, i as int);
                }
                Some(self.arena()[i].1.as_ref())
            },
            None => None,
        }
    }

    /// Returns the value stored for `key`, computing it with `f` first if
    /// the key is absent. On a hit the cache is untouched and `f` is never
    /// called; on a miss the table grows by exactly this one entry, whose
    /// value is some result of `f` on an owned copy of `key`. The entry is
    /// added only after `f` has returned: a provider that unwinds instead
    /// leaves the cache exactly as it was.
    pub fn get_or_insert_with<'a, G: FnOnce(&String) -> V>(&'a mut self, key: &str, f: G) -> (r:
        &'a V)
        requires
            old(self)@.contains_key(key@) || (forall|k: String|
                k@ == key@ ==> call_requires(f, (&k,))),
        ensures
            final(self)@.contains_key(key@),
            *r == final(self)@[key@],
            old(self)@.contains_key(key@) ==> final(self)@ == old(self)@ && *r == old(
                self,
            )@[key@],
            !old(self)@.contains_key(key@) ==> (exists|k: String, v: V|
                k@ == key@ && call_ensures(f, (&k,), v) && final(self)@ == old(self)@.insert(
                    key@,
                    v,
                )),
            final(self).spec_provider() == old(self).spec_provider(),
            final(self).spec_hasher() == old(self).spec_hasher(),
    {
        proof {
            use_type_invariant(&*self);
            lemma_map_of_contains(self.arena@, key@);
        }
        match self.find_index(key) {
            Some(i) => {
                proof {
                    lemma_map_of_get(self.arena@, i as int);
                }
                self.arena()[i].1.as_ref()
            },
            None => {
                let owned: String = String::from_str(key);
                let value = f(&owned);
                let boxed = PinBox::new(Box::new(value));
                let ghost before = self.arena@;
                let ghost entry = (owned, boxed);
                let mut table: Vec<(String, PinBox<V>)> = Vec::new();
                core::mem::swap(&mut table, &mut self.arena);
                table.push((owned, boxed));
                proof {
                    assert(table@.drop_last() =~= before);
                    lemma_map_of_push(before, entry);
                }
                self.arena = table;
                proof {
                    lemma_map_of_get(self.arena@, self.arena@.len() - 1);
                }
                let i = self.arena.len() - 1;
                self.arena()[i].1.as_ref()
            },
        }
    }
}

impl<V, S, F: Fn(&String) -> V> HashCache<V, S, F> {
    /// Returns the value stored for `key`, computing it with the provider
    /// fixed at construction time if the key is absent. The contract of
    /// [`HashCache::get_or_insert_with`], with that provider as `f`: a hit
    /// never calls the provider, and a provider that unwinds leaves the
    /// cache exactly as it was.
    pub fn get_or_insert<'a>(&'a mut self, key: &str) -> (r: &'a V)
        requires
            old(self)@.contains_key(key@) || (forall|k: String|
                k@ == key@ ==> call_requires(old(self).spec_provider(), (&k,))),
        ensures
            final(self)@.contains_key(key@),
            *r == final(self)@[key@],
            old(self)@.contains_key(key@) ==> final(self)@ == old(self)@ && *r == old(
                self,
            )@[key@],
            !old(self)@.contains_key(key@) ==> (exists|k: String, v: V|
                k@ == key@ && call_ensures(old(self).spec_provider(), (&k,), v) && final(self)@
                    == old(self)@.insert(key@, v)),
            final(self).spec_provider() == old(self).spec_provider(),
            final(self).spec_hasher() == old(self).spec_hasher(),
    {
        proof {
            use_type_invariant(&*self);
            lemma_map_of_contains(self.arena@, key@);
        }
        match self.find_index(key) {
            Some(i) => {
                proof {
                    lemma_map_of_get(self.arena@, i as int);
                }
                self.arena()[i].1.as_ref()
            },
            None => {
                let owned: String = String::from_str(key);
                let value = (self.provider)(&owned);
                let boxed = PinBox::new(Box::new(value));
                let ghost before = self.arena@;
                let ghost entry = (owned, boxed);
                let mut table: Vec<(String, PinBox<V>)> = Vec::new();
                core::mem::swap(&mut table, &mut self.arena);
                table.push((owned, boxed));
                proof {
                    assert(table@.drop_last() =~= before);
                    lemma_map_of_push(before, entry);
                }
                self.arena = table;
                proof {
                    lemma_map_of_get(self.arena@, self.arena@.len() - 1);
                }
                let i = self.arena.len() - 1;
                self.arena()[i].1.as_ref()
            },
        }
    }
}

} // verus!
