//! The guarantees the cache gives its callers, proved over the abstract
//! view that every contract in [`crate::cache`] is stated with.
//!
//! `get` and the hit path of `get_or_insert` leave the view unchanged; the
//! miss path turns view `m` into `m.insert(k, v)`, and only for a `k` with
//! `!m.contains_key(k)`; `clear` turns it into the empty map. The proof
//! functions here state what follows for callers: stored values survive
//! later inserts, a key keeps the first value stored for it however many
//! inserts arrive for it, and lookups depend on nothing but the key's
//! characters.

use vstd::prelude::*;

verus! {

/// `m2` preserves every entry of `m1`: each key present in `m1` is present
/// in `m2` with the same value.
pub open spec fn extends<V>(m2: Map<Seq<char>, V>, m1: Map<Seq<char>, V>) -> bool {
    forall|k: Seq<char>|
        #[trigger] m1.contains_key(k) ==> m2.contains_key(k) && m2[k] == m1[k]
}

/// The view after a get-or-insert arrival for key `k` whose provider
/// produced `v`: unchanged on a hit, grown by the one entry on a miss.
/// This is the transition the `ensures` of `HashCache::get_or_insert` and
/// `HashCache::get_or_insert_with` describe.
pub open spec fn inserted<V>(m: Map<Seq<char>, V>, k: Seq<char>, v: V) -> Map<Seq<char>, V> {
    if m.contains_key(k) {
        m
    } else {
        m.insert(k, v)
    }
}

/// The value that same arrival hands back: the stored value on a hit, the
/// freshly produced one on a miss.
pub open spec fn observed<V>(m: Map<Seq<char>, V>, k: Seq<char>, v: V) -> V {
    if m.contains_key(k) {
        m[k]
    } else {
        v
    }
}

/// The view after a run of get-or-insert arrivals for one key `k`, whose
/// providers produced the values `vs`, in arrival order.
pub open spec fn after_arrivals<V>(m: Map<Seq<char>, V>, k: Seq<char>, vs: Seq<V>) -> Map<
    Seq<char>,
    V,
>
    decreases vs.len(),
{
    if vs.len() == 0 {
        m
    } else {
        inserted(after_arrivals(m, k, vs.drop_last()), k, vs.last())
    }
}

/// An insert of a fresh key only extends the view: every entry already
/// stored stays present, with its value untouched.
pub proof fn lemma_insert_extends<V>(m: Map<Seq<char>, V>, k: Seq<char>, v: V)
    requires
        !m.contains_key(k),
    ensures
        extends(m.insert(k, v), m),
{
}

/// Extension is transitive, so a value stored for a key survives any
/// number of later inserts, not just the next one.
pub proof fn lemma_extends_transitive<V>(
    m3: Map<Seq<char>, V>,
    m2: Map<Seq<char>, V>,
    m1: Map<Seq<char>, V>,
)
    requires
        extends(m3, m2),
        extends(m2, m1),
    ensures
        extends(m3, m1),
{
}

/// A value once stored is stable: whatever was observed for `k` when the
/// view was `m1` is still observed, unchanged, in any later view `m2` the
/// cache can reach without a clear — every such view extends its
/// predecessors, by the two lemmas above.
pub proof fn lemma_stability<V>(m2: Map<Seq<char>, V>, m1: Map<Seq<char>, V>, k: Seq<char>)
    requires
        extends(m2, m1),
        m1.contains_key(k),
    ensures
        m2.contains_key(k),
        m2[k] == m1[k],
{
}

/// Inserting a key `k2` does not disturb what is observed for an already
/// stored key `k`: `k` stays present, with the same value, and the two
/// keys are necessarily distinct.
pub proof fn lemma_cross_key_non_interference<V>(
    m: Map<Seq<char>, V>,
    k: Seq<char>,
    k2: Seq<char>,
    v2: V,
)
    requires
        m.contains_key(k),
        !m.contains_key(k2),
    ensures
        k2 != k,
        m.insert(k2, v2).contains_key(k),
        m.insert(k2, v2)[k] == m[k],
{
}

/// However many get-or-insert arrivals race for one absent key, exactly
/// the first produced value is stored, every later arrival's value is
/// discarded, and every arrival observes that one stored value.
pub proof fn lemma_single_writer_wins<V>(m: Map<Seq<char>, V>, k: Seq<char>, vs: Seq<V>)
    requires
        !m.contains_key(k),
        vs.len() > 0,
    ensures
        after_arrivals(m, k, vs) == m.insert(k, vs[0]),
        after_arrivals(m, k, vs).contains_key(k),
        after_arrivals(m, k, vs)[k] == vs[0],
        forall|i: int|
            0 <= i < vs.len() ==> observed(
                #[trigger] after_arrivals(m, k, vs.take(i)),
                k,
                vs[i],
            ) == vs[0],
    decreases vs.len(),
{
    if vs.len() == 1 {
        assert(vs.take(0) =~= Seq::<V>::empty());
        assert(after_arrivals(m, k, vs.take(0)) == m);
        assert(after_arrivals(m, k, vs.drop_last()) == m);
        assert(vs.last() == vs[0]);
        assert(after_arrivals(m, k, vs) == inserted(m, k, vs[0]));
    } else {
        lemma_single_writer_wins(m, k, vs.drop_last());
        assert(vs.drop_last()[0] == vs[0]);
        assert(after_arrivals(m, k, vs) == inserted(after_arrivals(m, k, vs.drop_last()), k, vs.last()));
        assert(after_arrivals(m, k, vs.drop_last()).contains_key(k));
        assert(after_arrivals(m, k, vs) == m.insert(k, vs[0]));
        assert forall|i: int|
            0 <= i < vs.len() implies observed(
            #[trigger] after_arrivals(m, k, vs.take(i)),
            k,
            vs[i],
        ) == vs[0] by {
            if i < vs.len() - 1 {
                assert(vs.take(i) =~= vs.drop_last().take(i));
                assert(vs[i] == vs.drop_last()[i]);
            } else {
                assert(vs.take(i) =~= vs.drop_last());
            }
        }
    }
}

/// Two get-or-insert arrivals for the same key in sequence: the second
/// finds the key present, returns the value the first stored, and leaves
/// the cache exactly as the first left it.
pub proof fn lemma_idempotent_hit<V>(m: Map<Seq<char>, V>, k: Seq<char>, v1: V, v2: V)
    ensures
        inserted(inserted(m, k, v1), k, v2) == inserted(m, k, v1),
        observed(inserted(m, k, v1), k, v2) == observed(m, k, v1),
{
    assert(inserted(m, k, v1).contains_key(k));
}

/// After a clear the view is the empty map, so a lookup of any key — in
/// particular any previously stored one — reports absence. The clear
/// itself is only reachable through `&mut` access to the whole cache,
/// which certifies that no reference handed out earlier is still held.
pub proof fn lemma_clear_invalidates<V>(k: Seq<char>)
    ensures
        !Map::<Seq<char>, V>::empty().contains_key(k),
{
}

/// A lookup depends on nothing but the key's characters: a borrowed key
/// form and the owned key it was taken from observe the same entry and the
/// same value.
pub proof fn lemma_borrowed_key_equivalence<V>(
    m: Map<Seq<char>, V>,
    owned: String,
    borrowed: &str,
)
    requires
        borrowed@ == owned@,
    ensures
        m.contains_key(borrowed@) <==> m.contains_key(owned@),
        m.contains_key(owned@) ==> m[borrowed@] == m[owned@],
{
}

} // verus!
