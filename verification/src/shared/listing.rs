//! Sequences that list what a map holds.

use vstd::prelude::*;

verus! {

/// `ids` are the keys of `map`, each once, in any order.
pub open spec fn lists_keys<K, V>(ids: Seq<K>, map: Map<K, V>) -> bool {
    &&& ids.no_duplicates()
    &&& forall|id: K| #[trigger] ids.contains(id) <==> map.contains_key(id)
}

/// `entries` are those of `map`, each once, in any order.
pub open spec fn lists_entries<K, V>(entries: Seq<(K, V)>, map: Map<K, V>) -> bool {
    &&& lists_keys(entries.map_values(|e: (K, V)| e.0), map)
    &&& forall|i: int|
        0 <= i < entries.len() ==> map.contains_key((#[trigger] entries[i]).0)
            && map[entries[i].0] == entries[i].1
}

/// A map has as many entries as there are ids that list its keys.
pub(crate) proof fn lemma_listed_count<K, V>(ids: Seq<K>, map: Map<K, V>)
    requires
        lists_keys(ids, map),
    ensures
        map.dom().finite(),
        map.dom().len() == ids.len(),
{
    ids.unique_seq_to_set();
    assert forall|id: K| ids.to_set().contains(id) <==> map.dom().contains(id) by {
        assert(ids.to_set().contains(id) <==> ids.contains(id));
        assert(ids.contains(id) <==> map.contains_key(id));
    }
    assert(ids.to_set() =~= map.dom());
    vstd::seq_lib::seq_to_set_is_finite(ids);
}

/// The first `i + 1` elements are the first `i` and the next, which is new among
/// elements that occur once.
pub(crate) proof fn lemma_take_next<T>(s: Seq<T>, i: int)
    requires
        s.no_duplicates(),
        0 <= i < s.len(),
    ensures
        !s.take(i).contains(s[i]),
        forall|x: T| #[trigger] s.take(i + 1).contains(x) <==> s.take(i).contains(x) || x == s[i],
{
    assert forall|x: T| #[trigger] s.take(i + 1).contains(x) <==> s.take(i).contains(x) || x
        == s[i] by {
        let longer = s.take(i + 1);
        if s.take(i).contains(x) {
            let j = choose|j: int| 0 <= j < i && s.take(i)[j] == x;
            assert(longer[j] == x);
        }
        if x == s[i] {
            assert(longer[i] == x);
        }
        if longer.contains(x) && x != s[i] {
            let j = choose|j: int| 0 <= j < longer.len() && longer[j] == x;
            assert(s.take(i)[j] == x);
        }
    }
}

} // verus!
