//! Maps from 128-bit identifiers, walked in ascending order of identifier.

use std::collections::BTreeMap;

use vstd::prelude::*;

verus! {

/// A map from identifiers to values, modelled by what its values model.
pub struct IdMap<V: View> {
    entries: BTreeMap<u128, V>,
}

impl<V: View> View for IdMap<V> {
    type V = Map<u128, V::V>;

    closed spec fn view(&self) -> Map<u128, V::V> {
        self.entries@.map_values(|v: V| v@)
    }
}

/// The identifiers of `ids`, each once, in ascending order.
pub open spec fn lists_ascending(list: Seq<u128>, ids: Set<u128>) -> bool {
    &&& list.to_set() == ids
    &&& forall|i: int, j: int| 0 <= i < j < list.len() ==> list[i] < list[j]
}

/// The ascending listing of a set of identifiers.
pub open spec fn ascending(ids: Set<u128>) -> Seq<u128> {
    choose|list: Seq<u128>| lists_ascending(list, ids)
}

/// An ascending listing names each identifier once.
pub proof fn lemma_ascending_no_duplicates(list: Seq<u128>, ids: Set<u128>)
    requires
        lists_ascending(list, ids),
    ensures
        list.no_duplicates(),
        list.len() == ids.len(),
        ids.finite(),
{
    assert forall|i: int, j: int|
        0 <= i < list.len() && 0 <= j < list.len() && i != j implies list[i] != list[j] by {
        if i < j {
            assert(list[i] < list[j]);
        } else {
            assert(list[j] < list[i]);
        }
    }
    list.unique_seq_to_set();
    vstd::seq_lib::seq_to_set_is_finite(list);
}

/// There is one ascending listing of a set.
pub proof fn lemma_ascending_unique(a: Seq<u128>, b: Seq<u128>, ids: Set<u128>)
    requires
        lists_ascending(a, ids),
        lists_ascending(b, ids),
    ensures
        a == b,
    decreases a.len(),
{
    lemma_ascending_no_duplicates(a, ids);
    lemma_ascending_no_duplicates(b, ids);
    if a.len() == 0 {
        assert(a =~= b);
    } else {
        let x = a.last();
        let y = b.last();
        assert(ids.contains(x) && ids.contains(y));
        assert(b.to_set().contains(x) && a.to_set().contains(y));
        let i = choose|i: int| 0 <= i < b.len() && b[i] == x;
        let j = choose|j: int| 0 <= j < a.len() && a[j] == y;
        assert(x == y) by {
            if i < b.len() - 1 {
                assert(b[i] < b[b.len() - 1]);
                if j < a.len() - 1 {
                    assert(a[j] < a[a.len() - 1]);
                }
            }
        }
        let rest = ids.remove(x);
        lemma_drop_last(a, ids);
        lemma_drop_last(b, ids);
        lemma_ascending_unique(a.drop_last(), b.drop_last(), rest);
        assert(a =~= a.drop_last().push(x));
        assert(b =~= b.drop_last().push(y));
    }
}

proof fn lemma_drop_last(list: Seq<u128>, ids: Set<u128>)
    requires
        lists_ascending(list, ids),
        list.len() > 0,
    ensures
        lists_ascending(list.drop_last(), ids.remove(list.last())),
{
    lemma_ascending_no_duplicates(list, ids);
    let rest = list.drop_last();
    assert forall|k: u128| ids.remove(list.last()).contains(k) implies rest.to_set().contains(
        k,
    ) by {
        assert(list.to_set().contains(k));
        let i = choose|i: int| 0 <= i < list.len() && list[i] == k;
        assert(rest[i] == k);
    }
    assert forall|k: u128| rest.to_set().contains(k) implies ids.remove(list.last()).contains(
        k,
    ) by {
        let i = choose|i: int| 0 <= i < rest.len() && rest[i] == k;
        assert(list[i] == k);
        assert(list.to_set().contains(k));
    }
    assert(rest.to_set() =~= ids.remove(list.last()));
}

/// A listing is the listing.
pub proof fn lemma_is_ascending(list: Seq<u128>, ids: Set<u128>)
    requires
        lists_ascending(list, ids),
    ensures
        list == ascending(ids),
        list.no_duplicates(),
        list.len() == ids.len(),
{
    lemma_ascending_unique(list, ascending(ids), ids);
    lemma_ascending_no_duplicates(list, ids);
}

/// Every finite set of identifiers has its ascending listing.
pub proof fn lemma_ascending_lists(ids: Set<u128>)
    requires
        ids.finite(),
    ensures
        lists_ascending(ascending(ids), ids),
    decreases ids.len(),
{
    if ids.len() == 0 {
        assert(ids =~= Set::<u128>::empty());
        assert(Seq::<u128>::empty().to_set() =~= ids);
        assert(lists_ascending(Seq::<u128>::empty(), ids));
    } else {
        let leq = |a: u128, b: u128| a <= b;
        ids.find_unique_maximal_ensures(leq);
        let top = ids.find_unique_maximal(leq);
        let rest = ids.remove(top);
        lemma_ascending_lists(rest);
        let list = ascending(rest).push(top);
        assert forall|i: int, j: int| 0 <= i < j < list.len() implies list[i] < list[j] by {
            if j == list.len() - 1 {
                assert(ascending(rest).to_set().contains(list[i]));
                assert(rest.contains(list[i]));
                assert(leq(list[i], top) || leq(top, list[i]));
            }
        }
        assert forall|k: u128| ids.contains(k) implies list.to_set().contains(k) by {
            if k == top {
                assert(list[list.len() - 1] == k);
            } else {
                assert(ascending(rest).to_set().contains(k));
                let i = choose|i: int| 0 <= i < ascending(rest).len() && ascending(rest)[i] == k;
                assert(list[i] == k);
            }
        }
        assert forall|k: u128| list.to_set().contains(k) implies ids.contains(k) by {
            let i = choose|i: int| 0 <= i < list.len() && list[i] == k;
            if i < list.len() - 1 {
                assert(ascending(rest).to_set().contains(ascending(rest)[i]));
            }
        }
        assert(list.to_set() =~= ids);
        assert(lists_ascending(list, ids));
    }
}

impl<V: View> IdMap<V> {
    /// The empty map.
    pub fn new() -> (r: IdMap<V>)
        ensures
            r@ == Map::<u128, V::V>::empty(),
    {
        let r = IdMap { entries: BTreeMap::new() };
        assert(r@ =~= Map::<u128, V::V>::empty());
        r
    }

    /// The number of entries.
    pub fn len(&self) -> (r: usize)
        ensures
            r == self@.dom().len(),
            self@.dom().finite(),
    {
        broadcast use {
            vstd::std_specs::btree::group_btree_axioms,
            vstd::laws_cmp::group_laws_cmp,
        };

        assert(self@.dom() =~= self.entries@.dom());
        assert(vstd::laws_cmp::obeys_cmp::<u128>());
        assert(vstd::std_specs::btree::key_obeys_cmp_spec::<u128>());
        self.entries.len()
    }

    /// Whether the map has an entry for `key`.
    pub fn contains(&self, key: u128) -> (r: bool)
        ensures
            r == self@.contains_key(key),
    {
        broadcast use vstd::laws_cmp::group_laws_cmp;

        assert(vstd::laws_cmp::obeys_cmp::<u128>());
        self.entries.contains_key(&key)
    }

    /// The value of `key`.
    pub fn get(&self, key: u128) -> (r: Option<&V>)
        ensures
            r is Some <==> self@.contains_key(key),
            r is Some ==> (r->0)@ == self@[key],
    {
        broadcast use vstd::laws_cmp::group_laws_cmp;

        assert(vstd::laws_cmp::obeys_cmp::<u128>());
        self.entries.get(&key)
    }

    /// Sets the value of `key`.
    pub fn insert(&mut self, key: u128, value: V)
        ensures
            final(self)@ == old(self)@.insert(key, value@),
    {
        broadcast use vstd::laws_cmp::group_laws_cmp;

        assert(vstd::laws_cmp::obeys_cmp::<u128>());
        let _ = self.entries.insert(key, value);
        assert(self@ =~= old(self)@.insert(key, value@));
    }

    /// Takes the entry of `key` out.
    pub fn remove(&mut self, key: u128) -> (r: Option<V>)
        ensures
            final(self)@ == old(self)@.remove(key),
            r is Some <==> old(self)@.contains_key(key),
            r is Some ==> (r->0)@ == old(self)@[key],
    {
        broadcast use vstd::laws_cmp::group_laws_cmp;

        assert(vstd::laws_cmp::obeys_cmp::<u128>());
        let r = self.entries.remove(&key);
        assert(self@ =~= old(self)@.remove(key));
        r
    }

    /// The identifiers of the map in ascending order.
    pub fn ids(&self) -> (r: Vec<u128>)
        ensures
            lists_ascending(r@, self@.dom()),
            r@ == ascending(self@.dom()),
            r@.no_duplicates(),
    {
        broadcast use {
            vstd::std_specs::btree::group_btree_axioms,
            vstd::laws_cmp::group_laws_cmp,
        };

        let mut out: Vec<u128> = Vec::new();
        let ghost pairs = vstd::std_specs::iter::IteratorSpec::remaining(
            &vstd::std_specs::btree::spec_btree_map_iter(&self.entries),
        );
        let ghost names = pairs.map_values(|kv: (&u128, &V)| *kv.0);
        assert(vstd::laws_cmp::obeys_cmp::<u128>());
        let walk = self.entries.iter();
        assert(vstd::std_specs::btree::increasing_seq(names));
        for kv in it: walk
            invariant
                it.seq() == pairs,
                out@ == names.take(it.index()),
                names == pairs.map_values(|kv: (&u128, &V)| *kv.0),
        {
            out.push(*kv.0);
        }
        proof {
            assert(out@ == names);
            assert(self@.dom() =~= self.entries@.dom());
            assert forall|i: int, j: int| 0 <= i < j < names.len() implies names[i] < names[j] by {
                assert(vstd::std_specs::cmp::OrdSpec::cmp_spec(&names[i], &names[j]) is Less);
            }
            assert forall|k: u128| self.entries@.dom().contains(k) implies out@.to_set().contains(
                k,
            ) by {
                assert(self.entries@.contains_key(k));
                assert(pairs.contains((&k, &self.entries@[k])));
                let i = choose|i: int|
                    0 <= i < pairs.len() && pairs[i] == (&k, &self.entries@[k]);
                assert(names[i] == k);
            }
            assert forall|k: u128| out@.to_set().contains(k) implies self.entries@.dom().contains(
                k,
            ) by {
                let i = choose|i: int| 0 <= i < out@.len() && out@[i] == k;
                assert(self.entries@.contains_key(*pairs[i].0));
            }
            assert(out@.to_set() =~= self@.dom());
            lemma_is_ascending(out@, self@.dom());
        }
        out
    }
}

} // verus!
