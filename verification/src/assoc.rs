//! Association lists: sequences of keyed entries that are searched from
//! the front, and the grouping of a sequence by a key.

use crate::order::{same, Ranked};
use vstd::prelude::*;

verus! {

/// The place of the first entry of `entries` under `key`, if there is one.
pub open spec fn position<K, V>(entries: Seq<(K, V)>, key: K) -> Option<int>
    decreases entries.len(),
{
    if entries.len() == 0 {
        None
    } else {
        match position(entries.drop_last(), key) {
            Some(i) => Some(i),
            None => if entries.last().0 == key {
                Some(entries.len() - 1)
            } else {
                None
            },
        }
    }
}

/// What the first entry of `entries` under `key` holds, if there is one.
pub open spec fn lookup<K, V>(entries: Seq<(K, V)>, key: K) -> Option<V> {
    match position(entries, key) {
        Some(i) => Some(entries[i].1),
        None => None,
    }
}

/// The keys of `entries`, in order.
pub open spec fn keys_of<K, V>(entries: Seq<(K, V)>) -> Seq<K> {
    entries.map_values(|e: (K, V)| e.0)
}

/// `position` finds the first entry under the key, and finds none exactly
/// when no entry is under it.
pub proof fn lemma_position<K, V>(entries: Seq<(K, V)>, key: K)
    ensures
        match position(entries, key) {
            Some(i) => {
                &&& 0 <= i < entries.len()
                &&& entries[i].0 == key
                &&& forall|j: int| 0 <= j < i ==> (#[trigger] entries[j]).0 != key
            },
            None => forall|j: int| 0 <= j < entries.len() ==> (#[trigger] entries[j]).0 != key,
        },
    decreases entries.len(),
{
    if entries.len() > 0 {
        lemma_position(entries.drop_last(), key);
        match position(entries.drop_last(), key) {
            Some(i) => {
                assert(entries.drop_last()[i] == entries[i]);
                assert forall|j: int| 0 <= j < i implies (#[trigger] entries[j]).0 != key by {
                    assert(entries.drop_last()[j] == entries[j]);
                }
            },
            None => {
                assert forall|j: int| 0 <= j < entries.len() - 1 implies (#[trigger] entries[j]).0
                    != key by {
                    assert(entries.drop_last()[j] == entries[j]);
                }
            },
        }
    }
}

/// An entry under `key` at place `i`, with none before it, is what
/// `position` finds.
pub proof fn lemma_position_at<K, V>(entries: Seq<(K, V)>, key: K, i: int)
    requires
        0 <= i < entries.len(),
        entries[i].0 == key,
        forall|j: int| 0 <= j < i ==> (#[trigger] entries[j]).0 != key,
    ensures
        position(entries, key) == Some(i),
{
    lemma_position(entries, key);
}

/// Finds the first entry whose key has the model of `key`.
pub fn find<K: Ranked, V: DeepView>(entries: &Vec<(K, V)>, key: &K) -> (r: Option<usize>)
    ensures
        match r {
            Some(i) => position(entries.deep_view(), key.deep_view()) == Some(i as int),
            None => position(entries.deep_view(), key.deep_view()) is None,
        },
{
    let ghost models = entries.deep_view();
    let mut i: usize = 0;
    while i < entries.len()
        invariant
            i <= entries.len(),
            models == entries.deep_view(),
            forall|j: int| 0 <= j < i ==> (#[trigger] models[j]).0 != key.deep_view(),
        decreases entries.len() - i,
    {
        if same(&entries[i].0, key) {
            proof {
                lemma_position_at(models, key.deep_view(), i as int);
            }
            return Some(i);
        }
        i = i + 1;
    }
    proof {
        lemma_position(models, key.deep_view());
    }
    None
}

/// The values of `s` without repetitions, each at the place of its first
/// occurrence.
pub open spec fn first_seen<K>(s: Seq<K>) -> Seq<K>
    decreases s.len(),
{
    if s.len() == 0 {
        s
    } else {
        let earlier = first_seen(s.drop_last());
        if earlier.contains(s.last()) {
            earlier
        } else {
            earlier.push(s.last())
        }
    }
}

/// `first_seen` holds exactly the values of the sequence, each once.
pub proof fn lemma_first_seen<K>(s: Seq<K>)
    ensures
        first_seen(s).no_duplicates(),
        forall|k: K| first_seen(s).contains(k) <==> s.contains(k),
    decreases s.len(),
{
    if s.len() > 0 {
        let earlier = first_seen(s.drop_last());
        lemma_first_seen(s.drop_last());
        assert forall|k: K| first_seen(s).contains(k) <==> s.contains(k) by {
            if s.contains(k) {
                let i = choose|i: int| 0 <= i < s.len() && s[i] == k;
                if i < s.len() - 1 {
                    assert(s.drop_last()[i] == k);
                    assert(s.drop_last().contains(k));
                    assert(earlier.contains(k));
                    if !earlier.contains(s.last()) {
                        let j = choose|j: int| 0 <= j < earlier.len() && earlier[j] == k;
                        assert(earlier.push(s.last())[j] == k);
                    }
                } else {
                    if !earlier.contains(s.last()) {
                        assert(earlier.push(s.last())[earlier.len() as int] == k);
                    }
                }
            }
            if first_seen(s).contains(k) {
                let j = choose|j: int| 0 <= j < first_seen(s).len() && first_seen(s)[j] == k;
                if j < earlier.len() {
                    assert(earlier[j] == k);
                    assert(earlier.contains(k));
                    assert(s.drop_last().contains(k));
                    let i = choose|i: int| 0 <= i < s.drop_last().len() && s.drop_last()[i] == k;
                    assert(s[i] == k);
                } else {
                    assert(s[s.len() - 1] == k);
                }
            }
        }
    }
}

} // verus!
