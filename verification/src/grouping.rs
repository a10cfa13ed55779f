//! Grouping of keyed values.

use itertools::Itertools;
use std::collections::HashMap;
use vstd::prelude::*;

verus! {

/// The test "is keyed by `key`".
pub open spec fn keyed_by<V>(key: u8) -> spec_fn((u8, V)) -> bool {
    |p: (u8, V)| p.0 == key
}

/// The values of the pairs of `pairs` that are keyed by `key`, in order.
pub open spec fn grouped<V>(pairs: Seq<(u8, V)>, key: u8) -> Seq<V> {
    pairs.filter(keyed_by(key)).map_values(|p: (u8, V)| p.1)
}

/// Groups the values of `pairs` by their keys, with
/// `itertools::Itertools::into_group_map`. The map that comes back holds a
/// key exactly when some pair has it, and under each key the values of the
/// pairs with that key, in the order of the pairs. This is taken from the
/// source of `into_group_map` and is not proved here.
#[verifier::external_body]
pub(crate) fn group_pairs<V>(pairs: Vec<(u8, V)>) -> (groups: HashMap<u8, Vec<V>>)
    ensures
        forall|k: u8| #[trigger] groups@.contains_key(k) <==> grouped(pairs@, k).len() > 0,
        forall|k: u8| groups@.contains_key(k) ==> (#[trigger] groups@[k])@ == grouped(pairs@, k),
{
    pairs.into_iter().into_group_map()
}

} // verus!
