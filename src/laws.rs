//! Facts about the bag that involve more than one call.
use vstd::prelude::*;
use vstd::std_specs::cmp::PartialEqSpec;

use crate::bag::Bag;
use crate::element::plain_value;

verus! {

broadcast use vstd::seq_lib::group_to_multiset_ensures;

/// Inserting the values of `vals` one at a time into an empty bag leaves a
/// bag of `vals.len()` values, in which each value occurs as often as it
/// does in `vals`.
///
/// `bags[k]` is the bag after the first `k` insertions: each step is what
/// `insert` guarantees.
pub proof fn law_inserts<T>(bags: Seq<Bag<T>>, vals: Seq<T>, v: T)
    requires
        bags.len() == vals.len() + 1,
        bags[0]@.len() == 0,
        forall|k: int| 0 <= k < vals.len() ==> #[trigger] bags[k + 1]@ == bags[k]@.push(vals[k]),
    ensures
        bags.last()@.len() == vals.len(),
        bags.last().contents().count(v) == vals.to_multiset().count(v),
{
    assert forall|k: int| 0 <= k <= vals.len() implies #[trigger] bags[k]@ == vals.subrange(0, k) by {
        lemma_inserted_prefix(bags, vals, k);
    }
    assert(vals.subrange(0, vals.len() as int) =~= vals);
}

proof fn lemma_inserted_prefix<T>(bags: Seq<Bag<T>>, vals: Seq<T>, k: int)
    requires
        bags.len() == vals.len() + 1,
        bags[0]@.len() == 0,
        forall|j: int| 0 <= j < vals.len() ==> #[trigger] bags[j + 1]@ == bags[j]@.push(vals[j]),
        0 <= k <= vals.len(),
    ensures
        bags[k]@ == vals.subrange(0, k),
    decreases k,
{
    if k == 0 {
        assert(bags[0]@ =~= vals.subrange(0, 0));
    } else {
        lemma_inserted_prefix(bags, vals, k - 1);
        assert(bags[(k - 1) + 1]@ == bags[k - 1]@.push(vals[k - 1]));
        assert(vals.subrange(0, k - 1).push(vals[k - 1]) =~= vals.subrange(0, k));
    }
}

/// Two bags are `==` exactly when every value occurs in both equally often,
/// whatever order their values are stored in; so bags with the same values
/// but different multiplicities are not `==`.
pub proof fn law_equality_is_multiset<T: PartialEq + Clone>(a: Bag<T>, b: Bag<T>)
    requires
        plain_value::<T>(),
    ensures
        Bag::<T>::obeys_eq_spec(),
        a.eq_spec(&b) <==> forall|v: T| #[trigger] a.contents().count(v) == b.contents().count(v),
{
    if forall|v: T| #[trigger] a.contents().count(v) == b.contents().count(v) {
        assert(a.contents() =~= b.contents());
    }
}

} // verus!
