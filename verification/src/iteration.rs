//! The order in which a `BTreeSet` of cell numbers is walked.

use vstd::prelude::*;
use vstd::std_specs::btree::{axiom_increasing_seq_meaning, increasing_seq};
use vstd::std_specs::cmp::OrdSpec;

verus! {

/// A walk in increasing order meets smaller numbers first.
pub proof fn lemma_iteration_ascends(order: Seq<&usize>)
    requires
        increasing_seq(order),
    ensures
        forall|i: int, j: int| 0 <= i < j < order.len() ==> *order[i] < *order[j],
{
    broadcast use vstd::laws_cmp::group_laws_cmp;

    axiom_increasing_seq_meaning::<&usize>(order);
    assert forall|i: int, j: int| 0 <= i < j < order.len() implies *order[i] < *order[j] by {
        assert(OrdSpec::cmp_spec(&order[i], &order[j]) is Less);
    }
}

} // verus!
