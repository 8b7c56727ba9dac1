use vstd::pervasive::strictly_cloned;
use vstd::prelude::*;
use vstd::std_specs::cmp::PartialEqSpec;

verus! {

/// Holds of an element type whose `==` is equality of values and whose
/// `clone` returns a value equal to its input.
///
/// The integer types and `bool` are such types. The bag's contracts
/// speak of multisets of values, so they rely on this of the element type.
pub open spec fn plain_value<T: PartialEq + Clone>() -> bool {
    &&& T::obeys_eq_spec()
    &&& forall|a: T, b: T| #[trigger] a.eq_spec(&b) <==> (a == b)
    &&& forall|a: T, b: T| #[trigger] strictly_cloned(a, b) ==> a == b
}

} // verus!
