use vstd::prelude::*;
use core::cmp::Ordering;
use vstd::std_specs::cmp::PartialOrdSpec;

verus! {

/// The element type's `<=`, as its `PartialOrd` specification reads it.
pub open spec fn le_spec<T: PartialOrd>(a: T, b: T) -> bool {
    a.partial_cmp_spec(&b) matches Some(Ordering::Less | Ordering::Equal)
}

/// The element type's comparison operators follow its `PartialOrd` specification.
pub open spec fn comparable<T: PartialOrd>() -> bool {
    T::obeys_partial_cmp_spec()
}

/// `<=` on the element type is a total preorder: any two elements compare,
/// and `<=` is transitive.
pub open spec fn total_order<T: PartialOrd>() -> bool {
    &&& comparable::<T>()
    &&& forall|a: T, b: T| #[trigger] le_spec(a, b) || #[trigger] le_spec(b, a)
    &&& forall|a: T, b: T, c: T|
        #[trigger] le_spec(a, b) && #[trigger] le_spec(b, c) ==> le_spec(a, c)
}

} // verus!
