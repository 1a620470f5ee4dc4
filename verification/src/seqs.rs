//! Lists of things that have a model.

use vstd::prelude::*;

verus! {

/// The model of each item of a list.
pub open spec fn models<T: View>(s: Seq<T>) -> Seq<T::V> {
    Seq::new(s.len(), |i: int| s[i]@)
}

} // verus!
