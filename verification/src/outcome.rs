//! Comparing what a function returned with what its contract names.

use vstd::prelude::*;

verus! {

/// A result with its success value replaced by that value's view, so that a
/// contract can set it equal to the result of a spec function.
pub open spec fn result_view<T: View, E>(r: Result<T, E>) -> Result<T::V, E> {
    match r {
        Ok(value) => Ok(value@),
        Err(error) => Err(error),
    }
}

} // verus!
