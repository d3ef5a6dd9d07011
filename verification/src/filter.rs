//! Moving-window filters over vectors. Both are the documented placeholders
//! of the wider signal-processing surface: the windowing design is a
//! non-goal beyond these stubs.

use vstd::prelude::*;
use crate::scalar::Scalar;
use crate::vector::Vector;

verus! {

/// The averaging moving-window filter placeholder; it returns an empty
/// vector for every input.
pub fn average_moving_window_filter<T: Scalar>(data: Vector<T>, window_size: usize) -> (r: Vector<
    T,
>)
    ensures
        r.data@.len() == 0,
{
    let _ = data;
    let _ = window_size;
    Vector::<T>::new(Vec::<T>::new())
}

/// The median moving-window filter placeholder; it does nothing.
pub fn median_moving_window_filter() {
}

} // verus!
