//! Small shared items.
use vstd::prelude::*;

verus! {

/// A transparent wrapper around one value.
pub struct W<T>(pub T);

} // verus!
