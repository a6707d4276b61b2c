use vstd::prelude::*;

verus! {

/// The outcome of a step that either produced a value, has nothing yet, or failed.
pub enum ThreeStateResult<T, E> {
    Ready(T),
    NotReady,
    Failed(E),
}

} // verus!
