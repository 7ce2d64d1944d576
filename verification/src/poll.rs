use vstd::prelude::*;

verus! {

/// The outcome of polling a future or a stream once.
#[derive(Debug)]
pub enum Poll<T, E> {
    /// The computation finished with a value.
    Ready(T),
    /// The computation finished with an error.
    Error(E),
    /// The computation cannot make progress yet; it will be scheduled again.
    NotReady,
}

} // verus!
