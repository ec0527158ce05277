use vstd::prelude::*;

verus! {

/// A value already at hand, waiting to be taken once.
pub struct Ready<T>(pub Option<T>);

impl<T> Ready<T> {
    pub fn new(x: T) -> (r: Self)
        ensures
            r.0 == Some(x),
    {
        Ready(Some(x))
    }
}

} // verus!
