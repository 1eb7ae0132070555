use vstd::prelude::*;

verus! {

/// A payload that reached the service as JSON text and was decoded from it.
///
/// The wrapper carries no data of its own: it marks, in a signature, that the
/// value inside came from a request body and has not been looked at yet.
pub struct JsonInput<T>(pub T);

impl<T> JsonInput<T> {
    /// Unwraps the decoded payload.
    pub fn into_inner(self) -> (payload: T)
        ensures
            payload == self.0,
    {
        self.0
    }
}

} // verus!
