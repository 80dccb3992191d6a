use vstd::prelude::*;

verus! {

/// A request, usually a command or a query: its one requirement is to name
/// the type of its response.
pub trait Request {
    /// The type of the response to this request.
    type Response;
}

} // verus!
