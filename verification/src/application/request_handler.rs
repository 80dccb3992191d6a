use crate::presentation::request::Request;
use crate::presentation::result::Error;
use vstd::prelude::*;

verus! {

/// A handler of requests, be they commands or queries.
pub trait RequestHandler<R: Request> {
    /// Handles the incoming request and returns its response, or the error
    /// that the caller is to be told of.
    fn handle(&mut self, request: R) -> Result<R::Response, Error>;
}

} // verus!
