use vstd::prelude::*;

verus! {

/// A notification: an event that tells interested parties of an occurrence.
/// Unlike a request it has no response.
pub trait Notification {

}

} // verus!
