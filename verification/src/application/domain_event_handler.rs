use crate::domain::domain_event::DomainEvent;
use crate::error::BoxError;
use vstd::prelude::*;

verus! {

/// A handler of domain events: what the application does when something has
/// happened in the domain.
pub trait DomainEventHandler<E: DomainEvent> {
    /// Every call that this handler has taken, oldest first: the event that
    /// it was handed, and what it answered.
    spec fn history(&self) -> Seq<(E, Result<(), BoxError>)>;

    /// Handles the incoming domain event. A failure is handed back to
    /// whoever delivered the event.
    fn handle(&mut self, event: E) -> (handled: Result<(), BoxError>)
        ensures
            final(self).history() == old(self).history().push((event, handled)),
    ;
}

} // verus!
