use crate::domain::aggregate_root::AggregateRootEx;
use crate::error::BoxError;
use vstd::prelude::*;

verus! {

/// A request: its one requirement is to name the type of its response.
pub trait Request {
    /// The type of the response to this request.
    type Response;
}

/// A command: a request that changes the state of the system and returns no
/// value.
pub trait Command {

}

impl<T: Command> Request for T {
    type Response = ();
}

/// A handler of requests with an error type of its own.
pub trait RequestHandler<R: Request> {
    /// The error of this handler.
    type Error;

    /// Handles the incoming request and returns its response.
    fn handle(&mut self, request: R) -> Result<R::Response, Self::Error>;
}

/// A handler of the domain events of one kind of aggregate. It is handed
/// the aggregate together with each event, applies what the event asks for,
/// and hands the aggregate back.
pub trait DomainEventHandler<T: AggregateRootEx> {
    /// Every call that this handler has taken, oldest first: the aggregate
    /// and the event that it was handed, and what it answered.
    spec fn history(&self) -> Seq<(T, T::DomainEvent, Result<T, BoxError>)>;

    /// Handles the incoming domain event of `entity`.
    fn handle(&mut self, entity: T, event: T::DomainEvent) -> (handled: Result<T, BoxError>)
        ensures
            final(self).history() == old(self).history().push((entity, event, handled)),
    ;
}

} // verus!

pub use self::Request as Query;
pub use self::RequestHandler as CommandHandler;
pub use self::RequestHandler as QueryHandler;
