use crate::application::dispatch::{
    after_handle, after_store, begin, calls_since, delivered_to, is_delivery, is_result_of,
    Step,
};
use crate::application::domain_event_handler::DomainEventHandler;
use crate::application::repository::{upserted, ReadRepository, Repository};
use crate::domain::aggregate_root::AggregateRoot;
use crate::domain::domain_event::DomainEvent;
use crate::error::BoxError;
use std::marker::PhantomData;
use vstd::prelude::*;

verus! {

/// Hands the events of a delivery to `handler`, oldest first, until none is
/// left or the handler fails.
///
/// The calls that the handler takes are a delivery of the events of `step`.
/// The result is the aggregate of `step` where the handler failed on none,
/// and the failure of the handler where it failed.
pub fn deliver<T, E: DomainEvent, H: DomainEventHandler<E>>(handler: &mut H, step: Step<T, E>) -> (result:
    Result<T, BoxError>)
    ensures
        step matches Step::Done(ended) ==> result == ended && *final(handler) == *old(handler),
        final(handler).history() == old(handler).history() + calls_since(
            old(handler).history(),
            final(handler).history(),
        ),
        is_delivery(
            calls_since(old(handler).history(), final(handler).history()),
            step.upcoming(),
        ),
        step.carried() matches Some(stored) ==> is_result_of(
            result,
            stored,
            calls_since(old(handler).history(), final(handler).history()),
            step.upcoming(),
        ),
{
    let ghost all = step.upcoming();
    let ghost mut calls: Seq<(E, Result<(), BoxError>)> = Seq::empty();
    let mut current = step;
    proof {
        assert(handler.history() + calls =~= handler.history());
        assert(all.skip(0) =~= all);
    }
    loop
        invariant
            all == step.upcoming(),
            handler.history() == old(handler).history() + calls,
            is_delivery(calls, all),
            current is Handle ==> current.upcoming() == all.skip(calls.len() as int)
                && current.carried() == step.carried() && (calls.len() > 0
                ==> calls.last().1 is Ok),
            current matches Step::Done(ended) ==> (step.carried() matches Some(stored)
                ==> is_result_of(ended, stored, calls, all)),
            step is Done ==> current == step && *handler == *old(handler),
        decreases current.upcoming().len(),
    {
        match current {
            Step::Done(result) => {
                proof {
                    assert((old(handler).history() + calls).skip(
                        old(handler).history().len() as int,
                    ) =~= calls);
                }
                return result;
            },
            Step::Handle(event, rest) => {
                let ghost left = rest.remaining();
                let outcome = handler.handle(event);
                let ghost answer = outcome;
                current = after_handle(outcome, rest);
                proof {
                    let sent = calls.len() as int;
                    assert((seq![event] + left).skip(1) =~= left);
                    assert(all.skip(sent).skip(1) =~= all.skip(sent + 1));
                    assert(all.skip(sent)[0] == event);
                    let longer = calls.push((event, answer));
                    assert(old(handler).history() + longer =~= (old(handler).history()
                        + calls).push((event, answer)));
                    assert(longer.last() == (event, answer));
                    assert forall|i: int| 0 <= i < longer.len() - 1 implies (
                    #[trigger] longer[i]).1 is Ok by {
                        if i < calls.len() - 1 {
                            assert(longer[i] == calls[i]);
                        } else {
                            assert(longer[i] == calls.last());
                        }
                    }
                    assert forall|i: int| 0 <= i < longer.len() implies (#[trigger] longer[i]).0
                        == all[i] by {
                        if i < calls.len() {
                            assert(longer[i] == calls[i]);
                        }
                    }
                    calls = longer;
                }
            },
        }
    }
}

/// A repository that handles the domain events of an aggregate when it
/// persists the aggregate.
///
/// Each of `add`, `update` and `delete` drains the pending domain events of
/// the aggregate, then calls the repository underneath, then hands the
/// drained events to the handler, oldest first. A failure of the repository
/// ends the call before any event is handled. The first failure of the
/// handler ends the call too: the later events are dropped, and what the
/// repository did stays done.
pub struct DomainRepository<T, R, H> {
    aggregate_root_type: PhantomData<T>,
    repository: R,
    domain_event_handler: H,
}

impl<T, R, H> DomainRepository<T, R, H> where
    T: AggregateRoot,
    T::DomainEvent: DomainEvent,
    R: Repository<T>,
    H: DomainEventHandler<T::DomainEvent>,
 {
    /// The repository underneath.
    pub closed spec fn inner(&self) -> R {
        self.repository
    }

    /// The handler of the domain events.
    pub closed spec fn handler(&self) -> H {
        self.domain_event_handler
    }

    /// Whether the handler has taken a call since the repository was
    /// `before`.
    pub open spec fn handled_since(&self, before: Self) -> bool {
        self.handler().history().len() > before.handler().history().len()
    }

    /// Whether a failure that left the repository underneath as `self`,
    /// where it was `before`, can be one of that repository: it is one that
    /// may fail, and where it fails cleanly it holds what it held.
    pub open spec fn store_failed_since(&self, before: Self) -> bool {
        &&& !before.inner().never_fails()
        &&& before.inner().fails_cleanly() ==> self.inner().entries() == before.inner().entries()
    }

    /// Whether the repository underneath is of the kind that it was as
    /// `before`: it never fails, or fails cleanly, as it did.
    pub open spec fn same_kind_as(&self, before: Self) -> bool {
        &&& self.inner().never_fails() == before.inner().never_fails()
        &&& self.inner().fails_cleanly() == before.inner().fails_cleanly()
    }

    /// A repository over `repository` that hands the domain events to
    /// `domain_event_handler`.
    pub fn new(repository: R, domain_event_handler: H) -> (decorated: Self)
        ensures
            decorated.inner() == repository,
            decorated.handler() == domain_event_handler,
    {
        DomainRepository { aggregate_root_type: PhantomData, repository, domain_event_handler }
    }

    /// The repository underneath.
    pub fn repository(&self) -> (repository: &R)
        ensures
            *repository == self.inner(),
    {
        &self.repository
    }

    /// The handler of the domain events.
    pub fn domain_event_handler(&self) -> (handler: &H)
        ensures
            *handler == self.handler(),
    {
        &self.domain_event_handler
    }
}

impl<T, R, H> ReadRepository<T> for DomainRepository<T, R, H> where
    T: AggregateRoot,
    T::DomainEvent: DomainEvent,
    R: Repository<T>,
    H: DomainEventHandler<T::DomainEvent>,
 {
    /// What the repository underneath holds.
    open spec fn entries(&self) -> Map<u64, T> {
        self.inner().entries()
    }

    /// A handler may fail, so no success is promised here.
    open spec fn never_fails(&self) -> bool {
        false
    }

    fn get_by_id(&self, id: u64) -> (found: Result<Option<T>, BoxError>)
        ensures
            self.inner().never_fails() ==> found is Ok,
    {
        self.repository.get_by_id(id)
    }

    fn list(&self, skip: usize, take: usize) -> (listed: Result<Vec<T>, BoxError>)
        ensures
            self.inner().never_fails() ==> listed is Ok,
    {
        self.repository.list(skip, take)
    }

    fn count(&self) -> (counted: Result<usize, BoxError>)
        ensures
            self.inner().never_fails() ==> counted is Ok,
    {
        self.repository.count()
    }
}

impl<T, R, H> Repository<T> for DomainRepository<T, R, H> where
    T: AggregateRoot,
    T::DomainEvent: DomainEvent,
    R: Repository<T>,
    H: DomainEventHandler<T::DomainEvent>,
 {
    /// What the handler has seen stays seen, and what was persisted before
    /// the handler failed stays persisted: a failure here is not clean.
    open spec fn fails_cleanly(&self) -> bool {
        false
    }

    fn add(&mut self, entity: T) -> (added: Result<T, BoxError>)
        ensures
            final(self).same_kind_as(*old(self)),
            delivered_to(
                added,
                old(self).handler().history(),
                final(self).handler().history(),
                entity.pending(),
            ),
            old(self).inner().never_fails() || final(self).handled_since(*old(self)) ==> upserted(
                old(self).entries(),
                final(self).entries(),
                entity,
            ),
            added is Err && !final(self).handled_since(*old(self))
                ==> final(self).store_failed_since(*old(self)),
            entity.pending().len() == 0 ==> final(self).handler() == old(self).handler(),
    {
        let (entity, events) = begin(entity);
        let outcome = self.repository.add(entity);
        let step = after_store(outcome, events);
        deliver(&mut self.domain_event_handler, step)
    }

    fn update(&mut self, entity: T) -> (updated: Result<T, BoxError>)
        ensures
            final(self).same_kind_as(*old(self)),
            delivered_to(
                updated,
                old(self).handler().history(),
                final(self).handler().history(),
                entity.pending(),
            ),
            old(self).inner().never_fails() || final(self).handled_since(*old(self)) ==> upserted(
                old(self).entries(),
                final(self).entries(),
                entity,
            ),
            updated is Err && !final(self).handled_since(*old(self))
                ==> final(self).store_failed_since(*old(self)),
            entity.pending().len() == 0 ==> final(self).handler() == old(self).handler(),
    {
        let (entity, events) = begin(entity);
        let outcome = self.repository.update(entity);
        let step = after_store(outcome, events);
        deliver(&mut self.domain_event_handler, step)
    }

    fn delete(&mut self, entity: T) -> (deleted: Result<(), BoxError>)
        ensures
            final(self).same_kind_as(*old(self)),
            delivered_to(
                deleted,
                old(self).handler().history(),
                final(self).handler().history(),
                entity.pending(),
            ),
            old(self).inner().never_fails() || final(self).handled_since(*old(self))
                ==> final(self).entries() == old(self).entries().remove(entity.identity()),
            deleted is Err && !final(self).handled_since(*old(self))
                ==> final(self).store_failed_since(*old(self)),
            entity.pending().len() == 0 ==> final(self).handler() == old(self).handler(),
    {
        let (entity, events) = begin(entity);
        let outcome = self.repository.delete(entity);
        let step = after_store(outcome, events);
        deliver(&mut self.domain_event_handler, step)
    }
}

} // verus!
