use crate::application::dispatch::{
    after_apply, after_store, applied_and_dropped, applied_to, begin, calls_since,
    is_application,
    is_applied_result, Step,
};
use crate::application::repository::{upserted, ReadRepository, Repository};
use crate::application::service::DomainEventHandler;
use crate::domain::aggregate_root::{same_state, snapshot, AggregateRootEx};
use crate::error::BoxError;
use std::marker::PhantomData;
use vstd::prelude::*;

verus! {

/// Hands the aggregate of a delivery to `handler` together with each of its
/// events, oldest first, until none is left or the handler fails. What the
/// handler hands back is the aggregate that goes on.
///
/// The calls that the handler takes apply the events of `step` in turn, the
/// first of them to the aggregate of `step`. The result is what the last
/// call gave back: the aggregate where the handler failed on none, and the
/// failure of the handler where it failed.
pub fn apply_domain_events<T: AggregateRootEx, H: DomainEventHandler<T>>(
    handler: &mut H,
    step: Step<T, T::DomainEvent>,
) -> (result: Result<T, BoxError>)
    ensures
        step matches Step::Done(ended) ==> result == ended && *final(handler) == *old(handler),
        final(handler).history() == old(handler).history() + calls_since(
            old(handler).history(),
            final(handler).history(),
        ),
        is_application(
            calls_since(old(handler).history(), final(handler).history()),
            step.upcoming(),
        ),
        step.carried() matches Some(stored) ==> is_applied_result(
            result,
            stored,
            calls_since(old(handler).history(), final(handler).history()),
            step.upcoming(),
        ),
{
    let ghost all = step.upcoming();
    let ghost mut calls: Seq<(T, T::DomainEvent, Result<T, BoxError>)> = Seq::empty();
    let mut current = step;
    proof {
        assert(handler.history() + calls =~= handler.history());
        assert(all.skip(0) =~= all);
    }
    loop
        invariant
            all == step.upcoming(),
            handler.history() == old(handler).history() + calls,
            is_application(calls, all),
            calls.len() > 0 && step.carried() is Some ==> Some(calls[0].0) == step.carried(),
            current is Handle ==> current.upcoming() == all.skip(calls.len() as int) && (
            if calls.len() > 0 {
                calls.last().2 == Ok::<T, BoxError>(current.carried()->Some_0)
            } else {
                current.carried() == step.carried()
            }),
            current matches Step::Done(ended) ==> (step.carried() matches Some(stored)
                ==> is_applied_result(ended, stored, calls, all)),
            step is Done ==> current == step && *handler == *old(handler),
        decreases current.upcoming().len(),
    {
        match current {
            Step::Done(result) => {
                proof {
                    assert((old(handler).history() + calls).skip(
                        old(handler).history().len() as int,
                    ) =~= calls);
                }
                return result;
            },
            Step::Handle(event, rest) => {
                let ghost left = rest.remaining();
                let (entity, rest) = rest.take_entity();
                let ghost handed = entity;
                let outcome = handler.handle(entity, event);
                let ghost answer = outcome;
                current = after_apply(outcome, rest);
                proof {
                    let sent = calls.len() as int;
                    assert((seq![event] + left).skip(1) =~= left);
                    assert(all.skip(sent).skip(1) =~= all.skip(sent + 1));
                    assert(all.skip(sent)[0] == event);
                    let longer = calls.push((handed, event, answer));
                    assert(old(handler).history() + longer =~= (old(handler).history()
                        + calls).push((handed, event, answer)));
                    assert(longer.last() == (handed, event, answer));
                    assert forall|i: int, j: int|
                        #![trigger longer[i], longer[j]]
                        0 <= i && j == i + 1 && j < longer.len() implies longer[i].2 == Ok::<
                        T,
                        BoxError,
                    >(longer[j].0) by {
                        if j < calls.len() {
                            assert(longer[i] == calls[i]);
                            assert(longer[j] == calls[j]);
                        } else {
                            assert(longer[i] == calls.last());
                        }
                    }
                    assert forall|i: int| 0 <= i < longer.len() implies (#[trigger] longer[i]).1
                        == all[i] by {
                        if i < calls.len() {
                            assert(longer[i] == calls[i]);
                        }
                    }
                    if sent > 0 {
                        assert(longer[0] == calls[0]);
                    }
                    calls = longer;
                }
            },
        }
    }
}

/// A repository for aggregates whose domain events are applied to the
/// aggregate itself.
///
/// Each of `add`, `update` and `delete` takes the pending domain events of
/// the aggregate, then calls the repository underneath, then hands the
/// aggregate to the handler together with each event, oldest first. A
/// failure of the repository ends the call before any event is handled. The
/// first failure of the handler ends the call too: the later events are
/// dropped, and what the repository did stays done.
pub struct RepositoryEx<T, R, H> {
    aggregate_root_type: PhantomData<T>,
    domain_event_handler: H,
    repository: R,
}

impl<T, R, H> RepositoryEx<T, R, H> where
    T: AggregateRootEx,
    R: Repository<T>,
    H: DomainEventHandler<T>,
 {
    /// The repository underneath.
    pub closed spec fn inner(&self) -> R {
        self.repository
    }

    /// The handler of the domain events.
    pub closed spec fn handler(&self) -> H {
        self.domain_event_handler
    }

    /// Whether the handler has taken a call since the repository was
    /// `before`.
    pub open spec fn handled_since(&self, before: Self) -> bool {
        self.handler().history().len() > before.handler().history().len()
    }

    /// The aggregate that the handler was handed first since the repository
    /// was `before`.
    pub open spec fn first_handed_since(&self, before: Self) -> T {
        calls_since(before.handler().history(), self.handler().history())[0].0
    }

    /// Whether a failure that left the repository underneath as `self`,
    /// where it was `before`, can be one of that repository: it is one that
    /// may fail, and where it fails cleanly it holds what it held.
    pub open spec fn store_failed_since(&self, before: Self) -> bool {
        &&& !before.inner().never_fails()
        &&& before.inner().fails_cleanly() ==> self.inner().entries() == before.inner().entries()
    }

    /// Whether the repository underneath is of the kind that it was as
    /// `before`: it never fails, or fails cleanly, as it did.
    pub open spec fn same_kind_as(&self, before: Self) -> bool {
        &&& self.inner().never_fails() == before.inner().never_fails()
        &&& self.inner().fails_cleanly() == before.inner().fails_cleanly()
    }

    /// An extended repository over `repository` that hands the domain events
    /// to `domain_event_handler`.
    pub fn new(domain_event_handler: H, repository: R) -> (extended: Self)
        ensures
            extended.inner() == repository,
            extended.handler() == domain_event_handler,
    {
        RepositoryEx { aggregate_root_type: PhantomData, domain_event_handler, repository }
    }

    /// The repository underneath.
    pub fn repository(&self) -> (repository: &R)
        ensures
            *repository == self.inner(),
    {
        &self.repository
    }

    /// The handler of the domain events.
    pub fn domain_event_handler(&self) -> (handler: &H)
        ensures
            *handler == self.handler(),
    {
        &self.domain_event_handler
    }

    /// Adds `entity` to the repository underneath, then applies its domain
    /// events. Returns the aggregate as the handler left it.
    pub fn add(&mut self, entity: T) -> (added: Result<T, BoxError>)
        ensures
            final(self).same_kind_as(*old(self)),
            applied_to(
                added,
                old(self).handler().history(),
                final(self).handler().history(),
                entity.pending(),
            ),
            final(self).handled_since(*old(self)) ==> same_state(
                entity,
                final(self).first_handed_since(*old(self)),
            ),
            added matches Ok(stored) ==> entity.pending().len() == 0 ==> same_state(entity, stored),
            old(self).inner().never_fails() || added is Ok || final(self).handled_since(*old(self))
                ==> upserted(old(self).inner().entries(), final(self).inner().entries(), entity),
            added is Err && !final(self).handled_since(*old(self))
                ==> final(self).store_failed_since(*old(self)),
            entity.pending().len() == 0 ==> final(self).handler() == old(self).handler(),
    {
        let (entity, events) = begin(entity);
        let outcome = self.repository.add(entity);
        let step = after_store(outcome, events);
        apply_domain_events(&mut self.domain_event_handler, step)
    }

    /// Updates `entity` on the repository underneath, then applies its
    /// domain events. Returns the aggregate as the handler left it.
    pub fn update(&mut self, entity: T) -> (updated: Result<T, BoxError>)
        ensures
            final(self).same_kind_as(*old(self)),
            applied_to(
                updated,
                old(self).handler().history(),
                final(self).handler().history(),
                entity.pending(),
            ),
            final(self).handled_since(*old(self)) ==> same_state(
                entity,
                final(self).first_handed_since(*old(self)),
            ),
            updated matches Ok(stored) ==> entity.pending().len() == 0 ==> same_state(entity, stored),
            old(self).inner().never_fails() || updated is Ok || final(self).handled_since(*old(self))
                ==> upserted(old(self).inner().entries(), final(self).inner().entries(), entity),
            updated is Err && !final(self).handled_since(*old(self))
                ==> final(self).store_failed_since(*old(self)),
            entity.pending().len() == 0 ==> final(self).handler() == old(self).handler(),
    {
        let (entity, events) = begin(entity);
        let outcome = self.repository.update(entity);
        let step = after_store(outcome, events);
        apply_domain_events(&mut self.domain_event_handler, step)
    }

    /// Deletes `entity` from the repository underneath, then applies its
    /// domain events to the copy that was kept of it.
    pub fn delete(&mut self, entity: T) -> (deleted: Result<(), BoxError>)
        ensures
            final(self).same_kind_as(*old(self)),
            applied_and_dropped(
                deleted,
                old(self).handler().history(),
                final(self).handler().history(),
                entity.pending(),
            ),
            final(self).handled_since(*old(self)) ==> same_state(
                entity,
                final(self).first_handed_since(*old(self)),
            ),
            old(self).inner().never_fails() || deleted is Ok || final(self).handled_since(
                *old(self),
            ) ==> final(self).inner().entries() == old(self).inner().entries().remove(
                entity.identity(),
            ),
            deleted is Err && !final(self).handled_since(*old(self))
                ==> final(self).store_failed_since(*old(self)),
            entity.pending().len() == 0 ==> final(self).handler() == old(self).handler(),
    {
        let (entity, events) = begin(entity);
        let kept = snapshot(&entity);
        let outcome = match self.repository.delete(entity) {
            Ok(_) => Ok(kept),
            Err(err) => Err(err),
        };
        let step = after_store(outcome, events);
        let applied = apply_domain_events(&mut self.domain_event_handler, step);
        match applied {
            Ok(_) => Ok(()),
            Err(err) => Err(err),
        }
    }
}

impl<T, R, H> ReadRepository<T> for RepositoryEx<T, R, H> where
    T: AggregateRootEx,
    R: Repository<T>,
    H: DomainEventHandler<T>,
 {
    /// What the repository underneath holds.
    open spec fn entries(&self) -> Map<u64, T> {
        self.inner().entries()
    }

    /// Whether the repository underneath never fails.
    open spec fn never_fails(&self) -> bool {
        self.inner().never_fails()
    }

    fn get_by_id(&self, id: u64) -> (found: Result<Option<T>, BoxError>) {
        self.repository.get_by_id(id)
    }

    fn list(&self, skip: usize, take: usize) -> (listed: Result<Vec<T>, BoxError>) {
        self.repository.list(skip, take)
    }

    fn count(&self) -> (counted: Result<usize, BoxError>) {
        self.repository.count()
    }
}

} // verus!
