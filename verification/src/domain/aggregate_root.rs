use crate::domain::entity::Entity;
use vstd::prelude::*;

verus! {

/// The buffer of pending events after `event` has been registered.
pub open spec fn registered<E>(pending: Seq<E>, event: E) -> Seq<E> {
    pending.push(event)
}

/// The buffer of pending events after each of `events` has been registered,
/// first to last.
pub open spec fn registered_all<E>(pending: Seq<E>, events: Seq<E>) -> Seq<E>
    decreases events.len(),
{
    if events.len() == 0 {
        pending
    } else {
        registered(registered_all(pending, events.drop_last()), events.last())
    }
}

/// What a drain hands out of a buffer of pending events: all of them, oldest
/// first.
pub open spec fn drained<E>(pending: Seq<E>) -> Seq<E> {
    pending
}

/// What a drain leaves in a buffer of pending events: nothing.
pub open spec fn left_by_drain<E>(pending: Seq<E>) -> Seq<E> {
    Seq::empty()
}

/// Whether `copy` shows the state of `source`: the same identity and the
/// same observable state. The pending events may differ.
pub open spec fn same_state<T: AggregateRoot>(source: T, copy: T) -> bool {
    &&& copy.identity() == source.identity()
    &&& copy@ == source@
}

/// Whether `copy` shows the same aggregate as `source`: the same identity,
/// the same observable state and the same pending events.
pub open spec fn same_aggregate<T: AggregateRoot>(source: T, copy: T) -> bool {
    &&& same_state(source, copy)
    &&& copy.pending() == source.pending()
}

/// An aggregate root: the entity through which an aggregate is reached. It
/// owns the ordered buffer of the domain events that are pending on it.
///
/// Events enter the buffer through `register_domain_event` alone and leave it
/// through `drain_domain_events` alone. Neither touches the identity nor the
/// observable state, which is the aggregate's view.
pub trait AggregateRoot: Entity + Clone {
    /// The type of the domain events of this aggregate.
    type DomainEvent;

    /// The pending domain events, in the order in which they were registered.
    spec fn pending(&self) -> Seq<Self::DomainEvent>;

    /// Appends `event` to the pending domain events.
    fn register_domain_event(&mut self, event: Self::DomainEvent)
        ensures
            final(self).pending() == registered(old(self).pending(), event),
            final(self).identity() == old(self).identity(),
            final(self)@ == old(self)@,
    ;

    /// Empties the buffer of pending domain events and returns what it held,
    /// in the order of registration.
    fn drain_domain_events(&mut self) -> (events: Vec<Self::DomainEvent>)
        ensures
            events@ == drained(old(self).pending()),
            final(self).pending() == left_by_drain(old(self).pending()),
            final(self).identity() == old(self).identity(),
            final(self)@ == old(self)@,
    ;

    /// A clone shows the same aggregate as the value it was taken from.
    proof fn clone_is_faithful(source: Self, copy: Self)
        requires
            cloned(source, copy),
        ensures
            copy.identity() == source.identity(),
            copy@ == source@,
            copy.pending() == source.pending(),
    ;
}

/// An aggregate root whose domain events can be taken by whoever persists it.
pub trait AggregateRootEx: AggregateRoot {
    /// Clears all domain events from the aggregate, returning them in order of
    /// occurrence.
    fn take_domain_events(&mut self) -> (events: Vec<Self::DomainEvent>)
        ensures
            events@ == drained(old(self).pending()),
            final(self).pending() == left_by_drain(old(self).pending()),
            final(self).identity() == old(self).identity(),
            final(self)@ == old(self)@,
    {
        self.drain_domain_events()
    }
}

/// A copy of `aggregate` that shows the same aggregate.
pub fn snapshot<T: AggregateRoot>(aggregate: &T) -> (copy: T)
    ensures
        same_aggregate(*aggregate, copy),
{
    let copy = aggregate.clone();
    proof {
        T::clone_is_faithful(*aggregate, copy);
    }
    copy
}

/// A drain that follows a drain, with no registration between the two, hands
/// out nothing.
pub proof fn lemma_second_drain_is_empty<E>(pending: Seq<E>)
    ensures
        drained(left_by_drain(pending)) == Seq::<E>::empty(),
{
}

/// Events registered on an empty buffer are drained exactly as they were
/// registered: all of them, in the same order.
pub proof fn lemma_drain_keeps_registration_order<E>(events: Seq<E>)
    ensures
        drained(registered_all(Seq::<E>::empty(), events)) == events,
    decreases events.len(),
{
    if events.len() > 0 {
        lemma_drain_keeps_registration_order(events.drop_last());
        assert(events.drop_last().push(events.last()) =~= events);
    }
}

/// Three events registered in turn on an empty buffer are drained as those
/// three, in that order.
pub proof fn lemma_three_events_in_order<E>(first: E, second: E, third: E)
    ensures
        drained(
            registered(registered(registered(Seq::<E>::empty(), first), second), third),
        ) == seq![first, second, third],
{
    assert(Seq::<E>::empty().push(first).push(second).push(third) =~= seq![first, second, third]);
}

} // verus!
