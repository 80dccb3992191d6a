use crate::domain::aggregate_root::{AggregateRoot, AggregateRootEx};
use crate::domain::entity::Entity;
use vstd::prelude::*;
use vstd::std_specs::cmp::PartialEqSpecImpl;

verus! {

/// The observable state of an [`Aggregate`]: its identity and the state that
/// it carries. The pending domain events are no part of it.
pub struct AggregateView<S> {
    pub id: u64,
    pub state: S,
}

/// A ready-made aggregate root: an identity, a state of the caller's
/// choosing, and the buffer of pending domain events.
///
/// The identity is fixed at construction. The buffer is reached through
/// `register_domain_event` and `drain_domain_events` alone.
pub struct Aggregate<S, E> {
    id: u64,
    state: S,
    domain_events: Vec<E>,
}

impl<S, E> View for Aggregate<S, E> {
    type V = AggregateView<S>;

    closed spec fn view(&self) -> AggregateView<S> {
        AggregateView { id: self.id, state: self.state }
    }
}

impl<S: Copy, E: Copy> Aggregate<S, E> {
    /// An aggregate with the given identity and state, and no pending domain
    /// event.
    pub fn new(id: u64, state: S) -> (aggregate: Self)
        ensures
            aggregate.identity() == id,
            aggregate@ == (AggregateView { id, state }),
            aggregate.pending() == Seq::<E>::empty(),
    {
        Aggregate { id, state, domain_events: Vec::new() }
    }

    /// The identity is part of the observable state.
    pub proof fn lemma_identity_in_view(self)
        ensures
            self@.id == self.identity(),
    {
    }

    /// The state that the aggregate carries. It takes no part in entity
    /// equality.
    pub fn state(&self) -> (state: S)
        ensures
            state == self@.state,
    {
        self.state
    }

    /// Replaces the state that the aggregate carries. The identity and the
    /// pending domain events stay.
    pub fn set_state(&mut self, state: S)
        ensures
            final(self)@ == (AggregateView { id: old(self)@.id, state }),
            final(self).identity() == old(self).identity(),
            final(self).pending() == old(self).pending(),
    {
        self.state = state;
    }

    /// How many domain events are pending.
    pub fn pending_len(&self) -> (count: usize)
        ensures
            count == self.pending().len(),
    {
        self.domain_events.len()
    }
}

impl<S: Copy, E: Copy> Clone for Aggregate<S, E> {
    fn clone(&self) -> (copy: Self)
        ensures
            copy.identity() == self.identity(),
            copy@ == self@,
            copy.pending() == self.pending(),
    {
        let mut events: Vec<E> = Vec::new();
        let count = self.domain_events.len();
        let mut i: usize = 0;
        while i < count
            invariant
                count == self.domain_events@.len(),
                i <= count,
                events@ == self.domain_events@.take(i as int),
            decreases count - i,
        {
            events.push(self.domain_events[i]);
            i += 1;
            assert(events@ =~= self.domain_events@.take(i as int));
        }
        assert(self.domain_events@.take(count as int) =~= self.domain_events@);
        Aggregate { id: self.id, state: self.state, domain_events: events }
    }
}

impl<S: Copy, E: Copy> Entity for Aggregate<S, E> {
    closed spec fn identity(&self) -> u64 {
        self.id
    }

    fn id(&self) -> (id: u64) {
        self.id
    }
}

impl<S: Copy, E: Copy> AggregateRoot for Aggregate<S, E> {
    type DomainEvent = E;

    closed spec fn pending(&self) -> Seq<E> {
        self.domain_events@
    }

    fn register_domain_event(&mut self, event: E) {
        self.domain_events.push(event);
    }

    fn drain_domain_events(&mut self) -> (events: Vec<E>) {
        let mut events: Vec<E> = Vec::new();
        core::mem::swap(&mut self.domain_events, &mut events);
        events
    }

    proof fn clone_is_faithful(source: Self, copy: Self) {
    }
}

impl<S: Copy, E: Copy> AggregateRootEx for Aggregate<S, E> {

}

impl<S: Copy, E: Copy> PartialEq for Aggregate<S, E> {
    /// Entity equality: by identity alone.
    fn eq(&self, other: &Self) -> (same: bool) {
        self.id == other.id
    }
}

impl<S: Copy, E: Copy> Eq for Aggregate<S, E> {

}

impl<S: Copy, E: Copy> PartialEqSpecImpl for Aggregate<S, E> {
    open spec fn obeys_eq_spec() -> bool {
        true
    }

    open spec fn eq_spec(&self, other: &Self) -> bool {
        self.identity() == other.identity()
    }
}

} // verus!
