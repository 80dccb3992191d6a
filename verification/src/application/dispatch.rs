use crate::domain::aggregate_root::{drained, left_by_drain, AggregateRoot};
use crate::error::BoxError;
use vstd::prelude::*;

verus! {

/// A delivery under way: the aggregate as the store handed it back, and the
/// drained events that no handler has seen yet.
pub struct Delivery<T, E> {
    stored: T,
    /// The events that are still to be handled, the next of them last.
    queue: Vec<E>,
}

impl<T, E> Delivery<T, E> {
    /// The aggregate as the store handed it back.
    pub closed spec fn stored(self) -> T {
        self.stored
    }

    /// The events that are still to be handled, the next of them first.
    pub closed spec fn remaining(self) -> Seq<E> {
        self.queue@.reverse()
    }

    /// The aggregate as the store handed it back.
    pub fn entity(&self) -> (entity: &T)
        ensures
            *entity == self.stored(),
    {
        &self.stored
    }

    /// Parts the aggregate from the events that are still to be handled,
    /// for a handler that takes the aggregate itself.
    pub fn take_entity(self) -> (parts: (T, Delivery<(), E>))
        ensures
            parts.0 == self.stored(),
            parts.1.remaining() == self.remaining(),
    {
        (self.stored, Delivery { stored: (), queue: self.queue })
    }
}

/// What the one who persists an aggregate is to do next.
pub enum Step<T, E> {
    /// Hand this event to the handler, and come back with its answer.
    Handle(E, Delivery<T, E>),
    /// The call is over, with this result.
    Done(Result<T, BoxError>),
}

impl<T, E> Step<T, E> {
    /// The aggregate that the call succeeds with, if nothing fails from
    /// this step on.
    pub open spec fn carried(self) -> Option<T> {
        match self {
            Step::Handle(_, rest) => Some(rest.stored()),
            Step::Done(Ok(stored)) => Some(stored),
            Step::Done(Err(_)) => None,
        }
    }

    /// The events that are still to be handled, the one of this step first.
    pub open spec fn upcoming(self) -> Seq<E> {
        match self {
            Step::Handle(event, rest) => seq![event] + rest.remaining(),
            Step::Done(_) => Seq::empty(),
        }
    }
}

/// A step that follows for `remaining` has exactly these events to come.
pub proof fn lemma_follows_upcoming<T, E>(step: Step<T, E>, stored: T, remaining: Seq<E>)
    requires
        follows(step, stored, remaining),
    ensures
        step.upcoming() == remaining,
        step.carried() == Some(stored),
{
    if remaining.len() > 0 {
        assert(seq![remaining[0]] + remaining.skip(1) =~= remaining);
    } else {
        assert(step.upcoming() =~= remaining);
    }
}

/// The calls that a handler has taken since its history was `before`, where
/// it is `after` now.
pub open spec fn calls_since<C>(before: Seq<C>, after: Seq<C>) -> Seq<C> {
    after.skip(before.len() as int)
}

/// Whether `calls`, each an event and the answer of the handler to it, are a
/// delivery of `events`: the handler was handed the first events, in their
/// order, and each but the last call succeeded.
pub open spec fn is_delivery<E>(calls: Seq<(E, Result<(), BoxError>)>, events: Seq<E>) -> bool {
    &&& calls.len() <= events.len()
    &&& forall|i: int| 0 <= i < calls.len() ==> (#[trigger] calls[i]).0 == events[i]
    &&& forall|i: int| 0 <= i < calls.len() - 1 ==> (#[trigger] calls[i]).1 is Ok
}

/// Whether `result` ends a delivery `calls` of `events` as it must: success
/// only after every event was handled, and a failure of the handler as the
/// failure of the call.
pub open spec fn ends<T, E>(
    result: Result<T, BoxError>,
    calls: Seq<(E, Result<(), BoxError>)>,
    events: Seq<E>,
) -> bool {
    match result {
        Ok(_) => calls.len() == events.len() && (calls.len() > 0 ==> calls.last().1 is Ok),
        Err(err) => calls.len() > 0 ==> calls.last().1 == Err::<(), BoxError>(err),
    }
}

/// Whether `result` is the result of a delivery `calls` of `events` that
/// began with `stored` persisted: `stored` where every event was handled,
/// and else the failure of the handler on the last event that it was handed.
pub open spec fn is_result_of<T, E>(
    result: Result<T, BoxError>,
    stored: T,
    calls: Seq<(E, Result<(), BoxError>)>,
    events: Seq<E>,
) -> bool {
    &&& ends(result, calls, events)
    &&& match result {
        Ok(entity) => entity == stored,
        Err(_) => calls.len() > 0,
    }
}

/// Whether a handler whose history went from `before` to `after` took, in
/// between, a delivery of `events` that ended in `result`.
pub open spec fn delivered_to<T, E>(
    result: Result<T, BoxError>,
    before: Seq<(E, Result<(), BoxError>)>,
    after: Seq<(E, Result<(), BoxError>)>,
    events: Seq<E>,
) -> bool {
    let calls = calls_since(before, after);
    &&& after == before + calls
    &&& is_delivery(calls, events)
    &&& ends(result, calls, events)
}

/// Whether `calls`, each an aggregate, an event and the answer of the
/// handler to both, apply `events` in turn: the handler was handed the first
/// events, in their order, each but the last call succeeded, and each call
/// but the first was handed the aggregate that the call before it gave back.
pub open spec fn is_application<T, E>(calls: Seq<(T, E, Result<T, BoxError>)>, events: Seq<E>) -> bool {
    &&& calls.len() <= events.len()
    &&& forall|i: int| 0 <= i < calls.len() ==> (#[trigger] calls[i]).1 == events[i]
    &&& forall|i: int, j: int|
        #![trigger calls[i], calls[j]]
        0 <= i && j == i + 1 && j < calls.len() ==> calls[i].2 == Ok::<T, BoxError>(calls[j].0)
}

/// Whether `result` ends an application `calls` of `events` as it must:
/// success with what the last call gave back, only after every event was
/// handled, and a failure of the handler as the failure of the call.
pub open spec fn ends_application<T, E>(
    result: Result<T, BoxError>,
    calls: Seq<(T, E, Result<T, BoxError>)>,
    events: Seq<E>,
) -> bool {
    match result {
        Ok(entity) => calls.len() == events.len() && (calls.len() > 0 ==> calls.last().2 == Ok::<
            T,
            BoxError,
        >(entity)),
        Err(err) => calls.len() > 0 ==> calls.last().2 == Err::<T, BoxError>(err),
    }
}

/// Whether a handler whose history went from `before` to `after` took, in
/// between, an application of `events` that ended in `result`.
pub open spec fn applied_to<T, E>(
    result: Result<T, BoxError>,
    before: Seq<(T, E, Result<T, BoxError>)>,
    after: Seq<(T, E, Result<T, BoxError>)>,
    events: Seq<E>,
) -> bool {
    let calls = calls_since(before, after);
    &&& after == before + calls
    &&& is_application(calls, events)
    &&& ends_application(result, calls, events)
}

/// Whether a handler whose history went from `before` to `after` took, in
/// between, an application of `events` whose last aggregate was dropped: it
/// ended in `result`, which is success only after every event was handled,
/// and else the failure of the handler.
pub open spec fn applied_and_dropped<T, E>(
    result: Result<(), BoxError>,
    before: Seq<(T, E, Result<T, BoxError>)>,
    after: Seq<(T, E, Result<T, BoxError>)>,
    events: Seq<E>,
) -> bool {
    let calls = calls_since(before, after);
    &&& after == before + calls
    &&& is_application(calls, events)
    &&& match result {
        Ok(_) => calls.len() == events.len() && (calls.len() > 0 ==> calls.last().2 is Ok),
        Err(err) => calls.len() > 0 ==> calls.last().2 == Err::<T, BoxError>(err),
    }
}

/// Whether `result` is the result of an application `calls` of `events` that
/// began with `stored` persisted: the first call was handed `stored`, and
/// without any event the call succeeds with `stored` itself.
pub open spec fn is_applied_result<T, E>(
    result: Result<T, BoxError>,
    stored: T,
    calls: Seq<(T, E, Result<T, BoxError>)>,
    events: Seq<E>,
) -> bool {
    &&& ends_application(result, calls, events)
    &&& calls.len() > 0 ==> calls[0].0 == stored
    &&& match result {
        Ok(entity) => calls.len() == 0 ==> entity == stored,
        Err(_) => calls.len() > 0,
    }
}

/// What follows when `stored` has been persisted and `remaining` is still to
/// be handled: the first of the remaining events goes to the handler, and
/// where none remains the call succeeds with `stored`.
pub open spec fn follows<T, E>(step: Step<T, E>, stored: T, remaining: Seq<E>) -> bool {
    if remaining.len() == 0 {
        step == Step::<T, E>::Done(Ok(stored))
    } else {
        &&& step matches Step::Handle(event, rest)
        &&& event == remaining[0]
        &&& rest.stored() == stored
        &&& rest.remaining() == remaining.skip(1)
    }
}

/// The events of `events` in the opposite order.
fn reversed<E>(events: Vec<E>) -> (queue: Vec<E>)
    ensures
        queue@ == events@.reverse(),
{
    let mut events = events;
    let mut queue: Vec<E> = Vec::new();
    let ghost all = events@;
    while events.len() > 0
        invariant
            events@.len() <= all.len(),
            events@ == all.take(events@.len() as int),
            queue@ == all.skip(events@.len() as int).reverse(),
        decreases events@.len(),
    {
        let event = events.pop().unwrap();
        queue.push(event);
        assert(events@ =~= all.take(events@.len() as int));
        assert(queue@ =~= all.skip(events@.len() as int).reverse());
    }
    assert(all.skip(0) =~= all);
    queue
}

/// The step that follows for an aggregate and the events that remain.
fn next_step<T, E>(stored: T, queue: Vec<E>) -> (step: Step<T, E>)
    ensures
        follows(step, stored, queue@.reverse()),
{
    let mut queue = queue;
    let ghost remaining = queue@.reverse();
    match queue.pop() {
        Some(event) => {
            assert(queue@.reverse() =~= remaining.skip(1));
            Step::Handle(event, Delivery { stored, queue })
        },
        None => Step::Done(Ok(stored)),
    }
}

/// First step of persisting `entity`: its pending domain events are drained
/// before the store is called, so that they are the events registered
/// strictly before this call, and the store sees an aggregate with none.
///
/// Returns the aggregate to persist and the drained events, oldest first.
pub fn begin<T: AggregateRoot>(entity: T) -> (drained_entity: (T, Vec<T::DomainEvent>))
    ensures
        drained_entity.1@ == drained(entity.pending()),
        drained_entity.0.pending() == left_by_drain(entity.pending()),
        drained_entity.0.identity() == entity.identity(),
        drained_entity.0@ == entity@,
{
    let mut entity = entity;
    let events = entity.drain_domain_events();
    (entity, events)
}

/// What follows the answer of the store. A failure of the store ends the
/// call with that failure, and no event is handled. On success the drained
/// events go to the handler, oldest first.
pub fn after_store<T, E>(outcome: Result<T, BoxError>, events: Vec<E>) -> (step: Step<T, E>)
    ensures
        match outcome {
            Ok(stored) => follows(step, stored, events@) && step.upcoming() == events@,
            Err(err) => step == Step::<T, E>::Done(Err(err)),
        },
{
    match outcome {
        Ok(stored) => {
            let queue = reversed(events);
            assert(events@.reverse().reverse() =~= events@);
            let step = next_step(stored, queue);
            proof {
                lemma_follows_upcoming(step, stored, events@);
            }
            step
        },
        Err(err) => Step::Done(Err(err)),
    }
}

/// What follows the answer of the handler to the last event. A failure ends
/// the call with that failure: the remaining events are dropped, and what
/// was persisted stays persisted. On success the next event goes to the
/// handler.
pub fn after_handle<T, E>(outcome: Result<(), BoxError>, rest: Delivery<T, E>) -> (step: Step<
    T,
    E,
>)
    ensures
        match outcome {
            Ok(_) => follows(step, rest.stored(), rest.remaining()) && step.upcoming()
                == rest.remaining(),
            Err(err) => step == Step::<T, E>::Done(Err(err)),
        },
{
    match outcome {
        Ok(_) => {
            let ghost stored = rest.stored;
            let ghost remaining = rest.remaining();
            let step = next_step(rest.stored, rest.queue);
            proof {
                lemma_follows_upcoming(step, stored, remaining);
            }
            step
        },
        Err(err) => Step::Done(Err(err)),
    }
}

/// What follows the answer of a handler that was handed the aggregate
/// together with the last event, and hands the aggregate back. A failure
/// ends the call with that failure. On success the aggregate that came back
/// takes the place of the one before, and the next event goes to the handler.
pub fn after_apply<T, E>(outcome: Result<T, BoxError>, rest: Delivery<(), E>) -> (step: Step<T, E>)
    ensures
        match outcome {
            Ok(entity) => follows(step, entity, rest.remaining()) && step.upcoming()
                == rest.remaining(),
            Err(err) => step == Step::<T, E>::Done(Err(err)),
        },
{
    match outcome {
        Ok(entity) => {
            let ghost remaining = rest.remaining();
            let step = next_step(entity, rest.queue);
            proof {
                lemma_follows_upcoming(step, entity, remaining);
            }
            step
        },
        Err(err) => Step::Done(Err(err)),
    }
}

/// The events that reach the handler when `events` are to be handled and the
/// handler gives `answers`, one for each event that reaches it: every event
/// up to the first that it fails on, that one included.
pub open spec fn delivered<E>(events: Seq<E>, answers: Seq<Result<(), BoxError>>) -> Seq<E>
    decreases events.len(),
{
    if events.len() == 0 || answers.len() == 0 {
        Seq::empty()
    } else if answers[0] is Err {
        seq![events[0]]
    } else {
        seq![events[0]] + delivered(events.skip(1), answers.skip(1))
    }
}

/// The result of the call when `stored` was persisted, `events` are to be
/// handled and the handler gives `answers`: the first failure of the
/// handler, and `stored` where it fails on none.
pub open spec fn outcome_of<T, E>(
    stored: T,
    events: Seq<E>,
    answers: Seq<Result<(), BoxError>>,
) -> Result<T, BoxError>
    decreases events.len(),
{
    if events.len() == 0 || answers.len() == 0 {
        Ok(stored)
    } else if answers[0] is Err {
        Err(answers[0]->Err_0)
    } else {
        outcome_of(stored, events.skip(1), answers.skip(1))
    }
}

/// The handler sees the events in the order of their registration, none of
/// them twice and none left out before the last that it sees.
pub proof fn lemma_delivered_in_order<E>(events: Seq<E>, answers: Seq<Result<(), BoxError>>)
    ensures
        delivered(events, answers).len() <= events.len(),
        delivered(events, answers) == events.take(delivered(events, answers).len() as int),
    decreases events.len(),
{
    if events.len() == 0 || answers.len() == 0 {
        assert(events.take(0) =~= Seq::<E>::empty());
    } else if answers[0] is Err {
        assert(events.take(1) =~= seq![events[0]]);
    } else {
        lemma_delivered_in_order(events.skip(1), answers.skip(1));
        let rest = delivered(events.skip(1), answers.skip(1));
        assert(seq![events[0]] + events.skip(1).take(rest.len() as int) =~= events.take(
            1 + rest.len() as int,
        ));
    }
}

/// Where the handler fails on no event, it sees every event, and the call
/// succeeds with what was persisted.
pub proof fn lemma_all_handled<T, E>(stored: T, events: Seq<E>, answers: Seq<Result<(), BoxError>>)
    requires
        answers.len() == events.len(),
        forall|i: int| 0 <= i < answers.len() ==> answers[i] is Ok,
    ensures
        delivered(events, answers) == events,
        outcome_of(stored, events, answers) == Ok::<T, BoxError>(stored),
    decreases events.len(),
{
    if events.len() > 0 {
        lemma_all_handled(stored, events.skip(1), answers.skip(1));
        assert(seq![events[0]] + events.skip(1) =~= events);
    } else {
        assert(delivered(events, answers) =~= events);
    }
}

/// Where the handler first fails on the event at `failed`, it sees the
/// events up to that one and no later one, and the call fails with that
/// failure, though the aggregate has been persisted.
pub proof fn lemma_first_failure_ends_delivery<T, E>(
    stored: T,
    events: Seq<E>,
    answers: Seq<Result<(), BoxError>>,
    failed: int,
)
    requires
        0 <= failed < events.len(),
        failed < answers.len(),
        answers[failed] is Err,
        forall|i: int| 0 <= i < failed ==> answers[i] is Ok,
    ensures
        delivered(events, answers) == events.take(failed + 1),
        outcome_of(stored, events, answers) == Err::<T, BoxError>(answers[failed]->Err_0),
    decreases events.len(),
{
    if failed == 0 {
        assert(events.take(1) =~= seq![events[0]]);
    } else {
        lemma_first_failure_ends_delivery(stored, events.skip(1), answers.skip(1), failed - 1);
        assert(seq![events[0]] + events.skip(1).take(failed) =~= events.take(failed + 1));
    }
}

/// The events of `calls`, in their order.
pub open spec fn events_of<E>(calls: Seq<(E, Result<(), BoxError>)>) -> Seq<E> {
    calls.map_values(|call: (E, Result<(), BoxError>)| call.0)
}

/// The answers of `calls`, in their order.
pub open spec fn answers_of<E>(calls: Seq<(E, Result<(), BoxError>)>) -> Seq<Result<(), BoxError>> {
    calls.map_values(|call: (E, Result<(), BoxError>)| call.1)
}

/// A delivery is decided by the answers of the handler: it is handed the
/// events in the order of their registration, up to the first that it fails
/// on, and the call ends with that failure, or with what was persisted where
/// the handler fails on no event.
pub proof fn lemma_delivery_follows_answers<T, E>(
    result: Result<T, BoxError>,
    stored: T,
    calls: Seq<(E, Result<(), BoxError>)>,
    events: Seq<E>,
)
    requires
        is_delivery(calls, events),
        is_result_of(result, stored, calls, events),
    ensures
        events_of(calls) == events.take(calls.len() as int),
        events_of(calls) == delivered(events, answers_of(calls)),
        result == outcome_of(stored, events, answers_of(calls)),
{
    let answers = answers_of(calls);
    assert(events_of(calls) =~= events.take(calls.len() as int));
    match result {
        Ok(_) => {
            assert forall|i: int| 0 <= i < answers.len() implies answers[i] is Ok by {
                if i < calls.len() - 1 {
                    assert(calls[i].1 is Ok);
                } else {
                    assert(calls[i] == calls.last());
                }
            }
            lemma_all_handled(stored, events, answers);
            assert(events.take(events.len() as int) =~= events);
        },
        Err(err) => {
            let failed = calls.len() - 1;
            assert(answers[failed] == calls.last().1);
            assert forall|i: int| 0 <= i < failed implies answers[i] is Ok by {
                assert(calls[i].1 is Ok);
            }
            lemma_first_failure_ends_delivery(stored, events, answers, failed);
        },
    }
}

} // verus!
