use ddd_rs::domain::value_object::{order_components, same_components};
use ddd_rs::domain::{
    Aggregate, AggregateRoot, AggregateRootEx, DomainEvent, Entity, Timestamp, UnitDomainEvent,
    ValueObject, ValueOrder,
};

type Note = Aggregate<&'static str, u32>;

#[derive(Clone, Debug)]
struct Money {
    currency: i64,
    amount: i64,
    memo: String,
}

impl ValueObject for Money {
    // The model of the components is ghost: compiled code never asks for it.
    fn components(&self) -> vstd::seq::Seq<i64> {
        unreachable!()
    }

    fn equality_components(&self) -> Vec<i64> {
        vec![self.currency, self.amount]
    }

    fn clone_keeps_components(_source: Self, _copy: Self) {}
}

#[test]
fn entities_with_equal_identity_are_equal() {
    let a = Note::new(1, "foo");
    let b = Note::new(1, "bar");
    assert!(a == b);
    assert_eq!(a.id(), b.id());
    assert!(a.same_entity(&b));
    assert_ne!(a.state(), b.state());
}

#[test]
fn entities_with_different_identity_differ() {
    let a = Note::new(1, "foo");
    let c = Note::new(2, "foo");
    assert!(a != c);
    assert_ne!(a.id(), c.id());
    assert!(!a.same_entity(&c));
}

#[test]
fn identity_survives_a_change_of_state() {
    let mut a = Note::new(7, "foo");
    let before = a.clone();
    a.set_state("bar");
    assert_eq!(a.id(), 7);
    assert_eq!(a.state(), "bar");
    assert!(a == before);
    assert_eq!(before.state(), "foo");
}

#[test]
fn new_aggregate_has_no_pending_event() {
    let mut a = Note::new(1, "foo");
    assert_eq!(a.pending_len(), 0);
    assert!(a.drain_domain_events().is_empty());
}

#[test]
fn drain_returns_events_in_registration_order() {
    let mut a = Note::new(1, "foo");
    a.register_domain_event(10);
    a.register_domain_event(20);
    a.register_domain_event(30);
    assert_eq!(a.pending_len(), 3);
    assert_eq!(a.drain_domain_events(), vec![10, 20, 30]);
}

#[test]
fn second_drain_is_empty() {
    let mut a = Note::new(1, "foo");
    a.register_domain_event(10);
    a.register_domain_event(20);
    assert_eq!(a.drain_domain_events().len(), 2);
    assert!(a.drain_domain_events().is_empty());
    assert_eq!(a.pending_len(), 0);
}

#[test]
fn drain_leaves_identity_and_state() {
    let mut a = Note::new(5, "foo");
    a.register_domain_event(1);
    a.drain_domain_events();
    assert_eq!(a.id(), 5);
    assert_eq!(a.state(), "foo");
}

#[test]
fn registration_after_a_drain_starts_anew() {
    let mut a = Note::new(1, "foo");
    a.register_domain_event(1);
    a.drain_domain_events();
    a.register_domain_event(2);
    assert_eq!(a.drain_domain_events(), vec![2]);
}

#[test]
fn take_domain_events_drains_in_order() {
    let mut a = Note::new(1, "foo");
    a.register_domain_event(3);
    a.register_domain_event(4);
    assert_eq!(a.take_domain_events(), vec![3, 4]);
    assert!(a.take_domain_events().is_empty());
}

#[test]
fn clone_keeps_identity_state_and_events() {
    let mut a = Note::new(9, "foo");
    a.register_domain_event(1);
    a.register_domain_event(2);
    let mut b = a.clone();
    assert_eq!(b.id(), 9);
    assert_eq!(b.state(), "foo");
    assert_eq!(b.drain_domain_events(), vec![1, 2]);
    assert_eq!(a.pending_len(), 2);
}

#[test]
fn unit_domain_event_has_the_nil_identifier() {
    assert_eq!(UnitDomainEvent.id(), 0);
    assert_eq!(UnitDomainEvent.id(), uuid::Uuid::nil().as_u128());
}

#[test]
fn unit_domain_event_happened_at_the_epoch() {
    let at = UnitDomainEvent.at();
    assert_eq!(at, Timestamp { seconds: 0, nanoseconds: 0 });
    let epoch = chrono::DateTime::<chrono::Utc>::UNIX_EPOCH;
    assert_eq!(at.seconds, epoch.timestamp());
    assert_eq!(at.nanoseconds, epoch.timestamp_subsec_nanos());
}

#[test]
fn value_objects_are_equal_by_their_components() {
    let a = Money { currency: 1, amount: 42, memo: String::from("rent") };
    let b = Money { currency: 1, amount: 42, memo: String::from("groceries") };
    let c = Money { currency: 2, amount: 42, memo: String::from("rent") };
    assert!(a.same_value(&b));
    assert!(!a.same_value(&c));
}

#[test]
fn changing_a_carried_field_keeps_equality_with_a_clone() {
    let mut a = Money { currency: 1, amount: 42, memo: String::from("rent") };
    let copy = a.clone();
    a.memo = String::from("changed");
    assert!(a.same_value(&copy));
    assert_eq!(copy.memo, "rent");
    a.amount = 43;
    assert!(!a.same_value(&copy));
}

#[test]
fn value_objects_are_ordered_by_the_first_component_that_differs() {
    let a = Money { currency: 1, amount: 42, memo: String::new() };
    let b = Money { currency: 1, amount: 43, memo: String::new() };
    let c = Money { currency: 2, amount: 0, memo: String::new() };
    assert_eq!(a.value_order(&b), ValueOrder::Less);
    assert_eq!(b.value_order(&a), ValueOrder::Greater);
    assert_eq!(b.value_order(&c), ValueOrder::Less);
    assert_eq!(c.value_order(&a), ValueOrder::Greater);
    assert_eq!(a.value_order(&a.clone()), ValueOrder::Equal);
}

#[test]
fn same_components_compares_whole_lists() {
    assert!(same_components(&vec![], &vec![]));
    assert!(same_components(&vec![1, -2, 3], &vec![1, -2, 3]));
    assert!(!same_components(&vec![1, 2, 3], &vec![1, 2, 4]));
    assert!(!same_components(&vec![1, 2], &vec![1, 2, 3]));
    assert!(!same_components(&vec![1, 2, 3], &vec![1, 2]));
}

#[test]
fn order_components_is_lexicographic() {
    assert_eq!(order_components(&vec![], &vec![]), ValueOrder::Equal);
    assert_eq!(order_components(&vec![], &vec![0]), ValueOrder::Less);
    assert_eq!(order_components(&vec![0], &vec![]), ValueOrder::Greater);
    assert_eq!(order_components(&vec![1, 9], &vec![2, 0]), ValueOrder::Less);
    assert_eq!(order_components(&vec![1, 2, 3], &vec![1, 2, 3]), ValueOrder::Equal);
    assert_eq!(order_components(&vec![1, 2, 4], &vec![1, 2, 3]), ValueOrder::Greater);
    assert_eq!(order_components(&vec![1, 2], &vec![1, 2, i64::MIN]), ValueOrder::Less);
    assert_eq!(order_components(&vec![i64::MIN], &vec![i64::MAX]), ValueOrder::Less);
}
