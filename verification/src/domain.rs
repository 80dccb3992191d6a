//! Domain layer: entities, aggregate roots, domain events and value objects.
pub mod aggregate;
pub mod aggregate_root;
pub mod domain_event;
pub mod entity;
pub mod value_object;

pub use aggregate::{Aggregate, AggregateView};
pub use aggregate_root::{AggregateRoot, AggregateRootEx};
pub use domain_event::{DomainEvent, Timestamp, UnitDomainEvent};
pub use entity::Entity;
pub use value_object::{ValueObject, ValueOrder};
