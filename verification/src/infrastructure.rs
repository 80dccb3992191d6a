//! Infrastructure layer: the in-memory repository and the repository that
//! dispatches domain events.
pub mod domain;
pub mod in_memory;

pub use domain::DomainRepository;
pub use in_memory::InMemoryRepository;
