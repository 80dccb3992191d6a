//! Domain-Driven Design building blocks with machine-checked contracts.
//!
//! - [`domain`]: entities, aggregate roots, domain events and value objects.
//! - [`application`]: repositories and handlers.
//! - [`infrastructure`]: the in-memory repository and the repositories that
//!   dispatch domain events.
//! - [`presentation`]: the error taxonomy handed to callers.
pub mod application;
pub mod domain;
pub mod error;
pub mod infrastructure;
pub mod presentation;

pub use error::BoxError;
