//! Application layer: repositories and handlers.
pub mod dispatch;
pub mod domain_event_handler;
pub mod notification_handler;
pub mod repository;
pub mod repository_ex;
pub mod request_handler;
pub mod service;

pub use domain_event_handler::DomainEventHandler;
pub use notification_handler::NotificationHandler;
pub use repository::{ReadRepository, Repository};
pub use repository_ex::RepositoryEx;
pub use request_handler::RequestHandler;
pub use service::{Command, Request};
