//! Presentation layer: what is handed back to the caller of a request.
pub mod notification;
pub mod request;
pub mod result;

pub use notification::Notification;
pub use request::Request;
pub use result::{Error, ValidationError};
