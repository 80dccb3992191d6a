use crate::error::BoxError;
use crate::presentation::notification::Notification;
use vstd::prelude::*;

verus! {

/// A handler of notifications.
pub trait NotificationHandler<N: Notification> {
    /// Handles the incoming notification.
    fn handle(&mut self, notification: N) -> Result<(), BoxError>;
}

} // verus!
