//! Event notification channel, kept for callers to implement.

use vstd::prelude::*;

verus! {

/// A channel that can carry a short notification message.
pub trait Notifier {
    /// Deliver one message; an error text when the channel failed.
    fn notify(&self, message: &str) -> Result<(), String>;
}

/// A notifier that drops every message.
pub struct StubNotifier;

impl Notifier for StubNotifier {
    fn notify(&self, _message: &str) -> Result<(), String> {
        Ok(())
    }
}

} // verus!
