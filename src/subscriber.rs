use vstd::prelude::*;
use crate::event::Event;

verus! {

/// A listener subscribed to a topic of an [`crate::EventBus`].
///
/// Each stage receives the event being dispatched and returns `Ok` or a
/// human-readable failure message. Every stage by default does nothing and
/// succeeds.
pub trait Subscriber: Sized {
    /// Runs before the main stage; may rewrite the event.
    fn on_before(&mut self, event: &mut Event) -> (r: Result<(), String>)
        default_ensures
            r is Ok,
            *final(event) == *old(event),
            *final(self) == *old(self),
    {
        Ok(())
    }

    /// The main stage; may rewrite the event.
    fn on_event(&mut self, event: &mut Event) -> (r: Result<(), String>)
        default_ensures
            r is Ok,
            *final(event) == *old(event),
            *final(self) == *old(self),
    {
        Ok(())
    }

    /// Runs after the main stage, with read-only access to the event.
    fn on_after(&self, event: &Event) -> (r: Result<(), String>)
        default_ensures
            r is Ok,
    {
        Ok(())
    }
}

} // verus!
