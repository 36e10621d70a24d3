//! An in-process publish/subscribe dispatcher.
//!
//! Producers queue typed payloads under named topics; listeners subscribed to a
//! topic receive a three-stage callback (before, event, after) when the bus is
//! published.

pub mod event;
pub mod event_bus;
pub mod subscriber;

pub use event::{Event, Kind, Payload, Value};
pub use event_bus::EventBus;
pub use subscriber::Subscriber;
