//! The message bus that chains the layers of the architecture.
pub mod message_bus;
