//! A broadcast relay for chat connections: a registry of connected names, a
//! mailbox per connection, and the fan-out of events to every mailbox.

pub mod codec;
pub mod json;
pub mod mailbox;
pub mod registry;
pub mod relay;
pub mod session;
