//! Port-forwarding tunnel multiplexer of a device-debugging bridge: rule
//! parsing, message framing, the connection and rule stores, the live-handle
//! registries and the handshake state machine, each with its contract.

pub mod context;
pub mod dispatch;
pub mod info;
pub mod logger;
pub mod protocol;
pub mod registry;
pub mod rule;
pub mod task;
pub mod text;
pub mod uart;
