//! An event-driven connection-multiplexing core: a connection registry and
//! per-connection I/O state machine for a non-blocking TCP server driven by
//! an edge-triggered readiness poller, together with the small verified
//! utilities that live beside it (line search, greatest common divisor,
//! editor cursor movement, argument parsing).

pub mod cmd;
pub mod editor;
pub mod gcd;
pub mod message;
pub mod reactor;
pub mod search;
