//! Decision engine of a transport-level reverse proxy and load balancer.
//!
//! The crate holds the rules by which inbound connections are assigned to
//! backends, relayed, retried and shut down. It performs no I/O itself: every
//! component is a state machine that is handed events and answers with the
//! action its driver has to carry out.

pub mod config;
pub mod discover;
pub mod dispatch;
pub mod display;
pub mod error;
pub mod fallback;
pub mod laws;
pub mod listener;
pub mod load;
pub mod proxy;
pub mod random;
pub mod registry;
pub mod retry;
pub mod select;
pub mod target;
