//! A real-time broadcast hub: a binary message envelope, a client registry
//! with bounded per-client outbound queues, a per-connection state machine and
//! a rate-limited broadcast scheduler.

pub mod envelope;
pub mod registry;
pub mod connection;
pub mod scheduler;
pub mod oauth;
pub mod trading;
