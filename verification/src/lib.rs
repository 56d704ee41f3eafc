//! Core of a connection gateway: a session registry that tracks live and
//! verified transport sessions, an event dispatcher that turns raw transport
//! events into registry updates and handler invocations, a service locator
//! for singleton business services, and the gateway shell state machine.
//!
//! Transport I/O, async scheduling and logging live outside this crate; the
//! library holds the data structures and decision logic, each function with
//! a contract.

pub mod config;
pub mod container;
pub mod gate_server;
pub mod handlers;
pub mod manager;
pub mod server;
pub mod service;
