//! Business services: stub collaborators reached through the service
//! locator. They contribute no algorithmic design; the gateway core only
//! guarantees how they are registered and resolved.

pub mod chat;
pub mod user;
