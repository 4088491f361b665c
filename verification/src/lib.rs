//! Network synchronisation layer of a small client/server game: transports,
//! the entity broadcast protocol, and round-trip latency compensation.

pub mod err;
pub mod colors;
pub mod input;
pub mod component;
pub mod context;
pub mod ecs;
pub mod records;
pub mod network;
pub mod system;
