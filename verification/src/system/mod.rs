//! The systems: each one rule of the game, run once per frame.

pub mod client;
pub mod gorilla;
pub mod inputs;
pub mod keyboard;
pub mod messages;
pub mod physics;
pub mod server;
pub mod teardown;
