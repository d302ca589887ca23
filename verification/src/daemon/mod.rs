//! The daemon: what it answers to each request.

pub mod ignored;
pub mod lifecycle;
pub mod quest;
pub mod server;
pub mod status;
pub mod values;
