//! A line-oriented file service: command parsing, replies, per-connection
//! session steps and the admission control that caps the active handlers.

pub mod admission;
pub mod laws;
pub mod protocol;
pub mod session;
pub mod text;
