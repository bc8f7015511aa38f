//! A line-oriented chat server core: the session registry, the command
//! grammar, the per-connection registration state machine and the
//! server-side extensions, all as functions from values to values.

pub mod dispatch;
pub mod laws;
pub mod message;
pub mod model;
pub mod plugin;
pub mod reader;
pub mod registry;
pub mod reply;
pub mod text;
