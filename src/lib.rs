//! A small line-oriented chat client core: the wire codec, the local
//! command parser, the per-session channel state and the router that
//! turns commands and server lines into outbound wire lines.
pub mod text;
pub mod codec;
pub mod command;
pub mod session;
pub mod engine;
pub mod config;
