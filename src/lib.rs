//! Host-monitoring dashboard: the framed wire transport, the message schema,
//! the hub's per-agent request multiplexer with its short-lived response cache,
//! the registry of connected agents, and the agent's sampling rules.

pub mod frame;
pub mod proto;
pub mod cache;
pub mod mux;
pub mod registry;
pub mod hub;
pub mod agent;
pub mod web;
