//! Verified core of the MCP server manager and the hook dispatch policies.

pub mod text;
pub mod model;
pub mod naming;
pub mod strmap;
pub mod json;
pub mod client;
pub mod manager;
pub mod rpc;
pub mod sorting;
pub mod stdio;
pub mod hooks;
pub mod render;
