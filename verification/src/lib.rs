//! Decision logic of an agent bridge: control-plane correlation, command
//! parsing and rendering, permission gating, admission, lease heartbeats and
//! the adapters that speak JSON-RPC to coding agents.
//!
//! Everything here works on plain values. Sockets, clocks, processes and files
//! belong to the program around the library.

pub mod acp;
pub mod adapter;
pub mod admission;
pub mod agent_lease_heartbeat;
pub mod agent_lease_heartbeat_compose;
pub mod agy;
pub mod autonomous_ingress;
pub mod commands;
pub mod completion_bridge;
pub mod config;
pub mod control_plane;
pub mod digest;
pub mod encoding;
pub mod ids;
pub mod json;
pub mod labels;
pub mod ollama;
pub mod paths;
pub mod proto;
pub mod retry;
pub mod seqs;
pub mod table;
pub mod text;
pub mod value;
