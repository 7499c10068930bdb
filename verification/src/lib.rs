//! Control-plane library for a small local device-control daemon.
//!
//! The daemon accepts typed requests over a local socket, runs short-lived
//! external utilities to read or mutate system state, interprets their
//! line-oriented text output, and always answers with a typed response.
//! This crate holds everything that can be stated and proved: the message
//! types and their wire framing, the command pipelines each operation runs,
//! the interpretation of captured output, and the "never fail, always
//! default" response policy. The unverified daemon binary around it only
//! moves bytes: it owns the socket, spawns the processes, and hands their
//! output back to the verified handlers.

pub mod codec;
pub mod pipeline;
pub mod rpc;
pub mod ssh;
pub mod text;
pub mod wifi;
