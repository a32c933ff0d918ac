//! A process-supervision control plane for an init system: the service
//! descriptor model and its on-disk codec, the in-memory service registry
//! with its pid-index, the supervisor's launch/stop/reap bookkeeping, the
//! control socket's line protocol, and the service naming rule.

pub mod codec;
pub mod config;
pub mod naming;
pub mod protocol;
pub mod registry;
pub mod supervisor;
