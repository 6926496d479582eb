//! A host-telemetry library: parsers for the kernel's CPU, uptime and
//! identity counter sources, the CPU-load delta estimator, and the
//! command dispatcher that turns client commands into JSON snapshots.
//!
//! All I/O (reading the counter files, running the configuration command,
//! and the socket transport) lives outside this crate; the functions here
//! work on plain bytes and integers and are verified.

pub mod cpu_identity;
pub mod cpu_stat;
pub mod json;
pub mod session;
pub mod text;
pub mod uptime;
