//! A minimal socket-based request/response service framework.
//!
//! The verified core covers the route-table semantics, the two request
//! parsing strategies, the length-prefixed wire framing, the worker-pool
//! queue discipline, and the level-gated debug sink. The socket plumbing
//! that drives these pieces lives outside the library.

pub mod cfg;
pub mod exception;
pub mod frame;
pub mod internal;
pub mod registerable;
pub mod server;
