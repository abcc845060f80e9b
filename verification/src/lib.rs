//! Verified core of a small host-telemetry service.
//!
//! The library holds the logic of the service: metric percentages with a
//! zero-total guard, the top-of-list process ordering, file-listing order and
//! the path-traversal guard, service-status classification, and the stateless
//! authentication layer (credential check, token issuance, bearer-token
//! verification). All I/O — the HTTP router, the OS metrics probe, the
//! credential store — lives outside and hands the library plain values.

pub mod auth;
pub mod files;
pub mod metrics;
pub mod procs;
pub mod services;
