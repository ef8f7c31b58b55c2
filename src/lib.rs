//! Core of an in-process diagnostics server: a path sandbox, a virtual
//! directory listing over bundled assets and the live filesystem, chunked
//! byte streaming, and the command aggregator that fans telemetry out to
//! subscribed observers.
pub mod aggregator;
pub mod broadcaster;
pub mod lifecycle;
pub mod sandbox;
pub mod sources;
pub mod wire;
