//! Event publishing pipeline for a music-player plugin: a producer hands
//! payloads to a worker over an ordered channel; the worker serializes each
//! event to canonical JSON, signs the body with HMAC-SHA256, posts it to a
//! configured HTTP collector, retries failed deliveries with linear backoff,
//! keeps a backlog of events that exhausted their retries, and drains that
//! backlog once at shutdown.
//!
//! This crate holds the verified core: the event model, the JSON wire format,
//! the signer, and the worker state machine. The I/O shell (channel, HTTP,
//! sleeping, host bindings) lives outside and drives the state machine.
pub mod event;
pub mod json;
pub mod laws;
pub mod publisher;
pub mod signer;
pub mod track;
