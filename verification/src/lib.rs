//! A deterministic HTTP record/replay proxy core.
//!
//! In capture mode the proxy forwards each request upstream and records the
//! request/response pair; in replay mode it answers from a recorded cassette,
//! verifying that each incoming request matches the next recorded exchange.
//! This crate holds the verified core: the exchange data model, the cassette
//! codec, the cassette state, the matching engine, and the teardown logic.
//! The network and file plumbing around it lives outside the library.

pub mod cassette;
pub mod codec;
pub mod engine;
pub mod lifecycle;
pub mod paths;
pub mod proxy;
pub mod types;

pub use types::Exchange;
pub use types::Request;
pub use types::Response;
