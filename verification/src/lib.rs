//! Listener core for a Solana event stream: backoff policy, frame
//! classification, event extraction, session and supervisor state machines,
//! and the newline-delimited record format of the durable log.

pub mod backoff;
pub mod clock;
pub mod config;
pub mod event;
pub mod json;
pub mod metrics;
pub mod notifier;
pub mod roundtrip;
pub mod rpc;
pub mod storage;
pub mod text;
