//! A metrics-ingestion relay core: frames of metric samples are decoded,
//! stamped with the sender's identity and fanned out to a local histogram
//! relay and an authoritative remote-write forwarder.
pub mod enrich;
pub mod frame;
pub mod peer;
pub mod pipeline;
pub mod sample;
pub mod wire;
