//! Decoding of a TLS client's first flight: record deframing, handshake
//! reassembly, ClientHello and extension decoding, and the report built
//! from the result.

pub mod wire;
pub mod record;
pub mod handshake;
pub mod extension;
pub mod hello;
pub mod probe;
pub mod report;
pub mod laws;
