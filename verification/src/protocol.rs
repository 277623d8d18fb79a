//! RESP framing: values, the decoder and the encoder.

pub mod client;
pub mod decoder;
pub mod encoder;
pub mod resp;
pub mod roundtrip;
