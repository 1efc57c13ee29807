//! A small dictionary compressor: bytes are stored once in an append-only
//! buffer, and the input is rewritten as a list of references into it.

pub mod component;
pub mod model;
pub mod gzipped;
pub mod laws;

pub use component::{decode_component, DecodeError, GzipComponent};
pub use gzipped::Gzipped;
