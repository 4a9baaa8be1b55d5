//! Receiving side of a length-prefixed, typed message protocol for chunked
//! resource transfer: payload codecs, message framing and the incremental
//! stream decoder.

pub mod big_endian;
pub mod buffer;
pub mod controller;
pub mod decoder_laws;
pub mod error;
pub mod ident;
pub mod object;
pub mod request;
pub mod serialization;
pub mod text;
