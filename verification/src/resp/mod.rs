//! The wire codec: values of a small recursive grammar and their byte-serial
//! form, byte-compatible with the classical REdis Serialization Protocol.

pub mod decode;
pub mod encode;
pub mod grammar;
pub mod laws;
pub mod value;

pub use value::{well_formed, DecodeError, RespModel, RespValue};
