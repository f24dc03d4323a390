//! A canonical, content-addressable document model.
//!
//! A document is a [`Field`]: a map from text keys to documents, a text, a
//! signed or unsigned 64-bit integer, a boolean, a byte string or a list of
//! documents. Every document has a SHA-256 digest that depends on its content
//! alone, and a rendering as JSON text.

pub mod order;
pub mod doc;
pub mod field;
pub mod hash;
pub mod json;
pub mod codec;
pub mod convert;
pub mod reflect;
pub mod metadata;
pub mod sample;

pub use crate::codec::{from_json, to_json, DecodeError, EncodeError};
pub use crate::field::{Field, FieldMap};
