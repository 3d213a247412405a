//! A decoding engine for a tag-discriminated binary wire protocol.

pub mod cursor;
pub mod decode;
pub mod derive;
pub mod error;
pub mod message;
pub mod schema;
pub mod theorems;
pub mod value;
pub mod varint;
