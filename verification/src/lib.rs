//! A zero-copy decoder for the AUTOSAR Diagnostic Log and Trace (DLT)
//! wire format, release R20-11.
//!
//! A DLT file is a concatenation of messages, each prefixed by a 16-byte
//! storage header.  [`DltFile`] walks such a buffer and yields one decoded
//! [`DltMessage`] per step, resynchronizing on the `"DLT\x01"` magic when a
//! message is malformed.  All textual fields of a decoded message borrow
//! from the input buffer; nothing is copied on the success path.

pub mod error;
pub mod filter;
pub mod file;
pub mod header;
pub mod message;
pub mod payload;
pub mod wire;

pub use file::DltFile;
pub use message::DltMessage;
