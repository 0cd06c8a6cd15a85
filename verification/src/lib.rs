//! Reading e-mail messages out of compound-file containers.
//!
//! [`Email::from_bytes`] reads a whole message, with the messages embedded in
//! it, into an owned value. [`MsgReader`] reads one property at a time and
//! says why a property could not be read.

pub mod codec;
pub mod container;
pub mod date;
pub mod error;
pub mod fields;
pub mod message;
pub mod property;
pub mod reader;
pub mod roles;
pub mod rtf;
pub mod text;

pub use crate::date::Timestamp;
pub use crate::error::MsgError;
pub use crate::message::{Attachment, Email};
pub use crate::reader::MsgReader;
