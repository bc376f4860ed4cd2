//! Decoder for the NCM audio container.
//!
//! A container wraps an audio stream together with its metadata and its
//! cover image. It begins with ten header bytes; then come the key block,
//! the metadata block, nine bytes that are not interpreted, and the image
//! block, each behind a length field of four bytes; the audio payload takes
//! the rest of the source.
//!
//! - [`reader`] holds the source in memory.
//! - [`ncmdump`] reads the layout and extracts the sections.
//! - [`decrypt`] holds the ciphers: AES-128 for the key block and the
//!   metadata block, a keystream for the audio payload.
//! - [`info`] decodes the metadata block into a record, and [`json`] holds
//!   the JSON values that the record is read from.
//! - [`error`] names the failures.

pub mod decrypt;
pub mod error;
pub mod info;
pub mod json;
pub mod ncmdump;
pub mod reader;

pub use crate::error::Errors;
pub use crate::info::NcmInfo;
pub use crate::ncmdump::Ncmdump;
pub use crate::reader::Reader;
