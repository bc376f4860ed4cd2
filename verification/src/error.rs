//! The ways in which decoding a container fails.

use vstd::prelude::*;

verus! {

/// Why a container could not be opened or one of its sections not decoded.
#[derive(Clone, Copy, Debug, PartialEq, Eq, Structural)]
pub enum Errors {
    /// The source does not begin with the ten header bytes of a container.
    InvalidFileType,
    /// The source ends before the length field of the key block does.
    InvalidKeyLength,
    /// The source ends before the length field of the metadata block does.
    InvalidInfoLength,
    /// The source ends before the length field of the image block does.
    InvalidImageLength,
    /// The metadata block does not decode to a metadata record.
    InfoDecodeError,
    /// The block cipher rejects the ciphertext, or the key it yields is unusable.
    DecryptError,
    /// A section reaches past the end of the source.
    UnexpectedEof,
    /// A length field was not handed over as exactly four bytes.
    InvalidLengthField,
}

} // verus!
