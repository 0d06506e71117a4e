use vstd::prelude::*;

verus! {

/// The ways an embedding or extraction call can fail. Every failure is
/// terminal for the call that raised it; nothing is retried internally.
#[derive(Clone, Copy, Debug, PartialEq, Eq, Structural)]
pub enum StegoError {
    /// The key is not exactly 16 bytes long.
    InvalidKeyLength,
    /// A block handed to the block cipher is not exactly 16 bytes long.
    InvalidBlockSize,
    /// The ciphertext is empty or its length is not a multiple of 16.
    InvalidCiphertextLength,
    /// The padding indicator of a decrypted buffer is malformed.
    InvalidPadding,
    /// The carrier cannot hold the ciphertext at eight carrier bytes per
    /// payload byte.
    CarrierTooSmall,
    /// Extraction was attempted without an offset or a ciphertext length.
    MissingOffsetOrLength,
}

} // verus!
