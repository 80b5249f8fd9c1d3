use vstd::prelude::*;

verus! {

/// Why a protocol step failed.
#[derive(Debug, Clone, Copy, PartialEq, Eq, Structural)]
pub enum OtError {
    /// The channel ran short of bytes.
    Io,
    /// A curve point or a packed vector did not decode.
    InvalidEncoding,
    /// An argument broke a documented constraint.
    InvalidInput,
    /// AES could not be set up, or a ciphertext did not unpad.
    Crypto,
}

} // verus!
