//! The failures a caller can be handed.

use vstd::prelude::*;

verus! {

/// What went wrong while building or reading a container.
#[derive(Clone, Copy, Debug, PartialEq, Eq, Structural)]
pub enum RfsError {
    /// The header is truncated or malformed, a record does not start with the
    /// magic tag, or a node's byte range lies outside the image.
    Format,
    /// The cipher refused the input: bad padding, a ciphertext that is not a
    /// whole number of blocks, or a failure inside the cipher itself.
    Crypto,
    /// The decrypted content does not hash to the stored checksum.
    IntegrityMismatch,
}

} // verus!
