use vstd::prelude::*;

verus! {

/// Why a request to store a chunk failed.
///
/// A key that the registry reports as unavailable is no failure: it is
/// answered with a rejection of its own.
#[derive(Clone, Copy, Debug, PartialEq, Eq, Structural)]
pub enum UploadError {
    /// The registry could not say whether the key is available.
    RegistryError,
    /// The text of an index part is no unsigned 32-bit decimal number.
    MalformedChunkIndex,
    /// Creating the container or writing the chunk failed.
    StorageIOError,
}

} // verus!
