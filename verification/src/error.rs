//! The error taxonomy of the storage core.
//!
//! Absence of a key is never an error: lookups return `Ok(None)`. `Codec`
//! marks a slice that failed to decode as the addressed type; `Corruption`
//! marks an index that references a byte range its buffer cannot support, or
//! a stored record with an impossible shape (a scalar of the wrong width, a
//! hash that is not 32 bytes, a location that is not 16 bytes).

use vstd::prelude::*;

verus! {

#[derive(Clone, Copy, Debug, PartialEq, Eq, Structural)]
pub enum Error {
    /// Decoding a byte slice as the addressed type failed.
    Codec,
    /// A stored index or record is inconsistent with the data it describes.
    Corruption,
}

} // verus!
