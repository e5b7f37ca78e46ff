//! The errors of the tile pipeline.

use vstd::prelude::*;

verus! {

/// Why a tile could not be delivered.
#[derive(Debug, Clone, Copy, PartialEq, Eq, Structural)]
pub enum FetchError {
    /// The request did not reach the server, or no answer came back.
    NetworkFailure,
    /// The server answered with a status other than 200 and 429.
    HttpStatus(u16),
    /// The bytes of the tile could not be decoded.
    DecodeFailure,
}

/// The payload of a vector tile is malformed.
#[derive(Debug, Clone, Copy, PartialEq, Eq, Structural)]
pub struct VectorDecodeError;

} // verus!
