//! Where in a serialized asset a block of interest lies.

use vstd::prelude::*;

verus! {

/// What a reported byte range holds.
#[derive(Clone, Copy, Debug, PartialEq, Eq, Structural)]
pub enum HashBlockObjectType {
    /// The provenance manifest.
    Cai,
    /// XMP metadata.
    Xmp,
    /// Anything else.
    Other,
}

/// A byte range of a serialized asset, to be left out when the asset's
/// content is hashed.
#[derive(Clone, Copy, Debug, PartialEq, Eq, Structural)]
pub struct HashObjectPositions {
    /// Index of the range's first byte.
    pub offset: usize,
    /// Number of bytes in the range.
    pub length: usize,
    /// What the range holds.
    pub htype: HashBlockObjectType,
}

} // verus!
