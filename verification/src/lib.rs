//! Asset-cataloguing library: pairing of archive and preview files by
//! case-insensitive stem, asset-record construction and its JSON sidecar
//! format, square-thumbnail geometry, and the modification-time freshness
//! rule of the thumbnail cache.

pub mod paths;
pub mod text;
pub mod geometry;
pub mod json;
pub mod codec;
pub mod pairing;
pub mod thumbs;
pub mod builder;
pub mod scan;
pub mod types;

use vstd::prelude::*;

verus! {

} // verus!
