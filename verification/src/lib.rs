//! An in-memory columnar array library with a serialized on-disk file format.
//!
//! Arrays are typed sequences of possibly-null values. Each array carries an
//! encoding that determines its physical representation: a canonical
//! (buffer-backed) layout, or a lightweight compressed form such as sparse
//! patches or run-length runs. Compute operations (`scalar_at`, `slice`,
//! `take`, `flatten`, `filter`, `search_sorted`) are specified against a
//! single logical model: the sequence of element values an array denotes.

use vstd::prelude::*;

pub mod array;
pub mod arrow;
pub mod builder;
pub mod codec;
pub mod compute;
pub mod construct;
pub mod dtype;
pub mod encoding;
pub mod error;
pub mod expr;
pub mod file;
pub mod flatten;
pub mod footer;
pub mod gather;
pub mod laws;
pub mod roaring;
pub mod scalar;
pub mod search_sorted;
pub mod slice;
pub mod sparse;
pub mod stats;
pub mod validity;
pub mod varbinview;

verus! {

/// The file format version written into every end-of-file marker.
pub const VERSION: u16 = 1;

/// The size in bytes of the serialized postscript this version writes.
pub const V1_FOOTER_FBS_SIZE: usize = 32;

} // verus!
