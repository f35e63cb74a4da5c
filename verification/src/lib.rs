//! Structural difference of two tree-shaped documents, emitted as an ordered
//! list of `add` / `remove` / `replace` operations addressed by `/`-joined
//! hierarchical paths.
//!
//! [`value`] holds the document model, [`patch`] the operation records,
//! [`paths`] the path construction, [`compare`] the comparison itself, and
//! [`laws`] the proved properties of the comparison.

pub mod compare;
pub mod laws;
pub mod patch;
pub mod paths;
pub mod value;
