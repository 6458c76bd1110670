//! Detection of CPU SIMD intrinsics in source text.
//!
//! The library is a pure detection engine.  A reference catalog describes
//! every known intrinsic (name, call signature, required CPU feature flags,
//! description, and operational pseudocode).  Given raw source text, the
//! engine strips C-style comments, finds which catalog names occur in the
//! remaining text, and folds the per-file results into one deduplicated set
//! of intrinsics and one deduplicated set of required CPU feature flags.
//!
//! File discovery, reading, catalog deserialization and presentation are the
//! caller's concern; the library only ever sees already-materialized strings.

pub mod aggregate;
pub mod catalog;
pub mod index;
pub mod matcher;
pub mod nameset;
pub mod sanitize;
pub mod sanitize_laws;
pub mod text;
