//! Null-aware, chunk-oriented column kernels with machine-checked contracts.
//!
//! A column is a sequence of chunks, each a dense value buffer with an
//! optional validity mask. On top of that model stand chunk alignment, the
//! elementwise combinators, and the algorithms built from them: gap
//! interpolation, previous-larger distances, a wrapping life step, struct
//! field rotation, and row iteration over nested list columns.

pub mod align;
pub mod chunked;
pub mod distance;
pub mod elementwise;
pub mod error;
pub mod interpolate;
pub mod kernels;
pub mod life;
pub mod list;
pub mod schema;
pub mod strings;
pub mod structs;
