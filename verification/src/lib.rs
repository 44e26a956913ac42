//! Vectorized geometric computation over columns of binary-encoded
//! geometries.
//!
//! The crate decodes and re-encodes the extended binary interchange
//! header (`header`), models geometries as explicit coordinate trees
//! (`geom`) that it flattens into fixed-stride buffers (`flatten`) or
//! forces down to two dimensions (`dims`), drives element-wise column
//! operations under broadcasting and null-propagation rules
//! (`broadcast_apply`, `meta`), and matches rows of two geometry columns
//! through a bulk-loaded bounding-box index (`bbox`, `index`, `join`).
//! A caller-owned cache of resolved projection definitions (`proj_cache`)
//! serves coordinate re-projection.

pub mod header;
pub mod geom;
pub mod flatten;
pub mod dims;
pub mod broadcast_apply;
pub mod bbox;
pub mod index;
pub mod join;
pub mod meta;
pub mod proj_cache;
