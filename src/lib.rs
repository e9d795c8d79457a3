//! A permutation engine over a fixed facelet space, the six face-turn
//! generators of a 3x3x3 cube, a cube state that accumulates turns, and a
//! renderer for the unfolded net of a labeling.
//!
//! A permutation is kept in array form: entry `i` is where position `i` is
//! sent. Applied to a labeling, it puts at position `i` the label found at
//! position `p[i]`; `compose(p, q)` acts on a labeling as `p` followed by `q`.
pub mod catalog;
pub mod cube;
pub mod laws;
pub mod perm;
pub mod render;
