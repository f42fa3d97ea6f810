//! The limits of the search tree.
use vstd::prelude::*;

verus! {

/// The deepest ply that the search stack has an entry for.
pub const MAX_PLY: u16 = 255;

/// The longest principal variation: one move per ply below [`MAX_PLY`].
pub const PV_CAPACITY: usize = 255;

/// How far the depth of a search may lie above its ply. A line may be extended by a
/// ply at each of its plies, and its depth still has to fit an `i16`.
pub const MAX_DEPTH: i16 = 32000;

} // verus!
