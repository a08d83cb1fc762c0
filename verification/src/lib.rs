//! A dropless bump arena: it hands out storage for many values of one
//! element type from a growing list of fixed-size blocks, and releases
//! everything at once when the arena itself is dropped.
//!
//! Allocations return index-based handles into the arena's block list.
//! A slot, once written, is never moved, resized or overwritten, so a
//! handle stays readable, with its original contents, for the arena's
//! whole lifetime.

mod arena;
mod chunk;

pub use arena::DroplessArena;
pub use arena::Handle;
pub use arena::SliceHandle;
pub use arena::PAGE;
pub use arena::HUGE_PAGE;
pub use arena::pos_le;
pub use arena::ranges_disjoint;
pub use arena::handle_range;
pub use arena::lemma_extends_trans;
pub use arena::lemma_frontier_monotone;
pub use arena::lemma_value_stable;
pub use arena::lemma_slice_stable;
pub use arena::lemma_issued_ranges_disjoint;
pub use arena::lemma_growth_deterministic;
pub use chunk::Chunk;
pub use chunk::chunk_extended;
