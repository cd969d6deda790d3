//! Conway's Game of Life on a toroidal grid.
//!
//! The [`Universe`] owns a width, a height and a flat, row-major cell
//! buffer whose length is always `width * height`. It offers accessors
//! (dimensions, a read-only cell view, a textual rendering), mutators
//! (lossy resize, single-cell toggle, bulk-set, one-generation tick) and
//! a constructor with a fixed, documented initial pattern. Neighbor
//! counting wraps at the edges, so the grid is topologically a torus.

mod cell;
mod laws;
mod universe;

pub use cell::Cell;
pub use cell::flipped;
pub use laws::lemma_toggle_twice;
pub use laws::lemma_wraparound_bottom_to_top;
pub use laws::lemma_wraparound_top_to_bottom;
pub use universe::GridError;
pub use universe::Universe;
pub use universe::cell_at;
pub use universe::glyph;
pub use universe::line_idx;
pub use universe::listed;
pub use universe::listed_before;
pub use universe::neighbor_live;
pub use universe::next_cell;
pub use universe::spec_idx;
pub use universe::spec_live_neighbors;
pub use universe::toggled;
