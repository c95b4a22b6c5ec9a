//! An infinite, sparsely populated two-dimensional grid, organised into
//! fixed-size square chunks, together with a rectangular viewport that
//! projects a finite window of the plane for display.

mod chunkmap;
mod game_error;
mod message;
mod viewport;

pub use chunkmap::{
    chunk_corner, chunk_key, chunk_offset, chunk_quot, coord_in_range, same_chunk,
    lemma_chunk_decomposition, lemma_chunk_key_injective, lemma_chunk_quot_bounds,
    lemma_independent_writes, lemma_insert_then_get, lemma_insert_then_remove,
    lemma_last_write_wins, ChunkCoordinate, ChunkMap, CHUNK_SIZE,
};
pub use game_error::GameError;
pub use message::Message;
pub use viewport::{
    cell_at, lemma_row_cells_membership, lemma_window_cells_membership, row_cells, window_cells,
    ViewportLocation, ViewportProjector,
};
