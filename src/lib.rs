//! Conway's Game of Life on a fixed-size toroidal grid: the grid engine, and
//! the arithmetic of the picture that a front end paints of it.
mod cell;
mod layout;
mod world;

pub use cell::{next_cell, next_state, Cell};
pub use layout::{canvas_height, canvas_width, cell_colour, cell_offset, CANVAS_MARGIN, CELL_SIZE};
pub use world::{
    all_dead, alive_at, drawn_cell, grid_of_draws, in_bounds, lemma_dimensions, lemma_neighbours_range,
    lemma_next_gen_deterministic, neighbours, next_cell_at, next_gen, World, WORLD_HEIGHT,
    WORLD_WIDTH,
};
