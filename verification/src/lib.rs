//! A Game of Life variant in which a live cell remembers the frame of its
//! birth: a double-buffered grid, the evolution step, pattern stamping with
//! reflections, input handling, and an age-shaded rasterizer.

pub mod canvas;
pub mod evolve;
pub mod grid;
pub mod input;
pub mod pattern;
pub mod raster;
pub mod tick;

pub use canvas::{draw_cell, draw_mark, draw_point, Canvas, Color, ImageBuffer};
pub use evolve::{count_neighbours, evolve_cell, step_generation};
pub use grid::{
    clear_generation, init, read_cell, swap_generations, try_init, write_cell_checked,
    write_cell_unchecked, GameState, StateView,
};
pub use input::{
    handle_event, handle_events, pointer_to_unsigned, InputEvent, Key, MouseButton, Requests,
};
pub use pattern::{
    crosshair, glider, glider_gun, glider_mistake, pattern, place, rotation, write_pattern,
    Pattern, Shape, PATTERN_COUNT, ROTATION_COUNT,
};
pub use raster::{draw_generation, draw_pattern, shade, DEAD_SHADE, NEWBORN_SHADE, OLDEST_AGE};
pub use tick::update;
