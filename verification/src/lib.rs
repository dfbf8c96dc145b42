//! A toroidal (wrap-around) Game of Life universe.
//!
//! The library owns a flat, row-major cell buffer together with its
//! dimensions, and advances it one generation at a time under the classic
//! B3/S23 rule.  Every operation carries a contract that pins down its
//! result: coordinate wraparound, neighbour counting, the generation
//! update, text rendering, and seeding from a plain-text pattern.

pub mod grid;
pub mod laws;
pub mod render;
pub mod seed;
pub mod wrap;

pub use grid::Cell;
pub use grid::Universe;
pub use grid::benchmark;
pub use grid::oscillator;
pub use wrap::clamp_add;
pub use wrap::clamp_sub;
pub use wrap::wrapped_add_or_sub;
