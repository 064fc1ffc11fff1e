//! A dense two-dimensional grid indexed by coordinates, with row-major
//! iteration and 4- and 8-way neighbour queries.
pub mod grid;
pub mod location;

pub use grid::{Grid, GridIter};
pub use location::Location;
