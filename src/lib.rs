pub mod board;
pub mod bounds;
pub mod fleet;
pub mod game;
pub mod heatmap;
pub mod inference;
pub mod placement;
pub mod position;
pub mod ship;
pub mod strategy;

pub use heatmap::Heatmap;
pub use placement::{Placement, PlacementError};
pub use board::{Board, CellState};
pub use bounds::WithBounds;
pub use position::{Direction, Position};
pub use ship::Ship;
