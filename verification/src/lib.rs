//! Rules engine of a sliding-tile puzzle on a board of four by four cells:
//! the tile ladder, the board, the move resolver, the tile spawner, and the
//! controller that takes one move at a time.

pub mod events;
pub mod logic;
