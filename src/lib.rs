//! A snake game engine on a wrapped grid: geometry, food, the snake's
//! movement rules, the per-tick game state and the board-size parser.

pub mod control;
pub mod dims;
pub mod food;
pub mod game;
pub mod geometry;
pub mod snake;

pub use control::UIControl;
pub use dims::args_to_dims;
pub use food::{Food, FoodGroup};
pub use game::{GameState, Item, RenderData, RenderMap, SnakeControl};
pub use geometry::{Direction, Position, Size};
pub use snake::{Reason, Segment, Snake, SnakeState};
