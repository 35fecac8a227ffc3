//! A snake game on a periodic grid: the grid and its wrap-around arithmetic,
//! the snake's body, a best-first reachability search, three autopilot
//! policies and the controller that resolves one move per tick.

pub mod autopilot;
pub mod chance;
pub mod frontier;
pub mod game;
pub mod grid;
pub mod orientation;
pub mod parse_cl;
pub mod search;
pub mod snake;
