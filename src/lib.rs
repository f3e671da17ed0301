//! A falling-sand particle world on an integer grid, with axis-aligned
//! hitboxes that query and edit it.
//!
//! World space uses integer units with `y` growing upward. The grid maps each
//! cell `(x, y)` to one particle; cells outside the grid read as air.

pub mod element;
pub mod coords;
pub mod grid;
pub mod hitbox;
pub mod splash;
pub mod sim;
pub mod actor;
