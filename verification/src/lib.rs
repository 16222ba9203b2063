//! The verified core of a console-driven Mandelbrot viewer: the command
//! language typed on its console, the variables those commands act on, and
//! the small vectors its vertex data is built from.
use vstd::prelude::*;

pub mod command;
pub mod controls;
pub mod math;
pub mod text;

pub use command::{subdivide_commands, subdivide_commands_accepts, Action, Command};
pub use controls::{is_continuous_color_function, variable_to_assign, variable_to_update, Variable};
pub use math::{Vector2, Vector3};
pub use text::filter_spaces;

verus! {

} // verus!
