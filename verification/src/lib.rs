//! A resumable virtual machine over a flat memory of signed 64-bit integers,
//! together with the puzzle logic that drives it.

pub mod machine;
pub mod interpreter;
pub mod laws;
pub mod wires;
pub mod fuel;
pub mod password;
pub mod amplifiers;
pub mod assist;
pub mod image;
pub mod scaffold;
pub mod signal;
pub mod moons;
pub mod asteroids;
pub mod arcade;
pub mod droid;
pub mod text;
pub mod reactions;
pub mod robot;
pub mod orbits;
pub mod diagnostics;

pub use interpreter::Intcode;
pub use machine::{Effect, Fault};
