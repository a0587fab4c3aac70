use vstd::prelude::*;

pub mod color;
pub mod framebuffer;
pub mod maze;
pub mod caster;
pub mod render;
pub mod sprites;
pub mod game;

verus! {
} // verus!
