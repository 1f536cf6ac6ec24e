//! A falling-sand cellular automaton: a fixed-size grid of packed matter cells,
//! double buffered, advanced by gravity and sliding passes, drawn into with a
//! round brush and rendered into an RGBA image.

pub mod rgba;
pub mod matter;
pub mod count;
pub mod rules;
pub mod grid;
pub mod brush;
pub mod simulator;
