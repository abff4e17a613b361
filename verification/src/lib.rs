use vstd::prelude::*;

pub mod analysis;
pub mod cli;
pub mod diagnostic;
pub mod text;
pub mod tree;
pub mod kicad;
pub mod kicad6;
