//! KiCad 6 backend: S-expression writer, deterministic identifiers and the
//! netlist emitter for the design model.

pub mod common;
pub mod design;
pub mod netlist;
pub mod sexpr;
