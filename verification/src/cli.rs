//! Logic of the parts-creation command-line tool: locating the TOML payload
//! of a model's reply, naming parts and files, numbering pins, and choosing
//! what a `new` run reads.

use vstd::prelude::*;

use crate::diagnostic::Diagnostic;
use crate::kicad::fp_emitter::EmitError;
use crate::kicad::sexpr::ParseError;

pub mod discover;
pub mod kindmap;
pub mod llm;
pub mod manifest;
pub mod new;
pub mod part;
pub mod update;
pub mod vendor;

verus! {

/// Error of the command-line tool: a structured diagnostic or a lower-level
/// failure.
#[derive(Clone, Debug, PartialEq, Eq)]
pub enum CliError {
    Diagnostic(Diagnostic),
    /// I/O failure, with its message.
    Io(String),
    /// TOML decoding failure, with its message.
    Toml(String),
    /// Code generation failure, with its message.
    Codegen(String),
    Parse(ParseError),
    Emit(EmitError),
}

} // verus!
