//! KiCad 10 backend: S-expression reader and writer, and the emitters and
//! readers of the project's KiCad files.

use vstd::prelude::*;

use crate::text::{push_char, push_str};

pub mod board;
pub mod common;
pub mod flatten;
pub mod fp_emitter;
pub mod fp_geom;
pub mod fp_parser;
pub mod lib_emitter;
pub mod models;
pub mod netlist;
pub mod pcb;
pub mod pcb_parser;
pub mod project;
pub mod roundtrip;
pub mod sexpr;
pub mod sym_layout;
pub mod sym_lib;
pub mod sym_parser;

verus! {

broadcast use vstd::string::group_string_axioms;

/// KiCad backend configuration: the project name that the emitted files are
/// named after.
#[derive(Clone, Debug)]
pub struct KiCad {
    project_name: String,
}

impl View for KiCad {
    type V = Seq<char>;

    /// The project name.
    closed spec fn view(&self) -> Seq<char> {
        self.project_name@
    }
}

impl Default for KiCad {
    /// A backend with an empty project name.
    fn default() -> (r: Self)
        ensures
            r@ == Seq::<char>::empty(),
    {
        KiCad { project_name: String::new() }
    }
}

impl KiCad {
    /// Create a new KiCad backend with the default project name.
    pub fn new() -> (r: Self)
        ensures
            r@ == "copperleaf"@,
    {
        KiCad { project_name: "copperleaf".to_string() }
    }

    /// Set the project name used for the `.kicad_pro` filename.
    pub fn with_project_name(self, name: &str) -> (r: Self)
        ensures
            r@ == name@,
    {
        KiCad { project_name: name.to_string() }
    }

    /// The configured project name.
    pub fn project_name(&self) -> (r: &str)
        ensures
            r@ == self@,
    {
        self.project_name.as_str()
    }

    /// Name of the project file with extension `ext`: `<project>.<ext>`.
    pub fn output_file(&self, ext: &str) -> (r: String)
        ensures
            r@ == self@ + seq!['.'] + ext@,
    {
        let mut out = self.project_name.clone();
        push_char(&mut out, '.');
        push_str(&mut out, ext);
        assert(out@ =~= self@ + seq!['.'] + ext@);
        out
    }
}

} // verus!
