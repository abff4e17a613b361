//! The `new` command: which source a new part manifest is built from.

use vstd::prelude::*;

use crate::cli::discover::Discovered;
use crate::cli::manifest::{toml_stem, toml_stem_spec};
use crate::cli::CliError;
use crate::diagnostic::{Diagnostic, Severity};
use crate::text::{push_char, push_str};

verus! {

/// Arguments of the `new` command.
#[derive(Clone, Debug)]
pub struct NewArgs {
    /// KiCad symbol library file.
    pub symbol: Option<String>,
    /// KiCad footprint file or `.pretty` directory.
    pub footprint: Option<String>,
    /// Datasheet PDF file.
    pub datasheet: Option<String>,
    /// Directory holding a symbol library and a footprint.
    pub dir: Option<String>,
    /// Library identifier within the source file.
    pub lib_id: Option<String>,
    /// Output file path.
    pub out: Option<String>,
    /// TOML file overriding the built-in pin type → kind map.
    pub kind_map: Option<String>,
    /// Default kind for unrecognised pin types.
    pub default_kind: String,
    /// Path to a 3D model (`.step`) file for the footprint.
    pub model_3d: Option<String>,
    /// Component title.
    pub title: Option<String>,
    /// Component description.
    pub description: Option<String>,
    /// Model used for datasheet processing (`provider/model`).
    pub model: String,
    /// Vendor parts crate to create or use.
    pub crate_: Option<String>,
}

/// The source a `new` run reads, with its path.
#[derive(Clone, Debug, PartialEq, Eq)]
pub enum NewSource {
    Datasheet(String),
    Dir(String),
    Symbol(String),
    Footprint(String),
    /// No source was given: nothing is done.
    Nothing,
}

/// What [`run`] chooses: the datasheet first, then the directory, then the
/// symbol library, then the footprint.
pub open spec fn run_spec(args: NewArgs) -> NewSource {
    match (args.datasheet, args.dir, args.symbol, args.footprint) {
        (Some(p), _, _, _) => NewSource::Datasheet(p),
        (None, Some(p), _, _) => NewSource::Dir(p),
        (None, None, Some(p), _) => NewSource::Symbol(p),
        (None, None, None, Some(p)) => NewSource::Footprint(p),
        (None, None, None, None) => NewSource::Nothing,
    }
}

/// Choose the source of a `new` run (see [`run_spec`]).
pub fn run(args: &NewArgs) -> (r: NewSource)
    ensures
        match (r, run_spec(*args)) {
            (NewSource::Datasheet(a), NewSource::Datasheet(b)) => a@ == b@,
            (NewSource::Dir(a), NewSource::Dir(b)) => a@ == b@,
            (NewSource::Symbol(a), NewSource::Symbol(b)) => a@ == b@,
            (NewSource::Footprint(a), NewSource::Footprint(b)) => a@ == b@,
            (NewSource::Nothing, NewSource::Nothing) => true,
            _ => false,
        },
{
    if let Some(p) = &args.datasheet {
        return NewSource::Datasheet(p.clone());
    }
    if let Some(p) = &args.dir {
        return NewSource::Dir(p.clone());
    }
    if let Some(p) = &args.symbol {
        return NewSource::Symbol(p.clone());
    }
    if let Some(p) = &args.footprint {
        return NewSource::Footprint(p.clone());
    }
    NewSource::Nothing
}

/// The diagnostic for a directory with no symbol and no footprint.
pub open spec fn empty_dir(d: Diagnostic, dir: Seq<char>) -> bool {
    &&& d.code@ == "CLI:NO_SOURCE"@
    &&& d.severity == Severity::Error
    &&& d.message@ == "No .kicad_sym or .kicad_mod files found in '"@ + dir + seq!['\'']
    &&& d.entities@.len() == 0
    &&& d.hint matches Some(h) && h@
        == "Place both files in the directory, or use --symbol / --footprint for individual files"@
}

/// A directory source must hold a symbol library or a footprint.
pub fn check_discovered(dir: &str, discovered: &Discovered) -> (r: Result<(), CliError>)
    ensures
        discovered.symbol is None && discovered.footprint is None ==> (r matches Err(
            CliError::Diagnostic(d),
        ) && empty_dir(d, dir@)),
        !(discovered.symbol is None && discovered.footprint is None) ==> r is Ok,
{
    if discovered.symbol.is_none() && discovered.footprint.is_none() {
        let mut message = String::new();
        push_str(&mut message, "No .kicad_sym or .kicad_mod files found in '");
        push_str(&mut message, dir);
        push_char(&mut message, '\'');
        let d = Diagnostic {
            code: "CLI:NO_SOURCE".to_string(),
            severity: Severity::Error,
            message,
            entities: Vec::new(),
            hint: Some(
                "Place both files in the directory, or use --symbol / --footprint for individual files".to_string(),
            ),
        };
        assert(d.message@ == "No .kicad_sym or .kicad_mod files found in '"@ + dir@ + seq!['\'']);
        return Err(CliError::Diagnostic(d));
    }
    Ok(())
}

/// Where a new manifest is written.
#[derive(Clone, Debug, PartialEq, Eq)]
pub enum OutputTarget {
    /// The file given with `--out`.
    File(String),
    /// The vendor crate `vendor` (scaffolded first), at `parts/<vendor>/<stem>.toml`.
    Vendor { vendor: String, path: String },
    /// Standard output.
    Stdout,
}

/// Where a new manifest for `lib_id` goes: `--out`, else the vendor crate
/// given with `--crate`, else standard output.
pub fn output_target(args: &NewArgs, lib_id: &str) -> (r: OutputTarget)
    ensures
        match args.out {
            Some(o) => r matches OutputTarget::File(p) && p@ == o@,
            None => match args.crate_ {
                Some(v) => r matches OutputTarget::Vendor { vendor, path } && vendor@ == v@ && path@
                    == "parts/"@ + v@ + seq!['/'] + toml_stem_spec(lib_id@) + ".toml"@,
                None => r is Stdout,
            },
        },
{
    if let Some(o) = &args.out {
        return OutputTarget::File(o.clone());
    }
    if let Some(v) = &args.crate_ {
        let mut path = String::new();
        push_str(&mut path, "parts/");
        push_str(&mut path, v.as_str());
        push_char(&mut path, '/');
        push_str(&mut path, toml_stem(lib_id).as_str());
        push_str(&mut path, ".toml");
        return OutputTarget::Vendor { vendor: v.clone(), path };
    }
    OutputTarget::Stdout
}

/// The identifier a part read from a datasheet is written under: the
/// explicit `--lib-id`, else the manifest's `lib_id`, whichever comes first,
/// when it is not empty; else the component name.
pub open spec fn datasheet_lib_id_spec(explicit: Option<Seq<char>>, manifest_lib_id: Option<Seq<char>>, name: Seq<char>) -> Seq<char> {
    let first = match explicit {
        Some(e) => Some(e),
        None => manifest_lib_id,
    };
    match first {
        Some(c) => if c.len() > 0 {
            c
        } else {
            name
        },
        None => name,
    }
}

/// The diagnostic for a datasheet part with no identifier.
pub open spec fn no_part_id(d: Diagnostic) -> bool {
    &&& d.code@ == "CLI:MISSING_LIB_ID"@
    &&& d.severity == Severity::Error
    &&& d.message@ == "Could not determine a part identifier for the output file"@
    &&& d.entities@.len() == 0
    &&& d.hint matches Some(h) && h@
        == "Provide --lib-id, or make sure the LLM emits component.name or component.lib_id"@
}

/// Choose the identifier of a part read from a datasheet (see
/// [`datasheet_lib_id_spec`]); the `CLI:MISSING_LIB_ID` diagnostic when it
/// is empty.
pub fn datasheet_lib_id(explicit: Option<&str>, manifest_lib_id: Option<&str>, name: &str) -> (r: Result<String, CliError>)
    ensures
        ({
            let id = datasheet_lib_id_spec(
                match explicit {
                    Some(e) => Some(e@),
                    None => None,
                },
                match manifest_lib_id {
                    Some(m) => Some(m@),
                    None => None,
                },
                name@,
            );
            if id.len() > 0 {
                r matches Ok(s) && s@ == id
            } else {
                r matches Err(CliError::Diagnostic(d)) && no_part_id(d)
            }
        }),
{
    let first = match explicit {
        Some(e) => Some(e),
        None => manifest_lib_id,
    };
    let chosen: &str = match first {
        Some(c) => if c.unicode_len() > 0 {
            c
        } else {
            name
        },
        None => name,
    };
    if chosen.unicode_len() == 0 {
        return Err(
            CliError::Diagnostic(
                Diagnostic {
                    code: "CLI:MISSING_LIB_ID".to_string(),
                    severity: Severity::Error,
                    message: "Could not determine a part identifier for the output file".to_string(),
                    entities: Vec::new(),
                    hint: Some(
                        "Provide --lib-id, or make sure the LLM emits component.name or component.lib_id".to_string(),
                    ),
                },
            ),
        );
    }
    Ok(chosen.to_string())
}

} // verus!
