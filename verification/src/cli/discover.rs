//! Directory discovery for KiCad symbol and footprint files, and the
//! choice of where a component's `lib_id` comes from.

use vstd::prelude::*;

use crate::cli::manifest::{eq_ignore_ascii_case, eq_ignore_case};
use crate::cli::CliError;
use crate::diagnostic::{join, views, Diagnostic, Severity};
use crate::kicad::sexpr::{as_string_spec, parse, parse_spec, Sexpr};
use crate::text::{chars_of, ends_with, has_suffix, push_char, push_str};
use crate::tree::Tree;

verus! {

broadcast use vstd::string::group_string_axioms;

/// The result of scanning a directory for KiCad source files.
#[derive(Clone, Debug, PartialEq, Eq)]
pub struct Discovered {
    /// Path to a `.kicad_sym` symbol library file, if found.
    pub symbol: Option<String>,
    /// Path to a `.kicad_mod` footprint file or a `.pretty` directory, if found.
    pub footprint: Option<String>,
}

/// One entry of a directory listing.
#[derive(Clone, Debug)]
pub struct DirEntry {
    pub path: String,
    pub is_file: bool,
    pub is_dir: bool,
    /// The path's extension, if it has one.
    pub extension: Option<String>,
    /// The path's last component, if it has one.
    pub file_name: Option<String>,
}

/// A file whose extension is `ext` up to ASCII case.
pub open spec fn is_file_with(e: DirEntry, ext: Seq<char>) -> bool {
    &&& e.is_file
    &&& e.extension matches Some(x) && eq_ignore_case(x@, ext)
}

/// A directory (that is not also a file) named `*.pretty`.
pub open spec fn is_pretty_dir(e: DirEntry) -> bool {
    &&& !e.is_file
    &&& e.is_dir
    &&& e.file_name matches Some(n) && has_suffix(n@, ".pretty"@)
}

/// The path of the first entry satisfying `p`, if any.
pub open spec fn first_path(entries: Seq<DirEntry>, p: spec_fn(DirEntry) -> bool, r: Option<String>) -> bool {
    match r {
        Some(path) => exists|j: int|
            0 <= j < entries.len() && p(#[trigger] entries[j]) && path@ == entries[j].path@ && forall|m: int|
                0 <= m < j ==> !p(entries[m]),
        None => forall|j: int| 0 <= j < entries.len() ==> !p(#[trigger] entries[j]),
    }
}

/// Whether no entry satisfies `p`.
pub open spec fn none_is(entries: Seq<DirEntry>, p: spec_fn(DirEntry) -> bool) -> bool {
    forall|j: int| 0 <= j < entries.len() ==> !p(#[trigger] entries[j])
}

fn scan(entries: &Vec<DirEntry>, want_file: bool, ext: &str) -> (r: Option<String>)
    ensures
        want_file ==> first_path(entries@, |e: DirEntry| is_file_with(e, ext@), r),
        !want_file ==> first_path(entries@, |e: DirEntry| is_pretty_dir(e), r),
{
    let ghost p: spec_fn(DirEntry) -> bool = if want_file {
        |e: DirEntry| is_file_with(e, ext@)
    } else {
        |e: DirEntry| is_pretty_dir(e)
    };
    let ec = chars_of(ext);
    let suffix = chars_of(".pretty");
    let mut i: usize = 0;
    while i < entries.len()
        invariant
            i <= entries@.len(),
            ec@ == ext@,
            suffix@ == ".pretty"@,
            p == (if want_file {
                |e: DirEntry| is_file_with(e, ext@)
            } else {
                |e: DirEntry| is_pretty_dir(e)
            }),
            forall|m: int| 0 <= m < i ==> !p(#[trigger] entries@[m]),
        decreases entries@.len() - i,
    {
        let e = &entries[i];
        let hit = if want_file {
            e.is_file && match &e.extension {
                Some(x) => eq_ignore_ascii_case(&chars_of(x.as_str()), &ec),
                None => false,
            }
        } else {
            !e.is_file && e.is_dir && match &e.file_name {
                Some(n) => ends_with(&chars_of(n.as_str()), &suffix),
                None => false,
            }
        };
        assert(hit == p(entries@[i as int]));
        if hit {
            return Some(e.path.clone());
        }
        i = i + 1;
    }
    None
}

/// Scan a directory listing for KiCad source files: the first `.kicad_sym`
/// file, and the first `.kicad_mod` file or, when there is none, the first
/// `.pretty` directory (extensions compared up to ASCII case).
pub fn discover(entries: &Vec<DirEntry>) -> (r: Discovered)
    ensures
        first_path(entries@, |e: DirEntry| is_file_with(e, "kicad_sym"@), r.symbol),
        none_is(entries@, |e: DirEntry| is_file_with(e, "kicad_mod"@)) ==> first_path(
            entries@,
            |e: DirEntry| is_pretty_dir(e),
            r.footprint,
        ),
        !none_is(entries@, |e: DirEntry| is_file_with(e, "kicad_mod"@)) ==> first_path(
            entries@,
            |e: DirEntry| is_file_with(e, "kicad_mod"@),
            r.footprint,
        ),
{
    let symbol = scan(entries, true, "kicad_sym");
    let footprint_mod = scan(entries, true, "kicad_mod");
    let footprint = match footprint_mod {
        Some(p) => {
            proof {
                let j = choose|j: int|
                    0 <= j < entries@.len() && is_file_with(#[trigger] entries@[j], "kicad_mod"@)
                        && true;
                assert(!none_is(entries@, |e: DirEntry| is_file_with(e, "kicad_mod"@)));
            }
            Some(p)
        },
        None => scan(entries, false, ""),
    };
    Discovered { symbol, footprint }
}

/// Where the `lib_id` of a new part comes from next.
#[derive(Clone, Debug, PartialEq, Eq)]
pub enum LibIdStep {
    /// The `lib_id` is known.
    Explicit(String),
    /// Read this symbol library and take its only symbol
    /// ([`lib_id_from_symbols`]).
    FromSymbols(String),
    /// Read this footprint and take its name ([`footprint_name_of`]).
    FromFootprint(String),
    /// Nothing to take it from.
    Missing(CliError),
}

/// The diagnostic for a part with no `lib_id` source.
pub open spec fn no_lib_id_source(d: Diagnostic) -> bool {
    &&& d.code@ == "CLI:NO_SOURCE"@
    &&& d.severity == Severity::Error
    &&& d.message@ == "Cannot determine lib_id — no .kicad_sym or .kicad_mod files found"@
    &&& d.entities@.len() == 0
    &&& d.hint matches Some(h) && h@ == "Provide --lib-id explicitly"@
}

/// Choose where the `lib_id` comes from: the explicit `--lib-id`, else the
/// discovered symbol library (read at `symbol_path` when given), else the
/// discovered footprint, else nowhere.
pub fn resolve_lib_id(explicit: Option<&str>, discovered: &Discovered, symbol_path: Option<&str>) -> (r: LibIdStep)
    ensures
        match explicit {
            Some(id) => r matches LibIdStep::Explicit(s) && s@ == id@,
            None => match discovered.symbol {
                Some(sym) => r matches LibIdStep::FromSymbols(p) && p@ == (match symbol_path {
                    Some(q) => q@,
                    None => sym@,
                }),
                None => match discovered.footprint {
                    Some(fp) => r matches LibIdStep::FromFootprint(p) && p@ == fp@,
                    None => r matches LibIdStep::Missing(CliError::Diagnostic(d)) && no_lib_id_source(d),
                },
            },
        },
{
    if let Some(id) = explicit {
        return LibIdStep::Explicit(id.to_string());
    }
    if let Some(sym) = &discovered.symbol {
        let path = match symbol_path {
            Some(q) => q.to_string(),
            None => sym.clone(),
        };
        return LibIdStep::FromSymbols(path);
    }
    if let Some(fp) = &discovered.footprint {
        return LibIdStep::FromFootprint(fp.clone());
    }
    let d = Diagnostic {
        code: "CLI:NO_SOURCE".to_string(),
        severity: Severity::Error,
        message: "Cannot determine lib_id — no .kicad_sym or .kicad_mod files found".to_string(),
        entities: Vec::new(),
        hint: Some("Provide --lib-id explicitly".to_string()),
    };
    LibIdStep::Missing(CliError::Diagnostic(d))
}

/// What [`lib_id_from_symbols`] decides for the symbols `ids` of the
/// library at `path`: the only one; `CLI:NO_SYMBOLS` when there is none;
/// `CLI:MISSING_LIB_ID`, naming them all, when there are several.
pub open spec fn lib_id_from_symbols_ok(path: Seq<char>, ids: Seq<String>, r: Result<String, CliError>) -> bool {
    if ids.len() == 1 {
        r matches Ok(s) && s@ == ids[0]@
    } else if ids.len() == 0 {
        r matches Err(CliError::Diagnostic(d)) && d.code@ == "CLI:NO_SYMBOLS"@ && d.severity
            == Severity::Error && d.message@ == "No symbols found in '"@ + path + seq!['\'']
            && d.entities@.len() == 0 && d.hint is None
    } else {
        r matches Err(CliError::Diagnostic(d)) && d.code@ == "CLI:MISSING_LIB_ID"@ && d.severity
            == Severity::Error && d.message@ == "Multiple symbols found in '"@ + path
            + "', --lib-id is required"@ && views(d.entities@) == views(ids) && (d.hint matches Some(
            h,
        ) && h@ == "Available symbols: "@ + join(views(ids), seq![',', ' ']))
    }
}

/// The `lib_id` of a symbol library with symbols `ids` (see
/// [`lib_id_from_symbols_ok`]).
pub fn lib_id_from_symbols(path: &str, ids: &Vec<String>) -> (r: Result<String, CliError>)
    ensures
        lib_id_from_symbols_ok(path@, ids@, r),
{
    if ids.len() == 1 {
        return Ok(ids[0].clone());
    }
    if ids.len() == 0 {
        let mut message = String::new();
        push_str(&mut message, "No symbols found in '");
        push_str(&mut message, path);
        push_char(&mut message, '\'');
        let d = Diagnostic {
            code: "CLI:NO_SYMBOLS".to_string(),
            severity: Severity::Error,
            message,
            entities: Vec::new(),
            hint: None,
        };
        assert(d.message@ == "No symbols found in '"@ + path@ + seq!['\'']);
        return Err(CliError::Diagnostic(d));
    }
    let mut message = String::new();
    push_str(&mut message, "Multiple symbols found in '");
    push_str(&mut message, path);
    push_str(&mut message, "', --lib-id is required");
    let mut hint = String::new();
    push_str(&mut hint, "Available symbols: ");
    crate::diagnostic::push_joined(&mut hint, ids);
    let mut entities: Vec<String> = Vec::new();
    let mut k: usize = 0;
    while k < ids.len()
        invariant
            k <= ids@.len(),
            entities@.len() == k,
            views(entities@) == views(ids@).take(k as int),
        decreases ids@.len() - k,
    {
        let ghost e0 = entities@;
        entities.push(ids[k].clone());
        assert(entities@ == e0.push(entities@[k as int]));
        assert forall|j: int| 0 <= j < k + 1 implies #[trigger] views(entities@)[j] == views(ids@).take(k + 1)[j] by {
            if j < k {
                assert(entities@[j] == e0[j]);
                assert(views(e0)[j] == views(ids@).take(k as int)[j]);
            }
        }
        k = k + 1;
        assert(views(entities@) =~= views(ids@).take(k as int));
    }
    assert(views(ids@).take(k as int) =~= views(ids@));
    let d = Diagnostic {
        code: "CLI:MISSING_LIB_ID".to_string(),
        severity: Severity::Error,
        message,
        entities,
        hint: Some(hint),
    };
    assert(d.message@ == "Multiple symbols found in '"@ + path@ + "', --lib-id is required"@);
    Err(CliError::Diagnostic(d))
}

/// The name a footprint file declares: the second element of a top-level
/// `(footprint NAME …)` list, unquoted.
pub open spec fn footprint_name_spec(t: Tree) -> Option<Seq<char>> {
    match t {
        Tree::List(nodes) => if nodes.len() >= 2 && nodes[0] == Tree::Atom("footprint"@) {
            Some(as_string_spec(nodes[1]))
        } else {
            None
        },
        _ => None,
    }
}

/// The diagnostic for a footprint file at `path` that declares no name.
pub open spec fn no_footprint_name(d: Diagnostic, path: Seq<char>) -> bool {
    &&& d.code@ == "CLI:PARSE"@
    &&& d.severity == Severity::Error
    &&& d.message@ == "Could not extract footprint name from '"@ + path + seq!['\'']
    &&& d.entities@.len() == 0
    &&& d.hint matches Some(h) && h@ == "Ensure the file is a valid KiCad .kicad_mod footprint"@
}

/// Extract the footprint name from the text `source` of the `.kicad_mod`
/// file at `path`: the parse error when it does not parse, its declared
/// name (see [`footprint_name_spec`]), or the `CLI:PARSE` diagnostic.
pub fn footprint_name_of(source: &str, path: &str) -> (r: Result<String, CliError>)
    ensures
        match parse_spec(source@) {
            Err(e) => r matches Err(CliError::Parse(x)) && x == e,
            Ok(t) => match footprint_name_spec(t) {
                Some(n) => r matches Ok(s) && s@ == n,
                None => r matches Err(CliError::Diagnostic(d)) && no_footprint_name(d, path@),
            },
        },
{
    let expr = match parse(source) {
        Ok(e) => e,
        Err(e) => {
            return Err(CliError::Parse(e));
        },
    };
    if let Sexpr::List(nodes) = &expr {
        proof {
            crate::kicad::sexpr::lemma_view_all(nodes@);
        }
        if nodes.len() >= 2 {
            if let Sexpr::Atom(tag) = &nodes[0] {
                if crate::text::str_eq(tag.as_str(), "footprint") {
                    return Ok(nodes[1].as_string());
                }
            }
        }
    }
    let mut message = String::new();
    push_str(&mut message, "Could not extract footprint name from '");
    push_str(&mut message, path);
    push_char(&mut message, '\'');
    let d = Diagnostic {
        code: "CLI:PARSE".to_string(),
        severity: Severity::Error,
        message,
        entities: Vec::new(),
        hint: Some("Ensure the file is a valid KiCad .kicad_mod footprint".to_string()),
    };
    assert(d.message@ == "Could not extract footprint name from '"@ + path@ + seq!['\'']);
    Err(CliError::Diagnostic(d))
}

} // verus!
