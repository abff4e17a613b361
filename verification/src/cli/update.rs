//! The `update` command's checks: that a source is given, that the source
//! matches the part, and that pin and pad counts agree.

use vstd::prelude::*;

use crate::cli::manifest::{eq_ignore_ascii_case, eq_ignore_case};
use crate::cli::CliError;
use crate::diagnostic::{Diagnostic, Severity};
use crate::text::{chars_of, decimal, push_char, push_str, str_eq, usize_to_string};

verus! {

broadcast use vstd::string::group_string_axioms;

/// Arguments of the `update` command.
#[derive(Clone, Debug)]
pub struct UpdateArgs {
    /// Existing part TOML file.
    pub part_toml: String,
    /// KiCad symbol library file.
    pub symbol: Option<String>,
    /// KiCad footprint file or `.pretty` directory.
    pub footprint: Option<String>,
    /// Datasheet PDF file.
    pub datasheet: Option<String>,
    /// Library identifier within the source file.
    pub lib_id: Option<String>,
    /// Output file path (defaults to overwriting the input).
    pub out: Option<String>,
    /// TOML file overriding the built-in pin type → kind map.
    pub kind_map: Option<String>,
    /// Default kind for unrecognised pin types.
    pub default_kind: String,
    /// Path to a 3D model (`.step`) file for the footprint.
    pub model_3d: Option<String>,
    /// Model used for datasheet processing (`provider/model`).
    pub model: String,
}

/// The diagnostic for an update with no source.
pub open spec fn no_source(d: Diagnostic) -> bool {
    &&& d.code@ == "CLI:NO_SOURCE"@
    &&& d.severity == Severity::Error
    &&& d.message@ == "No source provided — pass --symbol, --footprint, --datasheet, or --model-3d"@
    &&& d.entities@.len() == 0
    &&& d.hint is None
}

/// At least one source must be provided: a symbol, a footprint, a
/// datasheet or a 3D model.
pub fn require_source(args: &UpdateArgs) -> (r: Result<(), CliError>)
    ensures
        args.symbol is None && args.footprint is None && args.datasheet is None && args.model_3d is None
            ==> (r matches Err(CliError::Diagnostic(d)) && no_source(d)),
        !(args.symbol is None && args.footprint is None && args.datasheet is None && args.model_3d
            is None) ==> r is Ok,
{
    if args.symbol.is_none() && args.footprint.is_none() && args.datasheet.is_none()
        && args.model_3d.is_none() {
        let d = Diagnostic {
            code: "CLI:NO_SOURCE".to_string(),
            severity: Severity::Error,
            message: "No source provided — pass --symbol, --footprint, --datasheet, or --model-3d".to_string(),
            entities: Vec::new(),
            hint: None,
        };
        return Err(CliError::Diagnostic(d));
    }
    Ok(())
}

/// The diagnostic for a part whose TOML names `existing` but whose source
/// holds `found`.
pub open spec fn lib_id_mismatch(d: Diagnostic, existing: Seq<char>, found: Seq<char>) -> bool {
    &&& d.code@ == "CLI:LIB_ID_MISMATCH"@
    &&& d.severity == Severity::Error
    &&& d.message@ == "Part TOML has lib_id '"@ + existing + "', but source contains '"@ + found + seq!['\'']
    &&& d.entities@.len() == 2
    &&& d.entities@[0]@ == existing
    &&& d.entities@[1]@ == found
    &&& d.hint matches Some(h) && h@ == "Use --lib-id to override, or update the correct TOML file"@
}

/// Verify that the source matches this part: an error when the part TOML
/// names a different `lib_id` than the one found.
pub fn check_lib_id(existing: Option<&str>, found: &str) -> (r: Result<(), CliError>)
    ensures
        match existing {
            Some(e) => if e@ != found@ {
                r matches Err(CliError::Diagnostic(d)) && lib_id_mismatch(d, e@, found@)
            } else {
                r is Ok
            },
            None => r is Ok,
        },
{
    if let Some(e) = existing {
        if !str_eq(e, found) {
            let mut message = String::new();
            push_str(&mut message, "Part TOML has lib_id '");
            push_str(&mut message, e);
            push_str(&mut message, "', but source contains '");
            push_str(&mut message, found);
            push_char(&mut message, '\'');
            let mut entities: Vec<String> = Vec::new();
            entities.push(e.to_string());
            entities.push(found.to_string());
            let d = Diagnostic {
                code: "CLI:LIB_ID_MISMATCH".to_string(),
                severity: Severity::Error,
                message,
                entities,
                hint: Some("Use --lib-id to override, or update the correct TOML file".to_string()),
            };
            assert(d.message@ == "Part TOML has lib_id '"@ + e@ + "', but source contains '"@ + found@
                + seq!['\'']);
            return Err(CliError::Diagnostic(d));
        }
    }
    Ok(())
}

/// The diagnostic for a `what` (`Symbol` or `Footprint`) named `lib_id`
/// missing from the file at `path`.
pub open spec fn not_found(d: Diagnostic, what: Seq<char>, lib_id: Seq<char>, path: Seq<char>) -> bool {
    &&& d.code@ == (if what == "Symbol"@ {
        "CLI:SYMBOL_NOT_FOUND"@
    } else {
        "CLI:FOOTPRINT_NOT_FOUND"@
    })
    &&& d.severity == Severity::Error
    &&& d.message@ == what + " '"@ + lib_id + "' not found in '"@ + path + seq!['\'']
    &&& d.entities@.len() == 1
    &&& d.entities@[0]@ == lib_id
    &&& d.hint is None
}

fn not_found_error(symbol: bool, lib_id: &str, path: &str) -> (r: CliError)
    ensures
        r matches CliError::Diagnostic(d) && not_found(
            d,
            if symbol {
                "Symbol"@
            } else {
                "Footprint"@
            },
            lib_id@,
            path@,
        ),
{
    proof {
        reveal_strlit("Symbol");
        reveal_strlit("Footprint");
    }
    let what = if symbol {
        "Symbol"
    } else {
        "Footprint"
    };
    let mut message = String::new();
    push_str(&mut message, what);
    push_str(&mut message, " '");
    push_str(&mut message, lib_id);
    push_str(&mut message, "' not found in '");
    push_str(&mut message, path);
    push_char(&mut message, '\'');
    let mut entities: Vec<String> = Vec::new();
    entities.push(lib_id.to_string());
    let code = if symbol {
        "CLI:SYMBOL_NOT_FOUND".to_string()
    } else {
        "CLI:FOOTPRINT_NOT_FOUND".to_string()
    };
    let d = Diagnostic { code, severity: Severity::Error, message, entities, hint: None };
    assert(d.message@ == what@ + " '"@ + lib_id@ + "' not found in '"@ + path@ + seq!['\'']);
    CliError::Diagnostic(d)
}

/// The error for a symbol `lib_id` missing from the library at `path`.
pub fn symbol_not_found(lib_id: &str, path: &str) -> (r: CliError)
    ensures
        r matches CliError::Diagnostic(d) && not_found(d, "Symbol"@, lib_id@, path@),
{
    not_found_error(true, lib_id, path)
}

/// The error for a footprint `lib_id` missing from the library at `path`.
pub fn footprint_not_found(lib_id: &str, path: &str) -> (r: CliError)
    ensures
        r matches CliError::Diagnostic(d) && not_found(d, "Footprint"@, lib_id@, path@),
{
    not_found_error(false, lib_id, path)
}

/// The warning when a symbol's pin count differs from the part's (only when
/// the part has pins).
pub open spec fn pin_count_warning(d: Diagnostic, symbol_pins: nat, part_pins: nat) -> bool {
    &&& d.code@ == "CLI:PIN_COUNT_MISMATCH"@
    &&& d.severity == Severity::Warning
    &&& d.message@ == "Symbol has "@ + decimal(symbol_pins) + " pins, but part TOML has "@ + decimal(part_pins)
    &&& d.entities@.len() == 0
    &&& d.hint matches Some(h) && h@ == "This may indicate the wrong symbol for this part"@
}

/// Warn if a symbol's pin count does not match the part's.
pub fn check_pin_count(symbol_pins: usize, part_pins: usize) -> (r: Option<Diagnostic>)
    ensures
        part_pins != 0 && symbol_pins != part_pins ==> (r matches Some(d) && pin_count_warning(
            d,
            symbol_pins as nat,
            part_pins as nat,
        )),
        !(part_pins != 0 && symbol_pins != part_pins) ==> r is None,
{
    if part_pins != 0 && symbol_pins != part_pins {
        let mut message = String::new();
        push_str(&mut message, "Symbol has ");
        push_str(&mut message, usize_to_string(symbol_pins).as_str());
        push_str(&mut message, " pins, but part TOML has ");
        push_str(&mut message, usize_to_string(part_pins).as_str());
        let d = Diagnostic {
            code: "CLI:PIN_COUNT_MISMATCH".to_string(),
            severity: Severity::Warning,
            message,
            entities: Vec::new(),
            hint: Some("This may indicate the wrong symbol for this part".to_string()),
        };
        return Some(d);
    }
    None
}

/// A footprint pad as the pad count sees it.
#[derive(Clone, Debug)]
pub struct PadInfo {
    pub pad_type: String,
    pub number: String,
    /// Whether the pad is a thermal via of one of the part's pins.
    pub thermal_via: bool,
}

/// Electrical pads: not non-plated holes, not unnumbered (empty or `none`
/// up to case), and not through-hole thermal vias.
pub open spec fn is_electrical(p: PadInfo) -> bool {
    if eq_ignore_case(p.pad_type@, "np_thru_hole"@) || eq_ignore_case(p.number@, "none"@) || p.number@.len()
        == 0 {
        false
    } else if eq_ignore_case(p.pad_type@, "thru_hole"@) {
        !p.thermal_via
    } else {
        true
    }
}

/// Number of electrical pads among the first `n`.
pub open spec fn electrical_count(pads: Seq<PadInfo>, n: nat) -> nat
    decreases n,
{
    if n == 0 {
        0
    } else {
        electrical_count(pads, (n - 1) as nat) + if is_electrical(pads[n - 1]) {
            1nat
        } else {
            0nat
        }
    }
}

/// Whether a pad is electrical (see [`is_electrical`]).
pub fn is_electrical_pad(p: &PadInfo) -> (b: bool)
    ensures
        b == is_electrical(*p),
{
    let ty = chars_of(p.pad_type.as_str());
    let num = chars_of(p.number.as_str());
    if eq_ignore_ascii_case(&ty, &chars_of("np_thru_hole")) || eq_ignore_ascii_case(&num, &chars_of("none"))
        || num.len() == 0 {
        return false;
    }
    if eq_ignore_ascii_case(&ty, &chars_of("thru_hole")) {
        return !p.thermal_via;
    }
    true
}

/// Number of electrical pads of a footprint.
pub fn electrical_pad_count(pads: &Vec<PadInfo>) -> (n: usize)
    ensures
        n == electrical_count(pads@, pads@.len()),
{
    let mut n: usize = 0;
    let mut i: usize = 0;
    while i < pads.len()
        invariant
            i <= pads@.len(),
            n == electrical_count(pads@, i as nat),
            n <= i,
        decreases pads@.len() - i,
    {
        if is_electrical_pad(&pads[i]) {
            n = n + 1;
        }
        i = i + 1;
    }
    n
}

/// The warning when a footprint's electrical pad count differs from the
/// part's pin count (only when the part has pins).
pub open spec fn pad_count_warning(d: Diagnostic, pads: nat, part_pins: nat) -> bool {
    &&& d.code@ == "CLI:PAD_COUNT_MISMATCH"@
    &&& d.severity == Severity::Warning
    &&& d.message@ == "Footprint has "@ + decimal(pads) + " pads, but part TOML has "@ + decimal(
        part_pins,
    ) + " pins"@
    &&& d.entities@.len() == 0
    &&& d.hint matches Some(h) && h@ == "This may indicate the wrong footprint for this part"@
}

/// Warn if a footprint's electrical pad count does not match the part's pin
/// count.
pub fn check_pad_count(pads: &Vec<PadInfo>, part_pins: usize) -> (r: Option<Diagnostic>)
    ensures
        ({
            let n = electrical_count(pads@, pads@.len());
            &&& part_pins != 0 && n != part_pins ==> (r matches Some(d) && pad_count_warning(d, n, part_pins as nat))
            &&& !(part_pins != 0 && n != part_pins) ==> r is None
        }),
{
    let n = electrical_pad_count(pads);
    if part_pins != 0 && n != part_pins {
        let mut message = String::new();
        push_str(&mut message, "Footprint has ");
        push_str(&mut message, usize_to_string(n).as_str());
        push_str(&mut message, " pads, but part TOML has ");
        push_str(&mut message, usize_to_string(part_pins).as_str());
        push_str(&mut message, " pins");
        let d = Diagnostic {
            code: "CLI:PAD_COUNT_MISMATCH".to_string(),
            severity: Severity::Warning,
            message,
            entities: Vec::new(),
            hint: Some("This may indicate the wrong footprint for this part".to_string()),
        };
        return Some(d);
    }
    None
}

/// The `lib_id` a footprint is looked up by: `--lib-id`, else the part's,
/// else empty.
pub fn footprint_lib_id(explicit: Option<&str>, existing: Option<&str>) -> (r: String)
    ensures
        r@ == (match explicit {
            Some(e) => e@,
            None => match existing {
                Some(x) => x@,
                None => Seq::<char>::empty(),
            },
        }),
{
    match explicit {
        Some(e) => e.to_string(),
        None => match existing {
            Some(x) => x.to_string(),
            None => String::new(),
        },
    }
}

} // verus!
