use copperleaf::cli::llm::{extract_toml, new_prompt, update_prompt, NEW_PROMPT, UPDATE_PROMPT};
use copperleaf::cli::manifest;
use copperleaf::cli::manifest::{
    check_extension, check_extension_of, is_placeholder_name, pin_number, purpose_for_kind,
};
use copperleaf::cli::new::{run, NewArgs, NewSource};
use copperleaf::cli::vendor::{
    add_workspace_member, component_line, toml_filename, vendor_cargo_toml, vendor_lib_rs,
    with_component,
};
use copperleaf::cli::CliError;
use copperleaf::diagnostic::{report, Diagnostic, Severity};

#[test]
fn extract_toml_prefers_toml_fence() {
    let raw = r#"Here is the manifest:

```toml
[component]
name = "Test"
```

```
some other block
```
"#;
    let toml = extract_toml(raw, "test").unwrap();
    assert_eq!(toml, "[component]\nname = \"Test\"");
}

#[test]
fn extract_toml_falls_back_to_first_fence() {
    let raw = r#"```
[component]
name = "Test"
```"#;
    let toml = extract_toml(raw, "test").unwrap();
    assert_eq!(toml, "[component]\nname = \"Test\"");
}

#[test]
fn extract_toml_uses_whole_output_when_unfenced() {
    let raw = r#"[component]
name = "Test"

[[pin]]
num = 1
name = "A"
kind = "dio""#;
    let toml = extract_toml(raw, "test").unwrap();
    assert_eq!(toml, raw);
}

#[test]
fn extract_toml_errors_on_non_toml_output() {
    let raw = "I cannot generate that file.";
    assert!(extract_toml(raw, "test").is_err());
}

#[test]
fn extract_toml_error_is_the_not_found_diagnostic() {
    match extract_toml("no toml here", "ds.pdf") {
        Err(CliError::Diagnostic(d)) => {
            assert_eq!(d.code, "CLI:LLM_TOML_NOT_FOUND");
            assert_eq!(d.severity, Severity::Error);
            assert_eq!(
                d.message,
                "LLM response did not contain a valid TOML block for 'ds.pdf'"
            );
            assert_eq!(d.entities, vec!["ds.pdf".to_string()]);
            assert_eq!(
                d.hint.as_deref(),
                Some("The model may have returned explanatory text instead of TOML")
            );
        }
        _ => panic!("expected a diagnostic"),
    }
}

#[test]
fn extract_toml_unclosed_toml_fence_falls_back() {
    // The ```toml fence is never closed, so the first generic fence pair wins.
    let raw = "```toml\n[a]\nx = 1\n";
    assert!(extract_toml(raw, "p").is_err());
    let raw = "  [a]\nx = 1  \n";
    assert_eq!(extract_toml(raw, "p").unwrap(), "[a]\nx = 1");
}

#[test]
fn pin_number_parses_numeric() {
    let mut c = 1;
    assert_eq!(pin_number("1", &mut c), 1);
    assert_eq!(pin_number("42", &mut c), 42);
    assert_eq!(c, 1); // counter unchanged for numeric pins
}

#[test]
fn pin_number_auto_increments_non_numeric() {
    let mut c = 1;
    assert_eq!(pin_number("TD2+", &mut c), 1);
    assert_eq!(pin_number("TD3-", &mut c), 2);
    assert_eq!(pin_number("RD2+", &mut c), 3);
    assert_eq!(c, 4);
}

#[test]
fn pin_number_follows_usize_parsing() {
    let mut c = 7;
    assert_eq!(pin_number("+5", &mut c), 5);
    assert_eq!(pin_number("", &mut c), 7);
    assert_eq!(pin_number("99999999999999999999999", &mut c), 8);
    assert_eq!(c, 9);
}

#[test]
fn toml_stem_normalises() {
    assert_eq!(manifest::toml_stem("RP2354A"), "rp2354a");
    assert_eq!(manifest::toml_stem("MM8108-MF15457"), "mm8108_mf15457");
}

#[test]
fn struct_name_normalises() {
    assert_eq!(manifest::struct_name("RP2354A"), "Rp2354a");
    assert_eq!(manifest::struct_name("MM8108-MF15457"), "Mm8108Mf15457");
}

#[test]
fn empty_names_fall_back() {
    assert_eq!(manifest::struct_name("--"), "Part");
    assert_eq!(manifest::toml_stem(""), "part");
    assert_eq!(manifest::toml_stem("--"), "__");
}

#[test]
fn toml_filename_normalises() {
    assert_eq!(toml_filename("RP2354A"), "rp2354a");
}

#[test]
fn placeholder_names_and_purposes() {
    assert!(is_placeholder_name("PAD_3"));
    assert!(!is_placeholder_name("PA3"));
    assert_eq!(purpose_for_kind("gnd"), "Ground");
    assert_eq!(purpose_for_kind("pwr_fixed"), "Supply");
    assert_eq!(purpose_for_kind("pwr_out"), "Supply");
    assert_eq!(purpose_for_kind("dio"), "I/O");
}

#[test]
fn wrong_extension_is_refused() {
    let r = check_extension_of(
        "x.KiCad_Mod",
        Some("KiCad_Mod"),
        "kicad_mod",
        "CLI:FOOTPRINT_AS_SYMBOL",
        "a footprint file",
        "a symbol",
        "--footprint",
    );
    match r {
        Err(CliError::Diagnostic(d)) => {
            assert_eq!(d.code, "CLI:FOOTPRINT_AS_SYMBOL");
            assert_eq!(
                d.message,
                "'x.KiCad_Mod' is a footprint file, not a a symbol — use --footprint instead"
            );
            assert!(d.entities.is_empty());
            assert!(d.hint.is_none());
        }
        _ => panic!("expected a diagnostic"),
    }
    assert!(check_extension_of("x.sym", Some("kicad_sym"), "kicad_mod", "c", "w", "r", "f").is_ok());
    assert!(check_extension_of("x", None, "kicad_mod", "c", "w", "r", "f").is_ok());
    assert!(check_extension("lib/part.kicad_mod", "kicad_mod", "c", "w", "r", "f").is_err());
    assert!(check_extension("lib/part.kicad_sym", "kicad_mod", "c", "w", "r", "f").is_ok());
}

#[test]
fn check_extension_plain_file_names() {
    assert!(check_extension("part.KiCad_Mod", "kicad_mod", "c", "w", "r", "f").is_err());
    assert!(check_extension("a.b.kicad_mod", "kicad_mod", "c", "w", "r", "f").is_err());
    assert!(check_extension(".kicad_mod", "kicad_mod", "c", "w", "r", "f").is_ok());
    assert!(check_extension("kicad_mod", "kicad_mod", "c", "w", "r", "f").is_ok());
    assert!(check_extension("part.kicad_mod.bak", "kicad_mod", "c", "w", "r", "f").is_ok());
}

#[test]
fn check_extension_paths_with_directories() {
    assert!(check_extension("libs/v1.2/part.KICAD_MOD", "kicad_mod", "c", "w", "r", "f").is_err());
    assert!(check_extension("libs/x.kicad_mod/part", "kicad_mod", "c", "w", "r", "f").is_ok());
    assert!(check_extension("/abs/.kicad_mod", "kicad_mod", "c", "w", "r", "f").is_ok());
}

#[test]
fn vendor_files() {
    assert_eq!(component_line("RP2354A"), "build_component!(\"rp2354a.toml\");\n");
    let lib = vendor_lib_rs("acme");
    assert_eq!(
        lib,
        "//! acme vendor components\n\nuse copperleaf_part_macro::build_component;\n"
    );
    let once = with_component(&lib, "RP2354A");
    assert!(once.ends_with("build_component!(\"rp2354a.toml\");\n"));
    assert_eq!(with_component(&once, "RP2354A"), once);
    assert_eq!(with_component("x", "A"), "x\nbuild_component!(\"a.toml\");\n");
    let cargo = vendor_cargo_toml("acme");
    assert!(cargo.starts_with("[package]\nname = \"copperleaf-parts-acme\"\n"));
    assert!(cargo.contains("description = \"acme vendor components\"\n"));
}

#[test]
fn add_member_appends_once_in_content() {
    let content = "[workspace]\nmembers = [\n  \"crates/a\"\n]\n";
    let added = add_workspace_member(content, "parts/acme").unwrap();
    assert_eq!(
        added,
        "[workspace]\nmembers = [\n  \"crates/a\",\n  \"parts/acme\"\n]\n"
    );
    assert!(add_workspace_member(&added, "parts/acme").is_none());
    assert_eq!(
        add_workspace_member("members = []", "p").unwrap(),
        "members = [,\n  \"p\"]"
    );
    assert!(add_workspace_member("[workspace]\n", "p").is_none());
    assert!(add_workspace_member("members = [ \"x\"", "p").is_none());
}

#[test]
fn prompts() {
    let p = new_prompt(Some("T"), None);
    assert!(p.starts_with(NEW_PROMPT));
    assert!(p.ends_with("\nUse this component title: T."));
    let p = new_prompt(Some("T"), Some("D"));
    assert!(p.ends_with("title: T.\nUse this component description: D."));
    assert_eq!(new_prompt(None, None), NEW_PROMPT);
    assert_eq!(update_prompt(), UPDATE_PROMPT);
    assert!(NEW_PROMPT.ends_with("No explanatory text."));
}

fn args() -> NewArgs {
    NewArgs {
        symbol: None,
        footprint: None,
        datasheet: None,
        dir: None,
        lib_id: None,
        out: None,
        kind_map: None,
        default_kind: "dio".to_string(),
        model_3d: None,
        title: None,
        description: None,
        model: "opencode/big-pickle".to_string(),
        crate_: None,
    }
}

#[test]
fn new_run_source_precedence() {
    assert_eq!(run(&args()), NewSource::Nothing);
    let mut a = args();
    a.footprint = Some("f".into());
    assert_eq!(run(&a), NewSource::Footprint("f".into()));
    a.symbol = Some("s".into());
    assert_eq!(run(&a), NewSource::Symbol("s".into()));
    a.dir = Some("d".into());
    assert_eq!(run(&a), NewSource::Dir("d".into()));
    a.datasheet = Some("p".into());
    assert_eq!(run(&a), NewSource::Datasheet("p".into()));
}

#[test]
fn diagnostic_report_text() {
    let d = Diagnostic {
        code: "X:Y".into(),
        severity: Severity::Warning,
        message: "bad".into(),
        entities: vec!["a".into(), "b".into()],
        hint: Some("try".into()),
    };
    assert_eq!(report(&d), "warning[X:Y] a, b: bad\n  hint: try\n");
    let d = Diagnostic {
        code: "C".into(),
        severity: Severity::Info,
        message: "m".into(),
        entities: vec![],
        hint: None,
    };
    assert_eq!(report(&d), "info[C]: m\n");
}

use copperleaf::cli::kindmap::{builtin_entries, KindEntry, KindMap, KindMapFile, CLOCK_BW_MHZ_BITS};

#[test]
fn power_in_maps_to_pwr() {
    let map = KindMap::load(None);
    let (entry, fallback) = map.resolve("VDD", "power_in", "dio");
    assert_eq!(entry.kind, "pwr");
    assert!(!fallback);
}

#[test]
fn gnd_maps_to_gnd() {
    let map = KindMap::load(None);
    let (entry, fallback) = map.resolve("GND", "gnd", "dio");
    assert_eq!(entry.kind, "gnd");
    assert!(!fallback);
}

#[test]
fn gnd_name_overrides_power_in_type() {
    let map = KindMap::load(None);
    let (entry, fallback) = map.resolve("GND", "power_in", "dio");
    assert_eq!(entry.kind, "gnd");
    assert!(!fallback);
}

#[test]
fn clock_maps_to_clk_with_default_bw() {
    let map = KindMap::load(None);
    let (entry, fallback) = map.resolve("CLK", "clock", "dio");
    assert_eq!(entry.kind, "clk");
    assert_eq!(entry.bw_mhz.map(f64::from_bits), Some(25.0));
    assert!(!fallback);
}

#[test]
fn unknown_type_falls_back_to_default() {
    let map = KindMap::load(None);
    let (entry, fallback) = map.resolve("X", "non_existent_pin_type", "dio");
    assert_eq!(entry.kind, "dio");
    assert!(fallback);
}

fn entry(kind: &str) -> KindEntry {
    KindEntry::plain(kind)
}

#[test]
fn file_entries_override_builtins() {
    let mut fixed = entry("pwr_fixed");
    fixed.v = Some(1.2f64.to_bits());
    fixed.i = Some(0.01f64.to_bits());
    let mut clk = entry("clk");
    clk.bw_mhz = Some(100.0f64.to_bits());
    let file = KindMapFile {
        by_type: vec![("power_out".to_string(), entry("pwr")), ("clock".to_string(), clk)],
        by_name: vec![("1V2O".to_string(), fixed)],
    };
    let map = KindMap::load(Some(file));
    let (e, fallback) = map.resolve("1V2O", "power_out", "dio");
    assert_eq!(e.kind, "pwr_fixed");
    assert_eq!(e.v.map(f64::from_bits), Some(1.2));
    assert_eq!(e.i.map(f64::from_bits), Some(0.01));
    assert!(!fallback);
    let (e, _) = map.resolve("CLK", "clock", "dio");
    assert_eq!(e.bw_mhz.map(f64::from_bits), Some(100.0));
    let (e, _) = map.resolve("OUT", "power_out", "dio");
    assert_eq!(e.kind, "pwr");
    // The built-in name entries stay.
    let (e, _) = map.resolve("VSS", "power_in", "dio");
    assert_eq!(e.kind, "gnd");
}

#[test]
fn later_file_entries_win() {
    let file = KindMapFile {
        by_type: vec![("input".to_string(), entry("clk")), ("input".to_string(), entry("spi"))],
        by_name: vec![],
    };
    let map = KindMap::load(Some(file));
    assert_eq!(map.resolve("A", "input", "dio").0.kind, "spi");
}

#[test]
fn builtin_table() {
    let b = builtin_entries();
    assert_eq!(b.len(), 16);
    assert_eq!(b[0].0, "power_in");
    assert_eq!(b[14].0, "clock");
    assert_eq!(b[14].1.bw_mhz, Some(CLOCK_BW_MHZ_BITS));
    assert_eq!(f64::from_bits(CLOCK_BW_MHZ_BITS), 25.0);
    assert_eq!(b[15].1.nc, Some(true));
    let mut map = KindMap::new();
    assert!(map.resolve("GND", "weird", "x").1);
    map.set_by_type("weird", entry("gnd"));
    assert_eq!(map.resolve("GND", "weird", "x").0.kind, "gnd");
    map.populate_builtins();
    assert_eq!(map.resolve("A", "no_connect", "x").0.nc, Some(true));
}

use copperleaf::cli::discover::{
    discover, footprint_name_of, lib_id_from_symbols, resolve_lib_id, DirEntry, Discovered,
    LibIdStep,
};
use copperleaf::cli::new::{check_discovered, output_target, OutputTarget};
use copperleaf::cli::update::{
    check_lib_id, check_pad_count, check_pin_count, electrical_pad_count, footprint_lib_id,
    footprint_not_found, require_source, symbol_not_found, PadInfo, UpdateArgs,
};

fn file(path: &str, ext: Option<&str>) -> DirEntry {
    DirEntry {
        path: path.to_string(),
        is_file: true,
        is_dir: false,
        extension: ext.map(|e| e.to_string()),
        file_name: Some(path.rsplit('/').next().unwrap().to_string()),
    }
}

fn dir(path: &str) -> DirEntry {
    DirEntry {
        path: path.to_string(),
        is_file: false,
        is_dir: true,
        extension: None,
        file_name: Some(path.rsplit('/').next().unwrap().to_string()),
    }
}

#[test]
fn discover_picks_first_of_each_kind() {
    let entries = vec![
        dir("d/lib.pretty"),
        file("d/readme.txt", Some("txt")),
        file("d/a.KICAD_SYM", Some("KICAD_SYM")),
        file("d/b.kicad_sym", Some("kicad_sym")),
        file("d/c.kicad_mod", Some("kicad_mod")),
    ];
    let d = discover(&entries);
    assert_eq!(d.symbol.as_deref(), Some("d/a.KICAD_SYM"));
    assert_eq!(d.footprint.as_deref(), Some("d/c.kicad_mod"));
    let d = discover(&vec![file("d/x", None), dir("d/other"), dir("d/fp.pretty")]);
    assert_eq!(d, Discovered { symbol: None, footprint: Some("d/fp.pretty".to_string()) });
    assert_eq!(discover(&vec![]), Discovered { symbol: None, footprint: None });
}

#[test]
fn lib_id_sources() {
    let found = Discovered { symbol: Some("s.kicad_sym".into()), footprint: Some("f.kicad_mod".into()) };
    assert_eq!(resolve_lib_id(Some("X"), &found, None), LibIdStep::Explicit("X".into()));
    assert_eq!(resolve_lib_id(None, &found, Some("o.kicad_sym")), LibIdStep::FromSymbols("o.kicad_sym".into()));
    assert_eq!(resolve_lib_id(None, &found, None), LibIdStep::FromSymbols("s.kicad_sym".into()));
    let fp_only = Discovered { symbol: None, footprint: Some("f.kicad_mod".into()) };
    assert_eq!(resolve_lib_id(None, &fp_only, None), LibIdStep::FromFootprint("f.kicad_mod".into()));
    match resolve_lib_id(None, &Discovered { symbol: None, footprint: None }, None) {
        LibIdStep::Missing(CliError::Diagnostic(d)) => {
            assert_eq!(d.code, "CLI:NO_SOURCE");
            assert_eq!(d.hint.as_deref(), Some("Provide --lib-id explicitly"));
        }
        other => panic!("unexpected {:?}", other),
    }
}

#[test]
fn lib_id_from_symbol_lists() {
    assert_eq!(lib_id_from_symbols("p", &vec!["A".to_string()]), Ok("A".to_string()));
    match lib_id_from_symbols("p", &vec![]) {
        Err(CliError::Diagnostic(d)) => {
            assert_eq!(d.code, "CLI:NO_SYMBOLS");
            assert_eq!(d.message, "No symbols found in 'p'");
        }
        _ => panic!(),
    }
    match lib_id_from_symbols("p", &vec!["A".to_string(), "B".to_string()]) {
        Err(CliError::Diagnostic(d)) => {
            assert_eq!(d.code, "CLI:MISSING_LIB_ID");
            assert_eq!(d.message, "Multiple symbols found in 'p', --lib-id is required");
            assert_eq!(d.entities, vec!["A".to_string(), "B".to_string()]);
            assert_eq!(d.hint.as_deref(), Some("Available symbols: A, B"));
        }
        _ => panic!(),
    }
}

#[test]
fn footprint_names() {
    assert_eq!(
        footprint_name_of("(footprint \"QFN-32\" (layer \"F.Cu\"))", "x.kicad_mod"),
        Ok("QFN-32".to_string())
    );
    match footprint_name_of("(module \"QFN-32\")", "x.kicad_mod") {
        Err(CliError::Diagnostic(d)) => {
            assert_eq!(d.code, "CLI:PARSE");
            assert_eq!(d.message, "Could not extract footprint name from 'x.kicad_mod'");
        }
        _ => panic!(),
    }
    assert!(matches!(footprint_name_of("(footprint", "x"), Err(CliError::Parse(_))));
}

fn update_args() -> UpdateArgs {
    UpdateArgs {
        part_toml: "p.toml".into(),
        symbol: None,
        footprint: None,
        datasheet: None,
        lib_id: None,
        out: None,
        kind_map: None,
        default_kind: "dio".into(),
        model_3d: None,
        model: "m".into(),
    }
}

#[test]
fn update_checks() {
    let mut a = update_args();
    match require_source(&a) {
        Err(CliError::Diagnostic(d)) => assert_eq!(d.code, "CLI:NO_SOURCE"),
        _ => panic!(),
    }
    a.model_3d = Some("m.step".into());
    assert!(require_source(&a).is_ok());
    assert!(check_lib_id(None, "X").is_ok());
    assert!(check_lib_id(Some("X"), "X").is_ok());
    match check_lib_id(Some("X"), "Y") {
        Err(CliError::Diagnostic(d)) => {
            assert_eq!(d.message, "Part TOML has lib_id 'X', but source contains 'Y'");
            assert_eq!(d.entities, vec!["X".to_string(), "Y".to_string()]);
        }
        _ => panic!(),
    }
    match symbol_not_found("X", "lib.kicad_sym") {
        CliError::Diagnostic(d) => {
            assert_eq!(d.code, "CLI:SYMBOL_NOT_FOUND");
            assert_eq!(d.message, "Symbol 'X' not found in 'lib.kicad_sym'");
        }
        _ => panic!(),
    }
    match footprint_not_found("X", "f.pretty") {
        CliError::Diagnostic(d) => {
            assert_eq!(d.code, "CLI:FOOTPRINT_NOT_FOUND");
            assert_eq!(d.message, "Footprint 'X' not found in 'f.pretty'");
        }
        _ => panic!(),
    }
    assert!(check_pin_count(3, 0).is_none());
    assert!(check_pin_count(3, 3).is_none());
    let d = check_pin_count(3, 4).unwrap();
    assert_eq!(d.message, "Symbol has 3 pins, but part TOML has 4");
    assert_eq!(d.severity, Severity::Warning);
    assert_eq!(footprint_lib_id(None, Some("A")), "A");
    assert_eq!(footprint_lib_id(Some("B"), Some("A")), "B");
    assert_eq!(footprint_lib_id(None, None), "");
}

fn pad(ty: &str, number: &str, via: bool) -> PadInfo {
    PadInfo { pad_type: ty.into(), number: number.into(), thermal_via: via }
}

#[test]
fn electrical_pads_counted() {
    let pads = vec![
        pad("smd", "1", false),
        pad("NP_THRU_HOLE", "2", false),
        pad("smd", "None", false),
        pad("smd", "", false),
        pad("thru_hole", "5", true),
        pad("thru_hole", "6", false),
    ];
    assert_eq!(electrical_pad_count(&pads), 2);
    assert!(check_pad_count(&pads, 2).is_none());
    assert!(check_pad_count(&pads, 0).is_none());
    let d = check_pad_count(&pads, 3).unwrap();
    assert_eq!(d.message, "Footprint has 2 pads, but part TOML has 3 pins");
}

#[test]
fn new_output_and_dir_checks() {
    let mut a = args();
    assert_eq!(output_target(&a, "RP2354A"), OutputTarget::Stdout);
    a.crate_ = Some("acme".into());
    assert_eq!(
        output_target(&a, "RP2354A"),
        OutputTarget::Vendor { vendor: "acme".into(), path: "parts/acme/rp2354a.toml".into() }
    );
    a.out = Some("o.toml".into());
    assert_eq!(output_target(&a, "RP2354A"), OutputTarget::File("o.toml".into()));
    match check_discovered("d", &Discovered { symbol: None, footprint: None }) {
        Err(CliError::Diagnostic(d)) => {
            assert_eq!(d.message, "No .kicad_sym or .kicad_mod files found in 'd'")
        }
        _ => panic!(),
    }
    assert!(check_discovered("d", &Discovered { symbol: Some("s".into()), footprint: None }).is_ok());
}
