use copperleaf::cli::new::datasheet_lib_id;
use copperleaf::cli::CliError;
use copperleaf::diagnostic::Severity;
use copperleaf::kicad::fp_parser::{extract_model_path, parse_footprint_model};
use copperleaf::kicad::sexpr::{parse, ParseError};
use copperleaf::kicad::sym_parser::symbol_lib_ids;

#[test]
fn datasheet_lib_id_prefers_explicit() {
    assert_eq!(datasheet_lib_id(Some("X1"), Some("M1"), "Name"), Ok("X1".to_string()));
}

#[test]
fn datasheet_lib_id_falls_back_to_manifest_then_name() {
    assert_eq!(datasheet_lib_id(None, Some("M1"), "Name"), Ok("M1".to_string()));
    assert_eq!(datasheet_lib_id(None, None, "Name"), Ok("Name".to_string()));
}

#[test]
fn datasheet_lib_id_empty_explicit_skips_manifest() {
    // An empty `--lib-id` falls back to the component name, not to the
    // manifest's `lib_id`.
    assert_eq!(datasheet_lib_id(Some(""), Some("M1"), "Name"), Ok("Name".to_string()));
    assert_eq!(datasheet_lib_id(None, Some(""), "Name"), Ok("Name".to_string()));
}

#[test]
fn datasheet_lib_id_missing() {
    match datasheet_lib_id(None, None, "") {
        Err(CliError::Diagnostic(d)) => {
            assert_eq!(d.code, "CLI:MISSING_LIB_ID");
            assert_eq!(d.severity, Severity::Error);
            assert_eq!(d.message, "Could not determine a part identifier for the output file");
            assert!(d.entities.is_empty());
            assert_eq!(
                d.hint.as_deref(),
                Some("Provide --lib-id, or make sure the LLM emits component.name or component.lib_id")
            );
        }
        other => panic!("unexpected {:?}", other),
    }
}

#[test]
fn symbol_lib_ids_in_file_order() {
    let lib = "(kicad_symbol_lib (version 20231120)\n  (symbol \"RP2354a\" (pin power_in line (at 0 0 0)))\n  (symbol \"LDO\" (extends \"RP2354a\"))\n  (symbol)\n)";
    assert_eq!(
        symbol_lib_ids(lib),
        Ok(vec!["RP2354a".to_string(), "LDO".to_string()])
    );
}

#[test]
fn symbol_lib_ids_of_atom_is_empty() {
    assert_eq!(symbol_lib_ids("kicad_symbol_lib"), Ok(Vec::new()));
}

#[test]
fn symbol_lib_ids_parse_error() {
    assert_eq!(symbol_lib_ids("(kicad_symbol_lib"), Err(ParseError::UnexpectedEof));
}

#[test]
fn footprint_model_path_found() {
    let fp = "(footprint \"QFN-60\" (layer \"F.Cu\") (pad \"1\" smd rect (at 0 0)) (model \"${KICAD10_3DMODEL_DIR}/footprints.3dshapes/QFN-60.step\" (offset (xyz 0 0 0))))";
    assert_eq!(
        parse_footprint_model(fp),
        Ok(Some("${KICAD10_3DMODEL_DIR}/footprints.3dshapes/QFN-60.step".to_string()))
    );
}

#[test]
fn footprint_model_first_depth_first() {
    let t = parse("(a (b (model \"one.step\")) (model two.step))").unwrap();
    assert_eq!(extract_model_path(&t), Some("one.step".to_string()));
}

#[test]
fn footprint_model_absent() {
    assert_eq!(parse_footprint_model("(footprint \"R\" (model))"), Ok(None));
    assert_eq!(parse_footprint_model("model"), Ok(None));
    assert_eq!(parse_footprint_model("(footprint"), Err(ParseError::UnexpectedEof));
}
