use copperleaf::cli::part::SymPin;
use copperleaf::kicad::flatten::{flatten_extends, merge_conversions, parse_i64};
use copperleaf::kicad::sexpr::{parse, ParseError, Sexpr};
use copperleaf::kicad::sym_lib::{
    find_symbol, library_pins_ok, read_symbol_texts, resolve_extends, strip_library, symbol_pins_complete, PinText,
    SymbolDef,
};

fn pin_values(p: &PinText) -> Option<SymPin> {
    let mut pos = (0.0f64, 0.0f64);
    let mut rotation = 0.0f64;
    for (x, y, r) in &p.ats {
        pos = (x.parse().ok()?, y.parse().ok()?);
        rotation = r.parse().ok()?;
    }
    let mut length = 2.54f64;
    for l in &p.lengths {
        length = l.parse().ok()?;
    }
    Some(SymPin {
        name: p.name.clone(),
        number: p.number.clone(),
        pos: (pos.0.to_bits(), pos.1.to_bits()),
        rotation: rotation.to_bits(),
        pin_type: p.pin_type.clone(),
        length: length.to_bits(),
    })
}

fn parse_symbol_lib(source: &str) -> Result<Vec<SymbolDef>, ParseError> {
    let mut symbols: Vec<SymbolDef> = read_symbol_texts(source)?
        .into_iter()
        .map(|t| SymbolDef {
            lib_id: t.lib_id,
            extends: t.extends,
            pins: t.pins.iter().filter_map(pin_values).collect(),
            footprint: t.footprint,
            datasheet: t.datasheet,
            raw: t.raw,
        })
        .collect();
    resolve_extends(&mut symbols);
    Ok(symbols)
}

fn f(bits: u64) -> f64 {
    f64::from_bits(bits)
}

fn datasheet_lib() -> &'static str {
    r#"(kicad_symbol_lib
  (symbol "RP2354a"
    (property "Datasheet" "https://example.com/rp2354a.pdf"
      (at 0 0 0)
      (show_name no)
      (do_not_autoplace no)
      (hide yes)
      (effects (font (size 1.27 1.27)))
    )
    (pin power_in line (at -15.24 5.08 0) (length 2.54) (name "VDD") (number "1"))
    (pin power_in line (at -15.24 -5.08 0) (length 2.54) (name "GND") (number "2"))
  )
)"#
}

fn sample_lib() -> &'static str {
    r#"(kicad_symbol_lib
  (symbol "RP2354a"
    (pin power_in line (at -15.24 5.08 0) (length 2.54) (name "VDD") (number "1"))
    (pin power_in line (at -15.24 -5.08 0) (length 2.54) (name "GND") (number "2"))
  )
  (symbol "RP2040"
    (pin bidirectional line (at 10.16 0 180) (length 3.81) (name "GPIO0") (number "3"))
  )
)"#
}

#[test]
fn sym_parser_parse_extracts_symbol_names() {
    let symbols = parse_symbol_lib(datasheet_lib()).unwrap();
    assert_eq!(symbols.len(), 1);
    assert_eq!(symbols[0].lib_id, "RP2354a");
    assert_eq!(symbols[0].pins.len(), 2);
}

#[test]
fn parse_extracts_two_symbol_names() {
    let symbols = parse_symbol_lib(sample_lib()).unwrap();
    assert_eq!(symbols.len(), 2);
    assert_eq!(symbols[0].lib_id, "RP2354a");
    assert_eq!(symbols[1].lib_id, "RP2040");
}

#[test]
fn parse_extracts_datasheet() {
    let symbols = parse_symbol_lib(datasheet_lib()).unwrap();
    assert_eq!(symbols[0].datasheet.as_deref(), Some("https://example.com/rp2354a.pdf"));
}

#[test]
fn extends_inherits_datasheet() {
    let lib = r#"(kicad_symbol_lib
  (symbol "PARENT"
    (property "Datasheet" "https://example.com/parent.pdf"
      (at 0 0 0)
      (show_name no)
      (do_not_autoplace no)
      (hide yes)
      (effects (font (size 1.27 1.27)))
    )
    (pin power_in line (at 0 0 0) (length 2.54) (name "VDD") (number "1"))
  )
  (symbol "CHILD"
    (extends "PARENT")
  )
)"#;
    let symbols = parse_symbol_lib(lib).unwrap();
    assert_eq!(symbols.len(), 2);
    let child = symbols.iter().find(|s| s.lib_id == "CHILD").unwrap();
    assert_eq!(child.datasheet.as_deref(), Some("https://example.com/parent.pdf"));
}

#[test]
fn parse_extracts_pin_geometry() {
    let symbols = parse_symbol_lib(sample_lib()).unwrap();
    let vdd = &symbols[0].pins[0];
    assert_eq!(vdd.name, "VDD");
    assert_eq!(vdd.number, "1");
    assert!((f(vdd.pos.0) - -15.24).abs() < 1e-9);
    assert!((f(vdd.pos.1) - 5.08).abs() < 1e-9);
    assert!((f(vdd.rotation) - 0.0).abs() < 1e-9);
    assert!((f(vdd.length) - 2.54).abs() < 1e-9);
    assert_eq!(vdd.pin_type, "power_in");
}

#[test]
fn parse_extracts_multiple_pins() {
    let symbols = parse_symbol_lib(sample_lib()).unwrap();
    assert_eq!(symbols[0].pins.len(), 2);
    assert_eq!(symbols[0].pins[1].name, "GND");
}

#[test]
fn find_symbol_strips_library_prefix() {
    let symbols = parse_symbol_lib(sample_lib()).unwrap();
    assert!(find_symbol(&symbols, "RP2040:RP2354a").is_some());
    assert!(find_symbol(&symbols, "RP2354a").is_some());
    assert!(find_symbol(&symbols, "Missing").is_none());
}

#[test]
fn parse_extracts_pins_from_nested_unit_symbol() {
    let lib = r#"(kicad_symbol_lib
  (symbol "RP2354a"
    (symbol "RP2354a_0_1"
      (pin power_in line (at -15.24 5.08 0) (length 2.54) (name "VDD") (number "1"))
    )
  )
)"#;
    let symbols = parse_symbol_lib(lib).unwrap();
    assert_eq!(symbols.len(), 1);
    assert_eq!(symbols[0].pins.len(), 1);
    assert_eq!(symbols[0].pins[0].name, "VDD");
}

#[test]
fn parse_uses_defaults_for_missing_fields() {
    let lib = r#"(kicad_symbol_lib
  (symbol "Bad"
    (pin power_in line (at -15.24 5.08 0) (length 2.54) (name "VDD"))
    (pin power_in line (at -15.24 -5.08 0) (length 2.54) (number "2"))
    (pin power_in line (length 2.54) (name "NO_AT") (number "3"))
  )
)"#;
    let symbols = parse_symbol_lib(lib).unwrap();
    let pins = &symbols[0].pins;
    assert_eq!(pins.len(), 3);
    assert_eq!(pins[0].name, "VDD");
    assert_eq!(pins[0].number, "");
    assert_eq!(pins[1].name, "");
    assert_eq!(pins[1].number, "2");
    assert_eq!(pins[2].name, "NO_AT");
    assert_eq!((f(pins[2].pos.0), f(pins[2].pos.1)), (0.0, 0.0));
    assert_eq!(f(pins[2].rotation), 0.0);
}

#[test]
fn parse_extracts_footprint_property() {
    let lib = r#"(kicad_symbol_lib
  (symbol "SOIC8"
    (property "Reference" "U" (at 0 0 0) (effects (font (size 1.27 1.27))))
    (property "Value" "SOIC8" (at 0 0 0) (effects (font (size 1.27 1.27))))
    (property "Footprint" "Package_SOIC:SOIC-8_3.9x4.9mm_P1.27mm" (at 0 0 0) (effects (font (size 1.27 1.27)) (hide yes)))
    (pin power_in line (at 0 0 180) (length 2.54) (name "VDD") (number "1"))
  )
  (symbol "NoFootprint"
    (pin power_in line (at 0 0 180) (length 2.54) (name "VIN") (number "1"))
  )
)"#;
    let symbols = parse_symbol_lib(lib).unwrap();
    assert_eq!(symbols[0].footprint, Some("Package_SOIC:SOIC-8_3.9x4.9mm_P1.27mm".to_string()));
    assert_eq!(symbols[1].footprint, None);
}

#[test]
fn parse_extracts_footprint_from_nested_unit_symbol() {
    let lib = r#"(kicad_symbol_lib
  (symbol "OpAmp"
    (property "Footprint" "Package_DIP:DIP-8_W7.62mm" (at 0 0 0) (effects (font (size 1.27 1.27)) (hide yes)))
    (symbol "OpAmp_0_1"
      (pin input line (at -5.08 2.54 0) (length 2.54) (name "IN+") (number "3"))
    )
  )
)"#;
    let symbols = parse_symbol_lib(lib).unwrap();
    assert_eq!(symbols[0].footprint, Some("Package_DIP:DIP-8_W7.62mm".to_string()));
    assert_eq!(symbols[0].pins.len(), 1);
    assert_eq!(symbols[0].pins[0].name, "IN+");
}

#[test]
fn pin_texts_kept_as_written() {
    let lib = r#"(kicad_symbol_lib
  (symbol "U" (pin input line (at 1.5 -2 90) (at 3 4 180) (length 5) (name "A") (number "7")))
)"#;
    let texts = read_symbol_texts(lib).unwrap();
    let p = &texts[0].pins[0];
    assert_eq!(p.pin_type, "input");
    assert_eq!(p.ats.len(), 2);
    assert_eq!(p.ats[1], ("3".to_string(), "4".to_string(), "180".to_string()));
    assert_eq!(p.lengths, vec!["5".to_string()]);
    assert_eq!(p.name, "A");
    assert_eq!(p.number, "7");
}

#[test]
fn pin_with_short_entry_is_dropped() {
    let lib = r#"(kicad_symbol_lib
  (symbol "U"
    (pin input line (at 1 2) (name "A") (number "1"))
    (pin input line (name) (number "2"))
    (pin output line (name "C") (number "3"))
  )
)"#;
    let texts = read_symbol_texts(lib).unwrap();
    assert_eq!(texts[0].pins.len(), 1);
    assert_eq!(texts[0].pins[0].name, "C");
}

#[test]
fn pin_with_bad_number_is_dropped() {
    let lib = r#"(kicad_symbol_lib
  (symbol "U"
    (pin input line (at x 0 0) (name "A") (number "1"))
    (pin input line (at 0 0 0) (name "B") (number "2"))
  )
)"#;
    let symbols = parse_symbol_lib(lib).unwrap();
    assert_eq!(symbols[0].pins.len(), 1);
    assert_eq!(symbols[0].pins[0].name, "B");
}

#[test]
fn first_footprint_and_datasheet_win() {
    let lib = r#"(kicad_symbol_lib
  (symbol "U"
    (property "Footprint" "")
    (property "Footprint" "A:B")
    (property "Footprint" "C:D")
    (property "Datasheet" "one")
    (property "Datasheet" "two")
  )
)"#;
    let texts = read_symbol_texts(lib).unwrap();
    assert_eq!(texts[0].footprint.as_deref(), Some("A:B"));
    assert_eq!(texts[0].datasheet.as_deref(), Some("one"));
}

#[test]
fn extends_chain_resolves_parents_first() {
    let lib = r#"(kicad_symbol_lib
  (symbol "C" (extends "lib:B") (pin input line (name "Z") (number "9")))
  (symbol "B" (extends "A") (property "Footprint" "F:B") (pin input line (name "Y") (number "2")))
  (symbol "A" (property "Footprint" "F:A") (property "Datasheet" "ds-a")
    (pin input line (name "X") (number "1")) (pin input line (name "Y") (number "3")))
)"#;
    let symbols = parse_symbol_lib(lib).unwrap();
    let names = |s: &SymbolDef| s.pins.iter().map(|p| p.name.clone()).collect::<Vec<_>>();
    assert_eq!(names(&symbols[1]), vec!["Y", "X"]);
    assert_eq!(names(&symbols[0]), vec!["Z", "Y", "X"]);
    assert_eq!(symbols[0].footprint.as_deref(), Some("F:B"));
    assert_eq!(symbols[0].datasheet.as_deref(), Some("ds-a"));
    assert_eq!(symbols[1].pins[0].number, "2");
}

#[test]
fn extends_cycle_and_self_are_left_alone() {
    let lib = r#"(kicad_symbol_lib
  (symbol "S" (extends "S") (pin input line (name "s") (number "1")))
  (symbol "P" (extends "Q") (pin input line (name "p") (number "1")))
  (symbol "Q" (extends "P") (pin input line (name "q") (number "1")))
  (symbol "M" (extends "Missing") (pin input line (name "m") (number "1")))
)"#;
    let symbols = parse_symbol_lib(lib).unwrap();
    let names = |s: &SymbolDef| s.pins.iter().map(|p| p.name.clone()).collect::<Vec<_>>();
    assert_eq!(names(&symbols[0]), vec!["s"]);
    assert_eq!(names(&symbols[1]), vec!["p", "q"]);
    assert_eq!(names(&symbols[2]), vec!["q", "p"]);
    assert_eq!(names(&symbols[3]), vec!["m"]);
}

#[test]
fn strip_library_drops_prefix() {
    assert_eq!(strip_library("lib:part"), "part");
    assert_eq!(strip_library("a:b:c"), "c");
    assert_eq!(strip_library("plain"), "plain");
}

#[test]
fn read_symbol_texts_parse_error() {
    assert!(read_symbol_texts("(kicad_symbol_lib").is_err());
}

#[test]
fn flatten_extends_merges_split_conversions() {
    let lib = r#"(kicad_symbol_lib
  (symbol "Parent"
    (symbol "Parent_0_1"
      (rectangle (start -5.08 -5.08) (end 5.08 5.08))
    )
    (symbol "Parent_1_0"
      (pin power_in line (at -2.54 -5.08 90) (length 2.54) (name "VREG_PGND") (number "1"))
    )
    (symbol "Parent_1_1"
      (pin power_in line (at 0 -5.08 90) (length 2.54) (name "GND") (number "2"))
      (pin bidirectional line (at 5.08 0 180) (length 2.54) (name "GPIO0") (number "3"))
    )
  )
  (symbol "Child" (extends "Parent")
    (property "Reference" "U" (at 0 0 0))
  )
)"#;
    let symbols = parse_symbol_lib(lib).unwrap();
    let child = symbols.iter().find(|s| s.lib_id == "Child").unwrap();
    let flat = flatten_extends(child, &symbols);
    let flat_str = flat.to_string();
    assert!(flat_str.contains("\"Child_1_1\""));
    assert!(!flat_str.contains("\"Child_1_0\""));
    assert!(flat_str.contains("(name \"VREG_PGND\")"));
    assert!(flat_str.contains("(name \"GND\")"));
    assert!(flat_str.contains("(name \"GPIO0\")"));
    assert!(flat_str.contains("\"Child_0_1\""));
    assert!(flat_str.contains("rectangle"));
}

#[test]
fn flatten_without_parent_is_unchanged() {
    let lib = r#"(kicad_symbol_lib
  (symbol "A" (pin input line (name "X") (number "1")))
  (symbol "B" (extends "Missing") (pin input line (name "Y") (number "1")))
)"#;
    let symbols = parse_symbol_lib(lib).unwrap();
    for s in &symbols {
        assert_eq!(flatten_extends(s, &symbols).to_string(), s.raw.to_string());
    }
}

#[test]
fn flatten_drops_extends_and_keeps_own_nodes_first() {
    let lib = r#"(kicad_symbol_lib
  (symbol "P" (property "Value" "P") (pin input line (name "X") (number "1")) (polyline (pts)) (text "t" (at 0 0 0)))
  (symbol "C" (extends "lib:P") (pin input line (name "X") (number "1")))
)"#;
    let symbols = parse_symbol_lib(lib).unwrap();
    let flat = flatten_extends(&symbols[1], &symbols);
    assert_eq!(
        flat.to_string(),
        "(symbol \"C\"\n  (pin input line\n    (name \"X\")\n    (number \"1\"))\n  (polyline\n    (pts)))"
    );
}

#[test]
fn merge_keeps_single_conversion_and_orders_units() {
    let node = parse(
        r#"(s (symbol "U_2_3" (a)) (x) (symbol "U_1_2" (b) (c)) (symbol "U_1_1" (c) (d)) (symbol "U_0_1" (e)))"#,
    )
    .unwrap();
    let Sexpr::List(cs) = node else { panic!("list") };
    let merged = merge_conversions(&cs, &"U_".chars().collect());
    let texts: Vec<String> = merged.iter().map(|n| n.to_string()).collect();
    assert_eq!(texts[0], "s");
    assert_eq!(texts[1], "(x)");
    assert_eq!(texts[2], "(symbol \"U_0_1\"\n  (e))");
    assert_eq!(texts[3], "(symbol \"U_2_3\"\n  (a))");
    assert_eq!(texts[4], "(symbol \"U_1_1\"\n  (c)\n  (d)\n  (b))");
    assert_eq!(texts.len(), 5);
}

#[test]
fn parse_i64_follows_std() {
    let p = |s: &str| parse_i64(&s.chars().collect::<Vec<char>>());
    assert_eq!(p("42"), Some(42));
    assert_eq!(p("+7"), Some(7));
    assert_eq!(p("-9223372036854775808"), Some(i64::MIN));
    assert_eq!(p("9223372036854775807"), Some(i64::MAX));
    assert_eq!(p("9223372036854775808"), None);
    assert_eq!(p("-"), None);
    assert_eq!(p(""), None);
    assert_eq!(p("1a"), None);
    for s in ["0", "-0", "123", "-45", "+6"] {
        assert_eq!(p(s), s.parse::<i64>().ok());
    }
}

#[test]
fn short_pins_are_found() {
    let ok = parse(r#"(lib (symbol "U" (pin input line (name "A")) (symbol "U_1_1" (pin output line))))"#).unwrap();
    assert!(library_pins_ok(&ok));
    let short = parse(r#"(lib (symbol "U" (symbol "U_1_1" (pin output))))"#).unwrap();
    assert!(!library_pins_ok(&short));
    let Sexpr::List(nodes) = &short else { panic!("list") };
    assert!(!symbol_pins_complete(&nodes[1]));
    assert!(symbol_pins_complete(&nodes[0]));
    let outside = parse(r#"(lib (pin output) (symbol "V"))"#).unwrap();
    assert!(library_pins_ok(&outside));
}
