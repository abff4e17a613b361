use copperleaf::kicad::board::{
    CompiledBoard, CompiledComponent, ComponentMeta, Connection, Net, Pin, Role,
};
use copperleaf::kicad::common::{
    build_symbol_sexpr, footprint_ref, format_hundredths, local_footprint_name,
    property_sym_node, refdes_prefix as refdes_prefix10, role_to_pin_type, symbol_lib_id,
    symbol_lib_nick, symbol_name, SymbolProps,
};
use copperleaf::kicad::fp_emitter::EmitError;
use copperleaf::kicad::fp_geom;
use copperleaf::kicad::lib_emitter::{emit_symbol_lib, footprint_filter, symbol_def_sexpr};
use copperleaf::kicad::netlist::emit_netlist;
use copperleaf::kicad::pcb_parser::layer_name_to_index;
use copperleaf::kicad::project::{emit_fp_lib_table, emit_sym_lib_table};
use copperleaf::kicad::sym_layout::{
    body_rect_sexpr, layout_symbol, placed_pin_sexpr, LayoutPin, GRID,
};
use copperleaf::kicad::KiCad;
use copperleaf::kicad6::common::{build_net_codes as build_net_codes6, refdes_prefix};
use copperleaf::kicad6::design::{
    ComponentInst, Design, Net as Net6, Pin as Pin6, Role as Role6,
};
use copperleaf::kicad6::netlist::emit_netlist as emit_netlist6;

fn meta(symbol: Option<&str>, footprint: Option<&str>) -> ComponentMeta {
    ComponentMeta {
        symbol: symbol.map(|s| s.to_string()),
        footprint: footprint.map(|s| s.to_string()),
        datasheet: None,
        description: None,
        model_3d: None,
        model_3d_data: None,
    }
}

fn make_comp() -> CompiledComponent {
    CompiledComponent {
        refdes: "U1".into(),
        meta: ComponentMeta {
            symbol: Some("TestLib:TestPart".into()),
            footprint: Some("TestFP:QFP-32".into()),
            datasheet: Some("https://example.com/ds.pdf".into()),
            description: Some("A test component.".into()),
            model_3d: None,
            model_3d_data: None,
        },
        pins: vec![
            Pin { name: "VDD".into(), number: Some("1".into()), role: Role::PowerIn, has_sig_spec: false },
            Pin { name: "GND".into(), number: Some("2".into()), role: Role::Gnd, has_sig_spec: false },
            Pin { name: "CLK".into(), number: Some("3".into()), role: Role::DigitalIO, has_sig_spec: false },
        ],
        constraints: vec![],
    }
}

#[test]
fn symbol_lib_starts_with_header() {
    let comp = make_comp();
    let out = emit_symbol_lib(&[&comp], "TestLib");
    assert!(out.starts_with("(kicad_symbol_lib"), "{}", out);
    assert!(out.contains("\"TestPart\""), "{}", out);
}

#[test]
fn symbol_lib_contains_pins() {
    let comp = make_comp();
    let out = emit_symbol_lib(&[&comp], "TestLib");
    assert!(out.contains("\"VDD\""), "{}", out);
    assert!(out.contains("\"GND\""), "{}", out);
    assert!(out.contains("\"CLK\""), "{}", out);
}

#[test]
fn symbol_lib_has_metadata() {
    let comp = make_comp();
    let out = emit_symbol_lib(&[&comp], "TestLib");
    assert!(out.contains("https://example.com/ds.pdf"), "{}", out);
    assert!(out.contains("A test component."), "{}", out);
    assert!(out.contains("ki_fp_filters"), "{}", out);
    assert!(out.contains("TestFP:QFP-32"), "{}", out);
}

#[test]
fn symbol_pins_use_layout_not_pad_positions() {
    let comp = make_comp();
    let out = emit_symbol_lib(&[&comp], "TestLib");
    // Power pin on top, ground on bottom — not at pad position (0, 0).
    assert!(!out.contains("(at 0 0 0.0)"), "{}", out);
}

#[test]
fn symbol_lib_deduplicates() {
    let comp = make_comp();
    let out = emit_symbol_lib(&[&comp, &comp], "TestLib");
    // Passing the same component twice should produce only one (symbol ...)
    // definition.  Count occurrences of the unit sub-symbol — there should
    // be exactly one.
    let units = out.matches("_0_1").count();
    assert_eq!(units, 1, "expected one sub-unit, got {}: {}", units, out);
}

#[test]
fn symbol_lib_keeps_distinct_names_in_order() {
    let a = make_comp();
    let mut b = make_comp();
    b.meta.symbol = Some("Other:Second".into());
    let out = emit_symbol_lib(&[&a, &b, &a], "TestLib");
    assert_eq!(out.matches("_0_1").count(), 2, "{}", out);
    let first = out.find("\"TestPart_0_1\"").unwrap();
    let second = out.find("\"Second_0_1\"").unwrap();
    assert!(first < second);
    assert!(out.ends_with(")\n"));
}

#[test]
fn symbol_def_layout_exact() {
    let comp = make_comp();
    let s = symbol_def_sexpr(&comp, "TestPart").to_string();
    // VDD on top, GND at the bottom, CLK on the left; the body is 2 grid
    // units wide each way and 1 high.
    assert!(s.contains("(pin power_in line\n"), "{}", s);
    assert!(s.contains("(at 0 5.08 270)"), "{}", s);
    assert!(s.contains("(at 0 -5.08 90)"), "{}", s);
    assert!(s.contains("(at -7.62 0 0)"), "{}", s);
    assert!(s.contains("(start -5.08 2.54)"), "{}", s);
    assert!(s.contains("(end 5.08 -2.54)"), "{}", s);
    assert!(s.contains("(property \"Reference\" \"U\"\n"), "{}", s);
    assert!(s.contains("(at -5.08 3.81 0)"), "{}", s);
    assert!(s.contains("(at -5.08 -3.81 0)"), "{}", s);
    assert!(s.contains("(property \"ki_fp_filters\" \"QFP?32*\"\n"), "{}", s);
    assert!(s.contains("(length 2.54)"), "{}", s);
}

fn pin(name: &str, role: Role) -> LayoutPin {
    LayoutPin {
        name: name.to_string(),
        number: name.to_string(),
        role,
    }
}

#[test]
fn power_top_ground_bottom_signals_split() {
    let pins = [
        pin("VDD", Role::PowerIn),
        pin("GND", Role::Gnd),
        pin("D0", Role::DigitalIO),
        pin("D1", Role::DigitalIO),
        pin("D2", Role::DigitalIO),
        pin("D3", Role::DigitalIO),
    ];
    let layout = layout_symbol(&pins);
    let get = |name: &str| layout.pins.iter().find(|p| p.name == name).unwrap();

    // VDD on top (rotation 270), GND on bottom (rotation 90).
    assert_eq!(get("VDD").rotation, 270);
    assert_eq!(get("GND").rotation, 90);
    // Signals split left/right.
    assert_eq!(get("D0").rotation, 0);
    assert_eq!(get("D1").rotation, 0);
    assert_eq!(get("D2").rotation, 180);
    assert_eq!(get("D3").rotation, 180);
}

#[test]
fn all_pins_on_grid() {
    let mut v: Vec<LayoutPin> = (0..61)
        .map(|i| pin(&format!("P{i}"), Role::DigitalIO))
        .collect();
    v.push(LayoutPin {
        name: "VDD".to_string(),
        number: "62".to_string(),
        role: Role::PowerIn,
    });
    let layout = layout_symbol(&v);
    let grid_mm = GRID as f64 / 100.0;
    for p in &layout.pins {
        let gx = (p.x as f64 / 100.0) / grid_mm;
        let gy = (p.y as f64 / 100.0) / grid_mm;
        assert!(
            (gx - gx.round()).abs() < 1e-9,
            "pin {} x={} off grid",
            p.name,
            p.x
        );
        assert!(
            (gy - gy.round()).abs() < 1e-9,
            "pin {} y={} off grid",
            p.name,
            p.y
        );
    }
}

#[test]
fn no_overlapping_pins() {
    let v: Vec<LayoutPin> = (0..30)
        .map(|i| pin(&format!("P{i}"), Role::DigitalIO))
        .collect();
    let layout = layout_symbol(&v);
    let mut positions: Vec<(i64, i64)> = layout.pins.iter().map(|p| (p.x, p.y)).collect();
    positions.sort();
    positions.dedup();
    assert_eq!(positions.len(), layout.pins.len(), "pins overlap");
}

#[test]
fn body_encloses_pin_rows() {
    let pins = [pin("A", Role::DigitalIO), pin("B", Role::DigitalIO)];
    let layout = layout_symbol(&pins);
    for p in &layout.pins {
        assert!(p.x.abs() > layout.x2.abs(), "pin anchor outside body edge");
    }
    assert!(layout.y1 > 0 && layout.y2 < 0);
}

#[test]
fn thermal_name_goes_bottom() {
    let pins = [pin("EXP", Role::DigitalIO), pin("IO", Role::DigitalIO)];
    let layout = layout_symbol(&pins);
    let exp = layout.pins.iter().find(|p| p.name == "EXP").unwrap();
    assert_eq!(exp.rotation, 90);
}

#[test]
fn converter_power_pins_go_to_the_sides() {
    let pins = [
        pin("VIN", Role::PowerIn),
        pin("VOUT", Role::PowerOut),
        pin("ep_pad", Role::PowerIn),
        pin("EN", Role::DigitalIO),
    ];
    let layout = layout_symbol(&pins);
    let get = |name: &str| layout.pins.iter().find(|p| p.name == name).unwrap();
    assert_eq!(get("VIN").rotation, 0);
    assert_eq!(get("VOUT").rotation, 180);
    assert_eq!(get("EN").rotation, 0);
    // Lower-case thermal names are recognised through upper-casing.
    assert_eq!(get("ep_pad").rotation, 90);
    assert_eq!(layout.pins.len(), 4);
    // Left: VIN then EN; right: VOUT; bottom: ep_pad.
    let names: Vec<&str> = layout.pins.iter().map(|p| p.name.as_str()).collect();
    assert_eq!(names, vec!["VIN", "EN", "VOUT", "ep_pad"]);
    assert_eq!(get("VIN").y, 0);
    assert_eq!(get("EN").y, -254);
    assert_eq!(layout.x2, 508);
    assert_eq!(layout.y1, 508);
}

#[test]
fn empty_layout() {
    let layout = layout_symbol(&[]);
    assert!(layout.pins.is_empty());
    assert_eq!((layout.x1, layout.y1, layout.x2, layout.y2), (-508, 254, 508, -254));
    let rect = body_rect_sexpr(&layout).to_string();
    assert_eq!(
        rect,
        "(rectangle\n  (start -5.08 2.54)\n  (end 5.08 -2.54)\n  (stroke\n    (width 0.254)\n    (type default))\n  (fill\n    (type background)))"
    );
}

#[test]
fn placed_pin_prints() {
    let pins = [pin("A", Role::Passive)];
    let layout = layout_symbol(&pins);
    let s = placed_pin_sexpr(&layout.pins[0]).to_string();
    assert!(s.starts_with("(pin passive line\n  (at -7.62 0 0)\n  (length 2.54)\n"), "{}", s);
}

#[test]
fn hundredths_format_like_floats() {
    assert_eq!(format_hundredths(2540), "25.4");
    assert_eq!(format_hundredths(10000), "100");
    assert_eq!(format_hundredths(254), "2.54");
    assert_eq!(format_hundredths(0), "0");
    assert_eq!(format_hundredths(-50), "-0.5");
    assert_eq!(format_hundredths(-1905), "-19.05");
    assert_eq!(format_hundredths(7), "0.07");
}

#[test]
fn property_node_layout() {
    let s = property_sym_node("Footprint", "A:B", (0, 0), true, false).to_string();
    assert_eq!(
        s,
        "(property \"Footprint\" \"A:B\"\n  (at 0 0 0)\n  (hide yes)\n  (effects\n    (font\n      (size 1.27 1.27))))"
    );
    let s = property_sym_node("Reference", "U", (-508, 381), false, true).to_string();
    assert!(s.contains("(at -5.08 3.81 0)"));
    assert!(s.ends_with("(justify left)))"), "{}", s);
}

#[test]
fn build_symbol_without_filter() {
    let layout = layout_symbol(&[pin("A", Role::DigitalIO)]);
    let props = SymbolProps {
        lib_id: "lib:X",
        reference: "U",
        value: "X",
        footprint: "fp:Y",
        datasheet: "~",
        description: "",
        fp_filter: None,
    };
    let s = build_symbol_sexpr(&props, &layout).to_string();
    assert!(s.starts_with("(symbol \"lib:X\"\n"), "{}", s);
    assert!(!s.contains("ki_fp_filters"));
    assert!(s.contains("(symbol \"X_0_1\""), "{}", s);
}

#[test]
fn footprint_filter_escapes() {
    let mut comp = make_comp();
    assert_eq!(footprint_filter(&comp), "QFP?32*");
    comp.meta.footprint = None;
    comp.refdes = "J_1".into();
    assert_eq!(footprint_filter(&comp), "J?1*");
}

#[test]
fn component_references() {
    let mut comp = make_comp();
    assert_eq!(footprint_ref(&comp), "TestFP:QFP-32");
    assert_eq!(symbol_lib_id(&comp), "TestLib:TestPart");
    assert_eq!(symbol_lib_nick(&comp), "TestLib");
    assert_eq!(symbol_name(&comp), "TestPart");
    assert_eq!(local_footprint_name(&comp), None);
    comp.meta = meta(Some("Local"), Some("LocalFp"));
    assert_eq!(symbol_lib_id(&comp), "copperleaf:Local");
    assert_eq!(symbol_lib_nick(&comp), "copperleaf");
    assert_eq!(local_footprint_name(&comp), Some("LocalFp".to_string()));
    comp.meta = meta(None, None);
    assert_eq!(footprint_ref(&comp), "copperleaf:U1");
    assert_eq!(symbol_name(&comp), "U1");
    assert_eq!(local_footprint_name(&comp), Some("U1".to_string()));
    assert_eq!(role_to_pin_type(Role::Gnd), "power_in");
    assert_eq!(role_to_pin_type(Role::DiffNeg), "bidirectional");
}

#[test]
fn refdes_prefix_extracted() {
    assert_eq!(refdes_prefix("U1"), "U");
    assert_eq!(refdes_prefix("C2"), "C");
    assert_eq!(refdes_prefix("3V3"), "?");
}

#[test]
fn refdes_prefix_unicode_letters() {
    assert_eq!(refdes_prefix10("Ω12"), "Ω");
    assert_eq!(refdes_prefix10(""), "?");
}

#[test]
fn layer_name_parsing() {
    // 2-layer board
    assert_eq!(layer_name_to_index("F.Cu", 2), Some(0));
    assert_eq!(layer_name_to_index("B.Cu", 2), Some(1));

    // 4-layer board
    assert_eq!(layer_name_to_index("F.Cu", 4), Some(0));
    assert_eq!(layer_name_to_index("In1.Cu", 4), Some(1));
    assert_eq!(layer_name_to_index("In2.Cu", 4), Some(2));
    assert_eq!(layer_name_to_index("B.Cu", 4), Some(3));

    // Invalid names
    assert_eq!(layer_name_to_index("F.SilkS", 2), None);
    assert_eq!(layer_name_to_index("", 2), None);
}

#[test]
fn fp_lib_table_points_at_directory() {
    let s = emit_fp_lib_table("copperleaf");
    assert!(s.contains("(name \"copperleaf\")"), "{s}");
    assert!(s.contains("${KIPRJMOD}/footprints"), "{s}");
    assert!(!s.contains(".kicad_mod"), "{s}");
}

#[test]
fn sym_lib_table_lists_libraries() {
    let s = emit_sym_lib_table(&["a".to_string(), "b".to_string()]);
    assert!(s.starts_with("(sym_lib_table"), "{s}");
    assert!(s.contains("(name \"a\")"), "{s}");
    assert!(s.contains("(name \"b\")"), "{s}");
    assert!(s.ends_with("\n"));
}

#[test]
fn pad_numbers_default_to_index() {
    let p = Pin { name: "A".into(), number: None, role: Role::Passive, has_sig_spec: false };
    assert_eq!(fp_geom::pin_number(&p, 0), "1");
    assert_eq!(fp_geom::pin_number(&p, 41), "42");
    let q = Pin { name: "B".into(), number: Some("A3".into()), role: Role::Passive, has_sig_spec: false };
    assert_eq!(fp_geom::pin_number(&q, 7), "A3");
}

#[test]
fn kicad_project_names() {
    let k = KiCad::new();
    assert_eq!(k.project_name(), "copperleaf");
    let k = k.with_project_name("board");
    assert_eq!(k.project_name(), "board");
    assert_eq!(k.output_file("kicad_pcb"), "board.kicad_pcb");
    assert_eq!(KiCad::default().project_name(), "");
}

#[test]
fn emit_error_values() {
    let e = EmitError::Base64Decode("bad".into());
    assert_eq!(e.clone(), EmitError::Base64Decode("bad".into()));
}

#[test]
fn netlist_lists_components_and_nets() {
    let board = CompiledBoard {
        components: vec![CompiledComponent {
            refdes: "R1".into(),
            meta: meta(None, None),
            pins: vec![Pin { name: "1".into(), number: None, role: Role::Passive, has_sig_spec: false }],
            constraints: vec![],
        }],
        nets: vec![Net { name: "GND".into() }],
        connections: vec![Connection { component: 0, pin: "1".into(), net: "GND".into() }],
    };
    let out = emit_netlist(&board);
    assert!(out.starts_with("(export"), "{out}");
    assert!(out.contains("(ref \"R1\")"), "{out}");
    assert!(out.contains("(value \"R\")"), "{out}");
    assert!(out.contains("(name \"GND\")"), "{out}");
    assert!(out.contains("(code 1)"), "{out}");
    // A node names its component by index.
    assert!(out.contains("(ref \"0\")"), "{out}");
    assert!(out.contains("(pintype \"passive\")"), "{out}");
    assert!(out.ends_with("\n"));
    assert_eq!(out, emit_netlist(&board));
}

fn make_board() -> CompiledBoard {
    CompiledBoard {
        components: vec![
            CompiledComponent {
                refdes: "U1".into(),
                meta: meta(None, None),
                pins: vec![
                    Pin { name: "VIN".into(), number: None, role: Role::PowerIn, has_sig_spec: false },
                    Pin { name: "GND".into(), number: None, role: Role::Gnd, has_sig_spec: false },
                ],
                constraints: vec![],
            },
            CompiledComponent {
                refdes: "U2".into(),
                meta: meta(None, None),
                pins: vec![
                    Pin { name: "VDD".into(), number: None, role: Role::PowerIn, has_sig_spec: false },
                    Pin { name: "GPIO".into(), number: None, role: Role::DigitalIO, has_sig_spec: false },
                ],
                constraints: vec![],
            },
        ],
        nets: vec![Net { name: "VBUS".into() }, Net { name: "V3V3".into() }],
        connections: vec![
            Connection { component: 0, pin: "VIN".into(), net: "VBUS".into() },
            Connection { component: 1, pin: "VDD".into(), net: "V3V3".into() },
            Connection { component: 1, pin: "GPIO".into(), net: "V3V3".into() },
        ],
    }
}

#[test]
fn netlist_netlist_contains_components_and_nets() {
    // The compiled-board netlist.
    let board = make_board();
    let out = emit_netlist(&board);
    assert!(out.starts_with("(export"));
    assert!(out.contains("(ref \"U1\")"));
    assert!(out.contains("(name \"VBUS\")"));

    // The design netlist.
    let d = make_design();
    let out = emit_netlist6(&d);
    assert!(out.starts_with("(export"));
    assert!(out.contains("(ref \"U1\")"));
    assert!(out.contains("(value \"U\")"));
    assert!(out.contains("(ref \"U2\")"));
    assert!(out.contains("(code 1)"));
    assert!(out.contains("(name \"VBUS\")"));
    assert!(out.contains("(code 3)"));
    assert!(out.contains("(name \"V3V3\")"));
}

#[test]
fn netlist_netlist_is_deterministic() {
    let board = make_board();
    assert_eq!(emit_netlist(&board), emit_netlist(&board));

    let d = make_design();
    let a = emit_netlist6(&d);
    let b = emit_netlist6(&d);
    assert_eq!(a, b);
}

fn inst(refdes: &str, pins: Vec<Pin6>) -> ComponentInst {
    ComponentInst { refdes: refdes.to_string(), pins }
}

fn pin6(name: &str, role: Role6) -> Pin6 {
    Pin6 { name: name.to_string(), role }
}

fn make_design() -> Design {
    let mut d = Design::new();
    d.add_net(Net6 { name: "VBUS".into() });
    d.add_net(Net6 { name: "GND".into() });
    d.add_net(Net6 { name: "V3V3".into() });
    d.add_component(inst("U1", vec![pin6("VIN", Role6::PowerIn), pin6("GND", Role6::Gnd)]));
    d.add_component(inst("U2", vec![pin6("VDD", Role6::PowerIn), pin6("GPIO", Role6::DigitalIO)]));
    d.connect("U1", "VIN", "VBUS");
    d.connect("U2", "VDD", "V3V3");
    d.connect("U2", "GPIO", "V3V3");
    d
}

#[test]
fn netlist_nodes_include_pinfunction_and_pintype() {
    let d = make_design();
    let out = emit_netlist6(&d);
    assert!(out.contains("(pinfunction \"VIN\")"));
    assert!(out.contains("(pintype \"power_in\")"));
    assert!(out.contains("(pinfunction \"VDD\")"));
}

#[test]
fn digital_io_pin_gets_bidirectional_pintype() {
    let d = make_design();
    let out = emit_netlist6(&d);
    assert!(out.contains("(pinfunction \"GPIO\")"));
    assert!(out.contains("(pintype \"bidirectional\")"));
}

#[test]
fn missing_pin_omits_pinfunction_and_pintype() {
    let mut d = make_design();
    // Connect a pin that does not exist on the component.
    d.connect("U1", "NO_SUCH_PIN", "VBUS");
    let out = emit_netlist6(&d);
    // The node for the missing pin should have ref/pin but no pinfunction/pintype.
    assert!(out.contains("(ref \"U1\")"));
    assert!(out.contains("(pin \"NO_SUCH_PIN\")"));
    assert!(!out.contains("(pinfunction \"NO_SUCH_PIN\")"));
}

#[test]
fn refdes_prefixes_appear_in_netlist() {
    let mut d = Design::new();
    d.add_net(Net6 { name: "V3V3".into() });
    d.add_component(inst("C2", vec![pin6("1", Role6::DigitalIO)]));
    d.add_component(inst("3V3", vec![pin6("1", Role6::DigitalIO)]));
    d.connect("C2", "1", "V3V3");
    d.connect("3V3", "1", "V3V3");

    let out = emit_netlist6(&d);
    assert!(out.contains("(value \"C\")"));
    assert!(out.contains("(value \"?\")"));
}

#[test]
fn empty_design_emits_valid_netlist() {
    let d = Design::new();
    let out = emit_netlist6(&d);
    assert!(out.starts_with("(export"));
    assert!(out.contains("(components)"));
    assert!(out.contains("(nets)"));
    assert!(!out.contains("(comp "));
    assert!(!out.contains("(node "));
}

#[test]
fn net_codes_append_sorted_extras() {
    let mut d = Design::new();
    d.add_net(Net6 { name: "VBUS".into() });
    d.connect("U1", "A", "ZETA");
    d.connect("U1", "B", "VBUS");
    d.connect("U1", "C", "ALPHA");
    d.connect("U2", "A", "ZETA");
    d.connect("U2", "B", "Beta");
    let codes = build_net_codes6(&d);
    let names: Vec<(&str, usize)> = codes.iter().map(|(n, c)| (n.as_str(), *c)).collect();
    assert_eq!(
        names,
        vec![("VBUS", 1), ("ALPHA", 2), ("Beta", 3), ("ZETA", 4)]
    );
    let out = emit_netlist6(&d);
    assert!(out.contains("(code 4)\n      (name \"ZETA\")"), "{out}");
}
