use copperleaf::kicad::board::{CompiledBoard, Net};
use copperleaf::kicad::pcb::{
    build_net_remap, footprint_refdes, layers_node, net_class_node, normalised_layer_name,
    preserved_footprint, remap_footprint_nets, remap_net_node, NetRemap,
};
use copperleaf::kicad::sexpr::{parse, Sexpr};

fn sx(text: &str) -> Sexpr {
    parse(text).expect("test input parses")
}

fn children(node: Sexpr) -> Vec<Sexpr> {
    match node {
        Sexpr::List(v) => v,
        other => panic!("expected a list, got {:?}", other),
    }
}

fn board(names: &[&str]) -> CompiledBoard {
    CompiledBoard {
        components: Vec::new(),
        nets: names.iter().map(|n| Net { name: n.to_string() }).collect(),
        connections: Vec::new(),
    }
}

fn sample_remap() -> NetRemap {
    let b = board(&["GND", "VCC", "NEW"]);
    let codes = vec![("GND".to_string(), 1usize), ("VCC".to_string(), 2usize)];
    let old = vec![(5usize, "GND".to_string()), (7usize, "OLD".to_string())];
    build_net_remap(&old, &b, &codes)
}

#[test]
fn normalised_layer_names() {
    assert_eq!(normalised_layer_name(0, 4), "F.Cu");
    assert_eq!(normalised_layer_name(1, 4), "In1.Cu");
    assert_eq!(normalised_layer_name(2, 4), "In2.Cu");
    assert_eq!(normalised_layer_name(3, 4), "B.Cu");
    assert_eq!(normalised_layer_name(1, 2), "B.Cu");
}

#[test]
fn layers_node_two_layer_board() {
    let expected = sx("(layers (0 \"F.Cu\" signal) (31 \"B.Cu\" signal) (32 \"B.Adhes\" user) (33 \"F.Adhes\" user) (34 \"B.Paste\" user) (35 \"F.Paste\" user) (36 \"B.SilkS\" user) (37 \"F.SilkS\" user) (38 \"B.Mask\" user) (39 \"F.Mask\" user) (44 \"Edge.Cuts\" user) (45 \"Margin\" user) (46 \"B.CrtYd\" user) (47 \"F.CrtYd\" user) (48 \"B.Fab\" user) (49 \"F.Fab\" user))");
    assert_eq!(layers_node(2), expected);
}

#[test]
fn layers_node_four_layer_board_has_inner_layers() {
    let parts = children(layers_node(4));
    assert_eq!(parts.len(), 1 + 4 + 14);
    assert_eq!(parts[1], sx("(0 \"F.Cu\" signal)"));
    assert_eq!(parts[2], sx("(1 \"In1.Cu\" signal)"));
    assert_eq!(parts[3], sx("(2 \"In2.Cu\" signal)"));
    assert_eq!(parts[4], sx("(31 \"B.Cu\" signal)"));
}

#[test]
fn layers_node_single_layer_still_has_both_outer_layers() {
    let parts = children(layers_node(1));
    assert_eq!(parts.len(), 1 + 2 + 14);
    assert_eq!(parts[2], sx("(31 \"B.Cu\" signal)"));
}

#[test]
fn net_class_node_lists_nets() {
    let nets = vec!["GND".to_string(), "VCC".to_string()];
    let node = net_class_node("Default", "", "0.2", "0.25", &nets);
    let expected = sx("(net_class \"Default\" \"\" (clearance 0.2) (trace_width 0.25) (via_dia 0.8) (via_drill 0.4) (uvia_dia 0.3) (uvia_drill 0.1) (add_net \"GND\") (add_net \"VCC\"))");
    assert_eq!(node, expected);
}

#[test]
fn footprint_refdes_finds_reference_property() {
    let fp = sx("(footprint \"R_0402\" (layer \"F.Cu\") (property \"Reference\" \"R1\" (at 0 0)))");
    assert_eq!(footprint_refdes(&fp), Some("R1".to_string()));
}

#[test]
fn footprint_refdes_absent() {
    let fp = sx("(footprint \"R_0402\" (property \"Value\" \"10k\"))");
    assert_eq!(footprint_refdes(&fp), None);
    assert_eq!(footprint_refdes(&Sexpr::atom("x")), None);
}

#[test]
fn footprint_refdes_skips_head() {
    let fp = sx("(property \"Reference\" \"R9\")");
    assert_eq!(footprint_refdes(&fp), None);
}

#[test]
fn preserved_footprint_takes_last_match() {
    let fps = vec![
        sx("(footprint \"A\" (property \"Reference\" \"R1\"))"),
        sx("(footprint \"B\" (property \"Reference\" \"C1\"))"),
        sx("(footprint \"C\" (property \"Reference\" \"R1\"))"),
    ];
    assert_eq!(preserved_footprint(&fps, "R1"), Some(2));
    assert_eq!(preserved_footprint(&fps, "C1"), Some(1));
    assert_eq!(preserved_footprint(&fps, "U1"), None);
}

#[test]
fn net_remap_tables() {
    let r = sample_remap();
    let mut by_name = r.by_name.clone();
    by_name.sort();
    assert_eq!(
        by_name,
        vec![
            ("GND".to_string(), 1, "GND".to_string()),
            ("VCC".to_string(), 2, "VCC".to_string()),
        ]
    );
    assert_eq!(r.by_code, vec![(5, 1, "GND".to_string())]);
}

#[test]
fn remap_net_node_by_code() {
    let r = sample_remap();
    let mut props = children(sx("(net 5 \"GND\")"));
    remap_net_node(&mut props, &r);
    assert_eq!(Sexpr::list(props), sx("(net 1 \"GND\")"));
}

#[test]
fn remap_net_node_plus_sign_reads_as_code() {
    let r = sample_remap();
    let mut props = children(sx("(net +5)"));
    remap_net_node(&mut props, &r);
    assert_eq!(Sexpr::list(props), sx("(net 1 \"GND\")"));
}

#[test]
fn remap_net_node_by_name() {
    let r = sample_remap();
    let mut props = children(sx("(net \"VCC\")"));
    remap_net_node(&mut props, &r);
    assert_eq!(Sexpr::list(props), sx("(net 2 \"VCC\")"));
}

#[test]
fn remap_net_node_unknown_is_kept() {
    let r = sample_remap();
    let mut props = children(sx("(net 7 \"OLD\")"));
    remap_net_node(&mut props, &r);
    assert_eq!(Sexpr::list(props), sx("(net 7 \"OLD\")"));
    let mut props = children(sx("(net \"NEW\")"));
    remap_net_node(&mut props, &r);
    assert_eq!(Sexpr::list(props), sx("(net \"NEW\")"));
}

#[test]
fn remap_footprint_nets_only_touches_pads() {
    let r = sample_remap();
    let mut fp = sx("(footprint \"R\" (net 5 \"GND\") (pad \"1\" smd rect (net 5 \"GND\") (layers \"F.Cu\")) (pad \"2\" smd rect (net \"VCC\")) (pad \"3\" smd rect (net)))");
    remap_footprint_nets(&mut fp, &r);
    let expected = sx("(footprint \"R\" (net 5 \"GND\") (pad \"1\" smd rect (net 1 \"GND\") (layers \"F.Cu\")) (pad \"2\" smd rect (net 2 \"VCC\")) (pad \"3\" smd rect (net)))");
    assert_eq!(fp, expected);
}
