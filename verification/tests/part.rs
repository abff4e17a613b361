use copperleaf::cli::kindmap::{KindEntry, KindMap};
use copperleaf::cli::part::{
    manifest_from_footprint, manifest_from_symbol, merge_pad, merge_symbol, start_footprint_merge,
    PadDef, PartManifest, PinDef, SymPin, ThermalVia, DEFAULT_VIA_DRILL_BITS,
};

fn bits(v: f64) -> u64 {
    v.to_bits()
}

fn kind(k: &str) -> KindEntry {
    KindEntry { kind: k.to_string(), bw_mhz: None, v: None, v_min: None, v_max: None, i: None, i_max: None, nc: None }
}

fn blank_pin(num: usize, name: &str) -> PinDef {
    PinDef {
        num,
        number: String::new(),
        name: name.to_string(),
        purpose: "Pad".to_string(),
        notes: String::new(),
        electrical: kind("dio"),
        pos: None,
        rotation: None,
        length: None,
        width: None,
        height: None,
        pad_type: None,
        pad_shape: None,
        roundrect_rratio: None,
        solder_mask_margin: None,
        layers: None,
        drill: None,
        thermal_vias: vec![],
    }
}

fn make_manifest() -> PartManifest {
    PartManifest { pins: vec![blank_pin(1, "PAD_1")], mechanical: vec![] }
}

fn sym(name: &str, number: &str, pin_type: &str, y: f64) -> SymPin {
    SymPin {
        name: name.to_string(),
        number: number.to_string(),
        pos: (bits(0.0), bits(y)),
        rotation: bits(0.0),
        pin_type: pin_type.to_string(),
        length: bits(2.54),
    }
}

fn pad(number: &str, pad_type: &str, pos: (f64, f64), width: f64, height: f64) -> PadDef {
    PadDef {
        number: number.to_string(),
        pos: (bits(pos.0), bits(pos.1)),
        rotation: bits(45.0),
        width: bits(width),
        height: bits(height),
        size: bits(width.max(height)),
        pad_type: pad_type.to_string(),
        shape: "rect".to_string(),
        roundrect_rratio: None,
        solder_mask_margin: None,
        layers: "F.Cu F.Mask F.Paste".to_string(),
        drill: None,
    }
}

fn merge_pads(m: &mut PartManifest, pads: &[PadDef]) -> Vec<String> {
    start_footprint_merge(m);
    let mut codes = Vec::new();
    for p in pads {
        if let Some(d) = merge_pad(m, p, None) {
            codes.push(d.code);
        }
    }
    codes
}

#[test]
fn merge_symbol_replaces_placeholder_name() {
    let mut manifest = make_manifest();
    manifest.pins[0].number = "1".into();
    let syms = vec![sym("VDD", "1", "power_in", 0.0)];
    let kindmap = KindMap::load(None);
    let diags = merge_symbol(&mut manifest, &syms, &kindmap, "dio");
    assert!(diags.is_empty(), "{:?}", diags);
    assert_eq!(manifest.pins[0].name, "VDD");
    assert_eq!(manifest.pins[0].electrical.kind, "pwr");
}

#[test]
fn merge_symbol_preserves_manual_voltage() {
    let mut manifest = make_manifest();
    manifest.pins[0].number = "1".into();
    manifest.pins[0].name = "VDD".into();
    manifest.pins[0].electrical.kind = "pwr".into();
    manifest.pins[0].electrical.v_min = Some(bits(1.8));
    manifest.pins[0].electrical.v_max = Some(bits(3.3));
    manifest.pins[0].electrical.i_max = Some(bits(0.1));
    let syms = vec![sym("VDD", "1", "power_in", 0.0)];
    let kindmap = KindMap::load(None);
    merge_symbol(&mut manifest, &syms, &kindmap, "dio");
    assert_eq!(manifest.pins[0].electrical.v_min, Some(bits(1.8)));
    assert_eq!(manifest.pins[0].electrical.v_max, Some(bits(3.3)));
    assert_eq!(manifest.pins[0].electrical.i_max, Some(bits(0.1)));
}

#[test]
fn merge_footprint_sets_pos_without_clobbering_kind() {
    let mut manifest = make_manifest();
    manifest.pins[0].number = "1".into();
    manifest.pins[0].name = "VDD".into();
    manifest.pins[0].electrical.kind = "pwr".into();
    let diags = merge_pads(&mut manifest, &[pad("1", "smd", (10.0, 20.0), 0.5, 0.25)]);
    assert!(diags.is_empty());
    assert_eq!(manifest.pins[0].electrical.kind, "pwr");
    assert_eq!(manifest.pins[0].pos, Some((bits(10.0), bits(20.0))));
    assert_eq!(manifest.pins[0].rotation, Some(bits(45.0)));
    assert_eq!(manifest.pins[0].length, Some(bits(0.5)));
}

#[test]
fn merge_symbol_auto_increments_stringy_pins() {
    let mut manifest = PartManifest { pins: vec![], mechanical: vec![] };
    let syms = vec![
        sym("TD2+", "TD2+", "input", 0.0),
        sym("TD3-", "TD3-", "input", 2.54),
        sym("RD2+", "RD2+", "output", 5.08),
    ];
    let kindmap = KindMap::load(None);
    let diags = merge_symbol(&mut manifest, &syms, &kindmap, "dio");
    assert_eq!(manifest.pins.len(), 3, "all three pins should be present");
    assert_eq!(manifest.pins[0].num, 1);
    assert_eq!(manifest.pins[0].number, "TD2+");
    assert_eq!(manifest.pins[0].name, "TD2+");
    assert_eq!(manifest.pins[1].num, 2);
    assert_eq!(manifest.pins[1].number, "TD3-");
    assert_eq!(manifest.pins[1].name, "TD3-");
    assert_eq!(manifest.pins[2].num, 3);
    assert_eq!(manifest.pins[2].number, "RD2+");
    assert_eq!(manifest.pins[2].name, "RD2+");
    let new_pin_diags: Vec<_> = diags.iter().filter(|d| d.code == "CLI:NEW_PIN").collect();
    assert_eq!(new_pin_diags.len(), 3);

    // Re-merging the same symbol should be idempotent.
    let diags2 = merge_symbol(&mut manifest, &syms, &kindmap, "dio");
    assert_eq!(manifest.pins.len(), 3, "re-merge should not add duplicate pins");
    let new_pin_diags2: Vec<_> = diags2.iter().filter(|d| d.code == "CLI:NEW_PIN").collect();
    assert!(new_pin_diags2.is_empty(), "re-merge should produce no NEW_PIN diagnostics");
}

#[test]
fn merge_symbol_sorts_and_reports_unknown_types() {
    let mut manifest = PartManifest { pins: vec![blank_pin(5, "PAD_5")], mechanical: vec![] };
    manifest.pins[0].number = "5".into();
    let syms = vec![sym("A", "X", "weird", 0.0), sym("B", "2", "input", 0.0)];
    let kindmap = KindMap::load(None);
    let diags = merge_symbol(&mut manifest, &syms, &kindmap, "dio");
    let nums: Vec<usize> = manifest.pins.iter().map(|p| p.num).collect();
    // "X" gets the next identity after 5; "2" keeps its own; sorted.
    assert_eq!(nums, vec![2, 5, 6]);
    assert_eq!(manifest.pins[2].number, "X");
    assert_eq!(manifest.pins[2].electrical.kind, "dio");
    assert_eq!(manifest.pins[2].purpose, "I/O");
    let codes: Vec<&str> = diags.iter().map(|d| d.code.as_str()).collect();
    assert_eq!(codes, vec!["CLI:NEW_PIN", "CLI:UNKNOWN_PIN_TYPE", "CLI:NEW_PIN"]);
    assert_eq!(diags[0].message, "Pin X (A) from source is not in the existing TOML; appending");
    assert_eq!(diags[1].message, "Unrecognised pin type 'weird' for pin A; using default kind 'dio'");
    assert_eq!(diags[1].hint.as_deref(), Some("Provide a --kind-map override if needed"));
}

#[test]
fn merge_symbol_matches_unnumbered_pin_by_num() {
    let mut manifest = make_manifest();
    let syms = vec![sym("GND", "1", "power_in", 0.0)];
    let kindmap = KindMap::load(None);
    let diags = merge_symbol(&mut manifest, &syms, &kindmap, "dio");
    assert!(diags.is_empty());
    assert_eq!(manifest.pins.len(), 1);
    assert_eq!(manifest.pins[0].name, "GND");
    assert_eq!(manifest.pins[0].number, "");
}

#[test]
fn merge_footprint_mechanical_vias_and_unmatched() {
    let mut manifest = make_manifest();
    manifest.pins[0].number = "1".into();
    manifest.pins[0].thermal_vias = vec![ThermalVia { pos: (1, 2), drill: 3, size: 4 }];
    start_footprint_merge(&mut manifest);
    assert!(manifest.pins[0].thermal_vias.is_empty());
    assert!(merge_pad(&mut manifest, &pad("", "np_thru_hole", (0.0, 0.0), 1.0, 1.0), None).is_none());
    assert!(merge_pad(&mut manifest, &pad("NONE", "smd", (0.0, 0.0), 1.0, 1.0), None).is_none());
    assert_eq!(manifest.mechanical.len(), 2);
    assert_eq!(manifest.mechanical[1].drill, 0);
    // An unmatched through-hole inside pin 0 becomes its thermal via.
    assert!(merge_pad(&mut manifest, &pad("9", "thru_hole", (0.1, 0.1), 0.6, 0.6), Some(0)).is_none());
    assert_eq!(
        manifest.pins[0].thermal_vias,
        vec![ThermalVia { pos: (bits(0.1), bits(0.1)), drill: DEFAULT_VIA_DRILL_BITS, size: bits(0.6) }]
    );
    assert_eq!(f64::from_bits(DEFAULT_VIA_DRILL_BITS), 0.3);
    // Other unmatched pads are reported.
    let d = merge_pad(&mut manifest, &pad("7", "smd", (5.0, 5.0), 1.0, 1.0), Some(0)).unwrap();
    assert_eq!(d.code, "CLI:UNMATCHED_PAD");
    assert_eq!(d.message, "Footprint pad 7 has no matching pin in the existing TOML");
    assert_eq!(d.entities, vec!["7".to_string()]);
}

#[test]
fn manifest_from_footprint_pins_in_order() {
    let pads = vec![
        pad("3", "smd", (0.0, 0.0), 1.0, 2.0),
        pad("EP", "smd", (0.0, 0.0), 3.0, 3.0),
        pad("1", "smd", (0.0, 0.0), 1.0, 2.0),
        pad("", "np_thru_hole", (0.0, 0.0), 1.0, 1.0),
    ];
    let m = manifest_from_footprint(&pads, "dio");
    let pins: Vec<(usize, &str, &str)> =
        m.pins.iter().map(|p| (p.num, p.number.as_str(), p.name.as_str())).collect();
    assert_eq!(pins, vec![(1, "EP", "PAD_EP"), (1, "1", "PAD_1"), (3, "3", "PAD_3")]);
    assert_eq!(m.pins[0].length, Some(bits(3.0)));
    assert_eq!(m.pins[0].electrical.kind, "dio");
    assert_eq!(m.pins[0].layers.as_deref(), Some("F.Cu F.Mask F.Paste"));
    assert_eq!(m.mechanical.len(), 1);
}

#[test]
fn manifest_from_symbol_builds_pins() {
    let kindmap = KindMap::load(None);
    let (m, diags) = manifest_from_symbol(&[sym("VDD", "1", "power_in", 0.0)], &kindmap, "dio");
    assert_eq!(m.pins.len(), 1);
    assert_eq!(m.pins[0].electrical.kind, "pwr");
    assert_eq!(m.pins[0].purpose, "Supply");
    assert_eq!(diags.len(), 1);
}
