use copperleaf::kicad::fp_parser::{read_footprint_pads, PadText};

/// A pad's numbers read as `f64`: position, rotation, width, height,
/// corner ratio, mask margin and drill.
struct Pad {
    number: String,
    pad_type: String,
    shape: String,
    pos: (f64, f64),
    rotation: f64,
    width: f64,
    height: f64,
    layers: String,
    roundrect_rratio: Option<f64>,
    solder_mask_margin: Option<f64>,
    drill: Option<f64>,
}

fn pad_values(p: &PadText) -> Option<Pad> {
    let mut pos = (0.0f64, 0.0f64);
    let mut rotation = 0.0f64;
    for (x, y, r) in &p.ats {
        pos = (x.parse().ok()?, y.parse().ok()?);
        if let Some(r) = r {
            rotation = r.parse().ok()?;
        }
    }
    let mut width = 0.0f64;
    let mut height = 0.0f64;
    for (w, h) in &p.sizes {
        width = w.parse().ok()?;
        height = h.parse().ok()?;
    }
    let value = |t: &Option<String>| t.as_ref().and_then(|t| t.parse::<f64>().ok());
    Some(Pad {
        number: p.number.clone(),
        pad_type: p.pad_type.clone(),
        shape: p.shape.clone(),
        pos,
        rotation,
        width,
        height,
        layers: p.layers.clone(),
        roundrect_rratio: value(&p.roundrect_rratio),
        solder_mask_margin: value(&p.solder_mask_margin),
        drill: value(&p.drill),
    })
}

fn parse_footprint(source: &str) -> Vec<Pad> {
    read_footprint_pads(source).unwrap().iter().filter_map(pad_values).collect()
}

fn sample_footprint() -> &'static str {
    r#"(footprint "QFN-60"
  (pad "1" smd rect (at -2.54 3.81 90.0) (size 0.5 0.25) (layers F.Cu F.Mask F.Paste))
  (pad "2" smd roundrect (roundrect_rratio 0.125) (at -1.27 3.81) (size 0.5 0.25) (layers F.Cu F.Mask F.Paste) (solder_mask_margin 0.102))
  (pad "60" smd rect (at 2.54 -3.81 180.0) (size 0.5 0.25) (layers F.Cu F.Mask F.Paste))
)"#
}

#[test]
fn parse_extracts_pads() {
    let pads = parse_footprint(sample_footprint());
    assert_eq!(pads.len(), 3);

    assert_eq!(pads[0].number, "1");
    assert_eq!(pads[0].pad_type, "smd");
    assert_eq!(pads[0].shape, "rect");
    assert!((pads[0].pos.0 - -2.54).abs() < 1e-9);
    assert!((pads[0].pos.1 - 3.81).abs() < 1e-9);
    assert!((pads[0].rotation - 90.0).abs() < 1e-9);
    assert!((pads[0].width - 0.5).abs() < 1e-9);
    assert!((pads[0].height - 0.25).abs() < 1e-9);
    assert_eq!(pads[0].layers, "F.Cu F.Mask F.Paste");
    assert!(pads[0].roundrect_rratio.is_none());
    assert!(pads[0].solder_mask_margin.is_none());
    assert!(pads[0].drill.is_none());

    assert_eq!(pads[1].shape, "roundrect");
    assert!((pads[1].roundrect_rratio.unwrap() - 0.125).abs() < 1e-9);
    assert!((pads[1].solder_mask_margin.unwrap() - 0.102).abs() < 1e-9);
}

#[test]
fn empty_footprint_returns_empty() {
    let pads = parse_footprint("(footprint \"EMPTY\")");
    assert!(pads.is_empty());
}

#[test]
fn pad_texts_kept_as_written() {
    let texts = read_footprint_pads(
        r#"(footprint "F" (pad "3" thru_hole circle (at 1 2) (at 3 4 45) (size 1 1) (drill 0.8) (drill) (layers "*.Cu" *.Mask)))"#,
    )
    .unwrap();
    assert_eq!(texts.len(), 1);
    let p = &texts[0];
    assert_eq!(p.number, "3");
    assert_eq!(p.ats.len(), 2);
    assert_eq!(p.ats[0], ("1".to_string(), "2".to_string(), None));
    assert_eq!(p.ats[1], ("3".to_string(), "4".to_string(), Some("45".to_string())));
    assert_eq!(p.sizes, vec![("1".to_string(), "1".to_string())]);
    assert_eq!(p.drill.as_deref(), Some("0.8"));
    assert_eq!(p.layers, "*.Cu *.Mask");
}

#[test]
fn short_pad_entries_drop_the_pad() {
    let texts = read_footprint_pads(
        r#"(footprint "F"
  (pad "1" smd rect (at 1) (size 1 1))
  (pad "2" smd rect (size 1))
  (pad "3" smd)
  (pad "4" smd rect (size 2 3))
)"#,
    )
    .unwrap();
    assert_eq!(texts.len(), 1);
    assert_eq!(texts[0].number, "4");
}

#[test]
fn pad_with_bad_number_is_dropped_after_reading() {
    let pads = parse_footprint(r#"(footprint "F" (pad "1" smd rect (at x 0)) (pad "2" smd rect (at 0 0) (roundrect_rratio y)))"#);
    assert_eq!(pads.len(), 1);
    assert_eq!(pads[0].number, "2");
    assert!(pads[0].roundrect_rratio.is_none());
}

#[test]
fn nested_pads_are_found_in_order() {
    let texts = read_footprint_pads(r#"(footprint "F" (group (pad "A" smd rect)) (pad "B" smd rect (pad "C" smd rect)))"#).unwrap();
    let numbers: Vec<&str> = texts.iter().map(|p| p.number.as_str()).collect();
    assert_eq!(numbers, vec!["A", "B", "C"]);
}

#[test]
fn footprint_pads_parse_error() {
    assert!(read_footprint_pads("(footprint").is_err());
}
