use copperleaf::kicad::board::{CompiledComponent, ComponentMeta};
use copperleaf::kicad::models::{encode_model_data, model_file, model_file_from, model_to_embed};

fn comp(model_3d: Option<&str>, data: Option<&str>) -> CompiledComponent {
    CompiledComponent {
        refdes: "U3".to_string(),
        meta: ComponentMeta {
            symbol: None,
            footprint: None,
            datasheet: None,
            description: None,
            model_3d: model_3d.map(|s| s.to_string()),
            model_3d_data: data.map(|s| s.to_string()),
        },
        pins: Vec::new(),
        constraints: Vec::new(),
    }
}

#[test]
fn no_embedded_data_no_model_file() {
    assert!(model_file(&comp(Some("models/part.step"), None)).is_none());
}

#[test]
fn model_file_named_after_model_path() {
    let f = model_file(&comp(Some("/lib/3d/QFN-32.step"), Some("aGVsbG8="))).unwrap().unwrap();
    assert_eq!(f.file_name, "QFN-32.step");
    assert_eq!(f.bytes, b"hello".to_vec());
}

#[test]
fn model_file_falls_back_to_refdes() {
    let f = model_file(&comp(None, Some("aGk="))).unwrap().unwrap();
    assert_eq!(f.file_name, "U3.step");
    assert_eq!(f.bytes, b"hi".to_vec());
}

#[test]
fn model_path_without_file_name_falls_back_to_refdes() {
    let f = model_file(&comp(Some("models/.."), Some("aGk="))).unwrap().unwrap();
    assert_eq!(f.file_name, "U3.step");
}

#[test]
fn undecodable_model_data_is_an_error() {
    match model_file(&comp(Some("a.step"), Some("not base64!"))) {
        Some(Err(m)) => assert!(m.starts_with("base64 decode: ")),
        other => panic!("unexpected {:?}", other),
    }
}

#[test]
fn model_file_from_exact() {
    let f = model_file_from("R1", Some("AAEC"), Some("r.step")).unwrap().unwrap();
    assert_eq!(f.file_name, "r.step");
    assert_eq!(f.bytes, vec![0u8, 1, 2]);
    assert!(model_file_from("R1", None, Some("r.step")).is_none());
}

#[test]
fn model_to_embed_only_without_data() {
    assert_eq!(model_to_embed(Some("a.step"), None), Some("a.step".to_string()));
    assert_eq!(model_to_embed(Some("a.step"), Some("AAEC")), None);
    assert_eq!(model_to_embed(None, None), None);
}

#[test]
fn encode_model_data_exact() {
    assert_eq!(encode_model_data(b"hello"), "aGVsbG8=");
    assert_eq!(encode_model_data(&[]), "");
}

#[test]
fn embedded_model_decodes_back() {
    let bytes: Vec<u8> = (0u8..=255).collect();
    let data = encode_model_data(&bytes);
    let f = model_file_from("U1", Some(&data), None).unwrap().unwrap();
    assert_eq!(f.bytes, bytes);
    assert_eq!(f.file_name, "U1.step");
}
