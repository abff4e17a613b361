use copperleaf::analysis::{
    erc_floating_inputs, erc_floating_power_inputs, erc_nc_pin_connected, synthesise_decoupling,
};
use copperleaf::diagnostic::Severity;
use copperleaf::kicad::board::{
    CompiledBoard, CompiledComponent, ComponentMeta, Connection, Constraint, Net, Pin, Role,
};

fn pin(name: &str, role: Role) -> Pin {
    Pin { name: name.to_string(), number: None, role, has_sig_spec: false }
}

fn make_comp(refdes: &str, pins: Vec<Pin>) -> CompiledComponent {
    CompiledComponent {
        refdes: refdes.to_string(),
        meta: ComponentMeta {
            symbol: None,
            footprint: None,
            datasheet: None,
            description: None,
            model_3d: None,
            model_3d_data: None,
        },
        pins,
        constraints: Vec::new(),
    }
}

fn conn(component: usize, pin: &str, net: &str) -> Connection {
    Connection { component, pin: pin.to_string(), net: net.to_string() }
}

#[test]
fn nc_pin_connected_flags_connected_nc_pin() {
    let board = CompiledBoard {
        components: vec![make_comp("U1", vec![pin("NC", Role::DigitalIO)])],
        nets: vec![Net { name: "NET".to_string() }],
        connections: vec![conn(0, "NC", "NET")],
    };
    let diags = erc_nc_pin_connected(&board);
    assert_eq!(diags.len(), 1);
    assert_eq!(diags[0].code, "ERC:NC_CONNECTED");
}

#[test]
fn floating_input_flags_unconnected_digital_io() {
    let board = CompiledBoard {
        components: vec![make_comp("U1", vec![pin("GPIO", Role::DigitalIO)])],
        nets: vec![],
        connections: vec![],
    };
    let diags = erc_floating_inputs(&board);
    assert_eq!(diags.len(), 1);
    assert_eq!(diags[0].code, "ERC:FLOATING_INPUT");
}

#[test]
fn floating_input_diagnostic_text() {
    let board = CompiledBoard {
        components: vec![make_comp("U1", vec![pin("ADC0", Role::AnalogIn)])],
        nets: vec![],
        connections: vec![],
    };
    let d = &erc_floating_inputs(&board)[0];
    assert_eq!(d.severity, Severity::Warning);
    assert_eq!(d.message, "Input pin U1.ADC0 is floating");
    assert_eq!(d.entities, vec!["U1.ADC0".to_string()]);
    assert_eq!(d.hint.as_deref(), Some("Connect the pin or assign a signal specification"));
}

#[test]
fn floating_input_skips_nc_spec_and_connected_pins() {
    let mut spec = pin("SDA", Role::DigitalIO);
    spec.has_sig_spec = true;
    let board = CompiledBoard {
        components: vec![make_comp(
            "U1",
            vec![
                pin("NC_3", Role::DigitalIO),
                spec,
                pin("SCL", Role::DigitalIO),
                pin("OUT", Role::AnalogOut),
                pin("EN", Role::DigitalIO),
            ],
        )],
        nets: vec![Net { name: "I2C_SCL".to_string() }],
        connections: vec![conn(0, "SCL", "I2C_SCL")],
    };
    let diags = erc_floating_inputs(&board);
    assert_eq!(diags.len(), 1);
    assert_eq!(diags[0].entities, vec!["U1.EN".to_string()]);
}

#[test]
fn floating_power_inputs_in_component_order() {
    let board = CompiledBoard {
        components: vec![
            make_comp("U1", vec![pin("VDD", Role::PowerIn), pin("GND", Role::Gnd)]),
            make_comp("U2", vec![pin("VIN", Role::PowerIn), pin("VBAT", Role::PowerIn)]),
        ],
        nets: vec![Net { name: "V3V3".to_string() }],
        connections: vec![conn(1, "VIN", "V3V3")],
    };
    let diags = erc_floating_power_inputs(&board);
    let msgs: Vec<&str> = diags.iter().map(|d| d.message.as_str()).collect();
    assert_eq!(
        msgs,
        vec!["Power input pin U1.VDD is unconnected", "Power input pin U2.VBAT is unconnected"]
    );
    assert!(diags.iter().all(|d| d.code == "ERC:FLOATING_POWER_INPUT"));
    assert_eq!(diags[0].hint.as_deref(), Some("Connect the pin to a power net"));
}

#[test]
fn nc_connected_is_an_error_and_unconnected_nc_is_fine() {
    let board = CompiledBoard {
        components: vec![make_comp("J1", vec![pin("NC_1", Role::Passive), pin("NC_2", Role::Passive)])],
        nets: vec![Net { name: "X".to_string() }],
        connections: vec![conn(0, "NC_2", "X")],
    };
    let diags = erc_nc_pin_connected(&board);
    assert_eq!(diags.len(), 1);
    assert_eq!(diags[0].severity, Severity::Error);
    assert_eq!(diags[0].message, "NC pin J1.NC_2 is connected to a net");
    assert_eq!(diags[0].hint.as_deref(), Some("Leave no-connect pins unconnected"));
}

#[test]
fn ncx_is_not_a_no_connect_name() {
    let board = CompiledBoard {
        components: vec![make_comp("J1", vec![pin("NCX", Role::Passive)])],
        nets: vec![Net { name: "X".to_string() }],
        connections: vec![conn(0, "NCX", "X")],
    };
    assert!(erc_nc_pin_connected(&board).is_empty());
}

fn decoupled(refdes: &str, pins: Vec<Pin>, values: &[f64], per_pin: bool) -> CompiledComponent {
    let mut c = make_comp(refdes, pins);
    c.constraints = vec![Constraint::Decoupling {
        values: values.iter().map(|v| v.to_bits()).collect(),
        per_pin,
    }];
    c
}

fn approx_eq(a: f64, b: f64) -> bool {
    (a - b).abs() < 1e-15
}

#[test]
fn lib_synthesises_decoupling_caps() {
    let board = CompiledBoard {
        components: vec![decoupled("U1", vec![pin("VIN", Role::PowerIn)], &[100.0 * 1e-9, 1.0 * 1e-6], true)],
        nets: vec![Net { name: "V3V3".to_string() }],
        connections: vec![conn(0, "VIN", "V3V3")],
    };
    let (comps, caps, diags) = synthesise_decoupling(&board);
    assert_eq!(caps.len(), 2);
    assert_eq!(caps[0].refdes, "C1");
    assert_eq!(caps[0].net, "V3V3");
    assert_eq!(caps[0].source_component, "U1");
    assert_eq!(caps[0].source_pin, "VIN");
    assert!(approx_eq(f64::from_bits(caps[0].value), 100e-9));
    assert_eq!(comps.len(), 2);
    assert!(diags.iter().any(|d| d.code == "DECOUPLE:SUMMARY"));
}

#[test]
fn decoupling_numbering_targets_and_warnings() {
    let board = CompiledBoard {
        components: vec![
            decoupled("U1", vec![pin("VA", Role::PowerIn), pin("VB", Role::PowerIn)], &[1e-7], false),
            decoupled("U2", vec![pin("IO", Role::DigitalIO)], &[1e-7], true),
            decoupled("U3", vec![pin("V1", Role::PowerIn), pin("V2", Role::PowerIn)], &[1e-7, 1e-6], true),
        ],
        nets: vec![Net { name: "P".to_string() }],
        connections: vec![conn(0, "VA", "P"), conn(0, "VB", "P"), conn(2, "V2", "P")],
    };
    let (comps, caps, diags) = synthesise_decoupling(&board);
    let refs: Vec<(&str, &str, &str)> = caps
        .iter()
        .map(|c| (c.refdes.as_str(), c.source_component.as_str(), c.source_pin.as_str()))
        .collect();
    assert_eq!(refs, vec![("C1", "U1", "VA"), ("C2", "U3", "V2"), ("C3", "U3", "V2")]);
    assert_eq!(comps.len(), 3);
    assert_eq!(comps[2].refdes, "C3");
    assert_eq!(comps[2].pins.len(), 2);
    assert_eq!(comps[2].pins[0].role, Role::PowerIn);
    assert_eq!(comps[2].pins[1].role, Role::Gnd);
    let codes: Vec<&str> = diags.iter().map(|d| d.code.as_str()).collect();
    assert_eq!(codes, vec!["DECOUPLE:NO_PWR_PIN", "DECOUPLE:UNCONNECTED", "DECOUPLE:SUMMARY"]);
    assert_eq!(diags[0].message, "U2 has a decoupling constraint but no power-input pins");
    assert_eq!(diags[1].message, "power pin U3.V1 is not connected to a net");
    assert_eq!(diags[1].entities, vec!["U3.V1".to_string()]);
    assert_eq!(diags[2].message, "placed 3 decoupling capacitor(s)");
    assert_eq!(diags[2].entities, vec!["C1".to_string(), "C2".to_string(), "C3".to_string()]);
    assert_eq!(diags[2].severity, Severity::Info);
}

#[test]
fn no_decoupling_no_summary() {
    let board = CompiledBoard {
        components: vec![make_comp("U1", vec![pin("VIN", Role::PowerIn)])],
        nets: vec![],
        connections: vec![],
    };
    let (comps, caps, diags) = synthesise_decoupling(&board);
    assert!(comps.is_empty() && caps.is_empty() && diags.is_empty());
}
