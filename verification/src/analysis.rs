//! Analysis passes on a compiled board: electrical rule checks (floating
//! inputs, floating power inputs and connected no-connect pins, each
//! reported as one diagnostic per offending pin, in component and pin order)
//! and the deterministic synthesis of decoupling capacitors.

use vstd::prelude::*;

use crate::diagnostic::{Diagnostic, Severity};
use crate::kicad::board::{
    CompiledBoard, CompiledComponent, ComponentMeta, Connection, Constraint, Pin, Role,
};
use crate::text::{
    chars_of, decimal, has_prefix, push_char, push_str, starts_with, str_eq, u64_to_string,
};

verus! {

broadcast use vstd::string::group_string_axioms;

/// Every connection names a component of the board.
pub open spec fn connections_valid(board: CompiledBoard) -> bool {
    forall|i: int| 0 <= i < board.connections@.len() ==> (#[trigger] board.connections@[i]).component
        < board.components@.len()
}

/// Whether some connection attaches pin `pin` of a component whose
/// reference is `refdes`.
pub open spec fn pin_connected(board: CompiledBoard, refdes: Seq<char>, pin: Seq<char>) -> bool {
    exists|i: int|
        0 <= i < board.connections@.len() && board.components@[(#[trigger] board.connections@[i]).component as int].refdes@
            == refdes && board.connections@[i].pin@ == pin
}

/// A no-connect pin name: `NC` or `NC_…`.
pub open spec fn is_nc_name(name: Seq<char>) -> bool {
    name == "NC"@ || (name.len() >= 3 && name.take(3) == "NC_"@)
}

/// The pins of the component `refdes` among `pins` that `rule` flags, as
/// (component reference, pin name), in order.
pub open spec fn flagged_in(refdes: Seq<char>, pins: Seq<Pin>, rule: spec_fn(Seq<char>, Pin) -> bool) -> Seq<(Seq<char>, Seq<char>)>
    decreases pins.len(),
{
    if pins.len() == 0 {
        Seq::empty()
    } else {
        let rest = flagged_in(refdes, pins.drop_last(), rule);
        if rule(refdes, pins.last()) {
            rest.push((refdes, pins.last().name@))
        } else {
            rest
        }
    }
}

/// The pins of `comps` that `rule` flags, component by component.
pub open spec fn flagged_pins(comps: Seq<CompiledComponent>, rule: spec_fn(Seq<char>, Pin) -> bool) -> Seq<(Seq<char>, Seq<char>)>
    decreases comps.len(),
{
    if comps.len() == 0 {
        Seq::empty()
    } else {
        flagged_pins(comps.drop_last(), rule) + flagged_in(comps.last().refdes@, comps.last().pins@, rule)
    }
}

/// The diagnostic for pin `at` (component reference and pin name): `code`
/// at `severity`, the message `<lead><refdes>.<pin><tail>`, the pin as its
/// one entity, and `hint`.
pub open spec fn pin_diag_spec(
    d: Diagnostic,
    code: Seq<char>,
    severity: Severity,
    lead: Seq<char>,
    tail: Seq<char>,
    hint: Seq<char>,
    at: (Seq<char>, Seq<char>),
) -> bool {
    &&& d.code@ == code
    &&& d.severity == severity
    &&& d.message@ == lead + at.0 + seq!['.'] + at.1 + tail
    &&& d.entities@.len() == 1
    &&& d.entities@[0]@ == at.0 + seq!['.'] + at.1
    &&& d.hint matches Some(h) && h@ == hint
}

/// The floating-input rule: a pin that is not a no-connect, is a digital
/// I/O or analog input, carries no signal specification, and is unconnected.
pub open spec fn floating_input(board: CompiledBoard) -> spec_fn(Seq<char>, Pin) -> bool {
    |r: Seq<char>, p: Pin|
        !is_nc_name(p.name@) && (p.role == Role::DigitalIO || p.role == Role::AnalogIn) && !p.has_sig_spec
            && !pin_connected(board, r, p.name@)
}

/// The floating-power-input rule: an unconnected power input.
pub open spec fn floating_power_input(board: CompiledBoard) -> spec_fn(Seq<char>, Pin) -> bool {
    |r: Seq<char>, p: Pin| p.role == Role::PowerIn && !pin_connected(board, r, p.name@)
}

/// The no-connect rule: a connected no-connect pin.
pub open spec fn nc_connected(board: CompiledBoard) -> spec_fn(Seq<char>, Pin) -> bool {
    |r: Seq<char>, p: Pin| is_nc_name(p.name@) && pin_connected(board, r, p.name@)
}

/// Whether pin `pin` of a component named `refdes` is connected.
fn is_connected(board: &CompiledBoard, refdes: &str, pin: &str) -> (b: bool)
    requires
        connections_valid(*board),
    ensures
        b == pin_connected(*board, refdes@, pin@),
{
    let mut i: usize = 0;
    while i < board.connections.len()
        invariant
            i <= board.connections@.len(),
            connections_valid(*board),
            forall|j: int|
                0 <= j < i ==> !(board.components@[(#[trigger] board.connections@[j]).component as int].refdes@
                    == refdes@ && board.connections@[j].pin@ == pin@),
        decreases board.connections@.len() - i,
    {
        let c = &board.connections[i];
        assert(c.component < board.components@.len());
        if str_eq(board.components[c.component].refdes.as_str(), refdes) && str_eq(c.pin.as_str(), pin) {
            return true;
        }
        i = i + 1;
    }
    false
}

fn is_nc(name: &str) -> (b: bool)
    ensures
        b == is_nc_name(name@),
{
    proof {
        reveal_strlit("NC");
        reveal_strlit("NC_");
    }
    let cs = chars_of(name);
    let prefix = vec!['N', 'C', '_'];
    assert(prefix@ =~= "NC_"@);
    let b = str_eq(name, "NC") || starts_with(&cs, &prefix);
    assert(has_prefix(name@, "NC_"@) == (name@.len() >= 3 && name@.take(3) == "NC_"@));
    b
}

/// The diagnostic for pin `name` of component `refdes` (see
/// [`pin_diag_spec`]).
fn pin_diag(code: &str, severity: Severity, lead: &str, refdes: &str, name: &str, tail: &str, hint: &str) -> (d: Diagnostic)
    ensures
        pin_diag_spec(d, code@, severity, lead@, tail@, hint@, (refdes@, name@)),
{
    let mut message = String::new();
    push_str(&mut message, lead);
    push_str(&mut message, refdes);
    push_char(&mut message, '.');
    push_str(&mut message, name);
    push_str(&mut message, tail);
    let mut entity = String::new();
    push_str(&mut entity, refdes);
    push_char(&mut entity, '.');
    push_str(&mut entity, name);
    assert(message@ =~= lead@ + refdes@ + seq!['.'] + name@ + tail@);
    assert(entity@ =~= refdes@ + seq!['.'] + name@);
    let mut entities: Vec<String> = Vec::new();
    entities.push(entity);
    Diagnostic { code: code.to_string(), severity, message, entities, hint: Some(hint.to_string()) }
}

/// Which rule a check applies.
enum Rule {
    FloatingInput,
    FloatingPowerInput,
    NcConnected,
}

spec fn rule_spec(board: CompiledBoard, rule: Rule) -> spec_fn(Seq<char>, Pin) -> bool {
    match rule {
        Rule::FloatingInput => floating_input(board),
        Rule::FloatingPowerInput => floating_power_input(board),
        Rule::NcConnected => nc_connected(board),
    }
}

fn flags(board: &CompiledBoard, rule: &Rule, refdes: &str, pin: &Pin) -> (b: bool)
    requires
        connections_valid(*board),
    ensures
        b == (rule_spec(*board, *rule))(refdes@, *pin),
{
    match rule {
        Rule::FloatingInput => {
            !is_nc(pin.name.as_str()) && (pin.role == Role::DigitalIO || pin.role == Role::AnalogIn)
                && !pin.has_sig_spec && !is_connected(board, refdes, pin.name.as_str())
        },
        Rule::FloatingPowerInput => {
            pin.role == Role::PowerIn && !is_connected(board, refdes, pin.name.as_str())
        },
        Rule::NcConnected => {
            is_nc(pin.name.as_str()) && is_connected(board, refdes, pin.name.as_str())
        },
    }
}

/// One diagnostic per pin of `board` that `rule` flags, built by
/// [`pin_diag`] from the given texts.
fn check(board: &CompiledBoard, rule: Rule, code: &str, severity: Severity, lead: &str, tail: &str, hint: &str) -> (r: Vec<Diagnostic>)
    requires
        connections_valid(*board),
    ensures
        ({
            let f = flagged_pins(board.components@, rule_spec(*board, rule));
            &&& r@.len() == f.len()
            &&& forall|i: int|
                0 <= i < f.len() ==> pin_diag_spec(#[trigger] r@[i], code@, severity, lead@, tail@, hint@, f[i])
        }),
{
    let ghost rs = rule_spec(*board, rule);
    let mut diags: Vec<Diagnostic> = Vec::new();
    let mut c: usize = 0;
    while c < board.components.len()
        invariant
            c <= board.components@.len(),
            connections_valid(*board),
            rs == rule_spec(*board, rule),
            diags@.len() == flagged_pins(board.components@.take(c as int), rs).len(),
            forall|i: int|
                0 <= i < diags@.len() ==> pin_diag_spec(
                    #[trigger] diags@[i],
                    code@,
                    severity,
                    lead@,
                    tail@,
                    hint@,
                    flagged_pins(board.components@.take(c as int), rs)[i],
                ),
        decreases board.components@.len() - c,
    {
        let comp = &board.components[c];
        let ghost before = flagged_pins(board.components@.take(c as int), rs);
        assert(board.components@.take(c + 1).drop_last() =~= board.components@.take(c as int));
        assert(board.components@.take(c + 1).last() == *comp);
        let mut k: usize = 0;
        while k < comp.pins.len()
            invariant
                k <= comp.pins@.len(),
                connections_valid(*board),
                rs == rule_spec(*board, rule),
                diags@.len() == before.len() + flagged_in(comp.refdes@, comp.pins@.take(k as int), rs).len(),
                forall|i: int|
                    0 <= i < diags@.len() ==> pin_diag_spec(
                        #[trigger] diags@[i],
                        code@,
                        severity,
                        lead@,
                        tail@,
                        hint@,
                        (before + flagged_in(comp.refdes@, comp.pins@.take(k as int), rs))[i],
                    ),
            decreases comp.pins@.len() - k,
        {
            let pin = &comp.pins[k];
            let ghost prev = flagged_in(comp.refdes@, comp.pins@.take(k as int), rs);
            assert(comp.pins@.take(k + 1).drop_last() =~= comp.pins@.take(k as int));
            assert(comp.pins@.take(k + 1).last() == *pin);
            if flags(board, &rule, comp.refdes.as_str(), pin) {
                let d = pin_diag(code, severity, lead, comp.refdes.as_str(), pin.name.as_str(), tail, hint);
                diags.push(d);
                assert(before + prev.push((comp.refdes@, pin.name@)) =~= (before + prev).push(
                    (comp.refdes@, pin.name@),
                ));
            }
            k = k + 1;
        }
        assert(comp.pins@.take(k as int) =~= comp.pins@);
        c = c + 1;
    }
    assert(board.components@.take(c as int) =~= board.components@);
    diags
}

/// ERC rule: flag digital I/O and analog input pins with no signal
/// specification and no net connection (see [`floating_input`]).
pub fn erc_floating_inputs(board: &CompiledBoard) -> (r: Vec<Diagnostic>)
    requires
        connections_valid(*board),
    ensures
        ({
            let f = flagged_pins(board.components@, floating_input(*board));
            &&& r@.len() == f.len()
            &&& forall|i: int|
                0 <= i < f.len() ==> pin_diag_spec(
                    #[trigger] r@[i],
                    "ERC:FLOATING_INPUT"@,
                    Severity::Warning,
                    "Input pin "@,
                    " is floating"@,
                    "Connect the pin or assign a signal specification"@,
                    f[i],
                )
        }),
{
    check(
        board,
        Rule::FloatingInput,
        "ERC:FLOATING_INPUT",
        Severity::Warning,
        "Input pin ",
        " is floating",
        "Connect the pin or assign a signal specification",
    )
}

/// ERC rule: flag power input pins with no net connection (see
/// [`floating_power_input`]).
pub fn erc_floating_power_inputs(board: &CompiledBoard) -> (r: Vec<Diagnostic>)
    requires
        connections_valid(*board),
    ensures
        ({
            let f = flagged_pins(board.components@, floating_power_input(*board));
            &&& r@.len() == f.len()
            &&& forall|i: int|
                0 <= i < f.len() ==> pin_diag_spec(
                    #[trigger] r@[i],
                    "ERC:FLOATING_POWER_INPUT"@,
                    Severity::Warning,
                    "Power input pin "@,
                    " is unconnected"@,
                    "Connect the pin to a power net"@,
                    f[i],
                )
        }),
{
    check(
        board,
        Rule::FloatingPowerInput,
        "ERC:FLOATING_POWER_INPUT",
        Severity::Warning,
        "Power input pin ",
        " is unconnected",
        "Connect the pin to a power net",
    )
}

/// ERC rule: flag no-connect pins that are connected to a net (see
/// [`nc_connected`]).
pub fn erc_nc_pin_connected(board: &CompiledBoard) -> (r: Vec<Diagnostic>)
    requires
        connections_valid(*board),
    ensures
        ({
            let f = flagged_pins(board.components@, nc_connected(*board));
            &&& r@.len() == f.len()
            &&& forall|i: int|
                0 <= i < f.len() ==> pin_diag_spec(
                    #[trigger] r@[i],
                    "ERC:NC_CONNECTED"@,
                    Severity::Error,
                    "NC pin "@,
                    " is connected to a net"@,
                    "Leave no-connect pins unconnected"@,
                    f[i],
                )
        }),
{
    check(
        board,
        Rule::NcConnected,
        "ERC:NC_CONNECTED",
        Severity::Error,
        "NC pin ",
        " is connected to a net",
        "Leave no-connect pins unconnected",
    )
}


// ---------------------------------------------------------------------------
// Decoupling synthesis
// ---------------------------------------------------------------------------

/// A diagnostic as a mathematical value.
pub struct DiagView {
    pub code: Seq<char>,
    pub severity: Severity,
    pub message: Seq<char>,
    pub entities: Seq<Seq<char>>,
    pub hint: Option<Seq<char>>,
}

/// The mathematical value of a diagnostic.
pub open spec fn diag_view(d: Diagnostic) -> DiagView {
    DiagView {
        code: d.code@,
        severity: d.severity,
        message: d.message@,
        entities: d.entities@.map_values(|e: String| e@),
        hint: match d.hint {
            Some(h) => Some(h@),
            None => None,
        },
    }
}

/// A synthesised decoupling capacitor: its reference, value (farads, as
/// `f64` bits), net, and the component and pin it decouples.
#[derive(Clone, Debug)]
pub struct SynthCap {
    pub refdes: String,
    pub value: u64,
    pub net: String,
    pub source_component: String,
    pub source_pin: String,
}

/// What synthesis decides for one constraint or one target pin.
pub enum SynthItem {
    /// A decoupling constraint on a component with no power input pin.
    NoPowerPin { refdes: Seq<char> },
    /// A target power pin on no net.
    Unconnected { refdes: Seq<char>, pin: Seq<char> },
    /// Capacitors of `values` for pin `pin` of `refdes` on net `net`.
    Caps { refdes: Seq<char>, pin: Seq<char>, net: Seq<char>, values: Seq<u64> },
}

/// The power input pins among `pins`, in order.
pub open spec fn power_pins(pins: Seq<Pin>) -> Seq<Pin>
    decreases pins.len(),
{
    if pins.len() == 0 {
        Seq::empty()
    } else {
        (if pins[0].role == Role::PowerIn {
            seq![pins[0]]
        } else {
            Seq::empty()
        }) + power_pins(pins.skip(1))
    }
}

/// The net of the first connection of pin `pin` of component `c`.
pub open spec fn first_net(conns: Seq<Connection>, c: nat, pin: Seq<char>) -> Option<Seq<char>>
    decreases conns.len(),
{
    if conns.len() == 0 {
        None
    } else if conns[0].component == c && conns[0].pin@ == pin {
        Some(conns[0].net@)
    } else {
        first_net(conns.skip(1), c, pin)
    }
}

/// The decisions for the target pins `pins` of component `c`.
pub open spec fn pin_items(board: CompiledBoard, c: nat, refdes: Seq<char>, pins: Seq<Pin>, values: Seq<u64>) -> Seq<SynthItem>
    decreases pins.len(),
{
    if pins.len() == 0 {
        Seq::empty()
    } else {
        seq![
            match first_net(board.connections@, c, pins[0].name@) {
                None => SynthItem::Unconnected { refdes, pin: pins[0].name@ },
                Some(n) => SynthItem::Caps { refdes, pin: pins[0].name@, net: n, values },
            },
        ] + pin_items(board, c, refdes, pins.skip(1), values)
    }
}

/// The decisions for one constraint of component `c`: without a power input
/// pin, that; otherwise one per target pin (every power input when
/// `per_pin`, else the first).
pub open spec fn constraint_items(board: CompiledBoard, c: nat, comp: CompiledComponent, k: Constraint) -> Seq<SynthItem> {
    match k {
        Constraint::Decoupling { values, per_pin } => {
            let power = power_pins(comp.pins@);
            if power.len() == 0 {
                seq![SynthItem::NoPowerPin { refdes: comp.refdes@ }]
            } else {
                pin_items(
                    board,
                    c,
                    comp.refdes@,
                    if per_pin {
                        power
                    } else {
                        power.take(1)
                    },
                    values@,
                )
            }
        },
    }
}

/// The decisions for the constraints `ks` of component `c`, in order.
pub open spec fn constraints_items(board: CompiledBoard, c: nat, comp: CompiledComponent, ks: Seq<Constraint>) -> Seq<SynthItem>
    decreases ks.len(),
{
    if ks.len() == 0 {
        Seq::empty()
    } else {
        constraint_items(board, c, comp, ks[0]) + constraints_items(board, c, comp, ks.skip(1))
    }
}

/// The decisions for the components from index `c` on.
pub open spec fn items_from(board: CompiledBoard, c: nat) -> Seq<SynthItem>
    decreases board.components@.len() - c,
{
    if c >= board.components@.len() {
        Seq::empty()
    } else {
        constraints_items(board, c, board.components@[c as int], board.components@[c as int].constraints@)
            + items_from(board, c + 1)
    }
}

/// The capacitors one decision calls for: (value, net, component, pin).
pub open spec fn item_caps(it: SynthItem) -> Seq<(u64, Seq<char>, Seq<char>, Seq<char>)> {
    match it {
        SynthItem::Caps { refdes, pin, net, values } => values.map_values(|v: u64| (v, net, refdes, pin)),
        _ => Seq::empty(),
    }
}

/// The warning for a component with a decoupling constraint and no power
/// input pin.
pub open spec fn no_power_view(refdes: Seq<char>) -> DiagView {
    DiagView {
        code: "DECOUPLE:NO_PWR_PIN"@,
        severity: Severity::Warning,
        message: refdes + " has a decoupling constraint but no power-input pins"@,
        entities: seq![refdes],
        hint: Some("add a PowerIn pin to the part definition"@),
    }
}

/// The warning for a target power pin on no net.
pub open spec fn unconnected_view(refdes: Seq<char>, pin: Seq<char>) -> DiagView {
    DiagView {
        code: "DECOUPLE:UNCONNECTED"@,
        severity: Severity::Warning,
        message: "power pin "@ + refdes + seq!['.'] + pin + " is not connected to a net"@,
        entities: seq![refdes + seq!['.'] + pin],
        hint: Some("connect the pin to a power net"@),
    }
}

/// The warning of one decision, if it has one.
pub open spec fn item_diag(it: SynthItem) -> Seq<DiagView> {
    match it {
        SynthItem::NoPowerPin { refdes } => seq![no_power_view(refdes)],
        SynthItem::Unconnected { refdes, pin } => seq![unconnected_view(refdes, pin)],
        _ => Seq::empty(),
    }
}

/// The capacitors the decisions call for: (value, net, component, pin).
pub open spec fn flat_caps(items: Seq<SynthItem>) -> Seq<(u64, Seq<char>, Seq<char>, Seq<char>)>
    decreases items.len(),
{
    if items.len() == 0 {
        Seq::empty()
    } else {
        item_caps(items[0]) + flat_caps(items.skip(1))
    }
}

/// The warnings of the decisions, in order.
pub open spec fn item_diags(items: Seq<SynthItem>) -> Seq<DiagView>
    decreases items.len(),
{
    if items.len() == 0 {
        Seq::empty()
    } else {
        item_diag(items[0]) + item_diags(items.skip(1))
    }
}

/// The reference of the `k`-th synthesised capacitor (from 0): `C<k+1>`.
pub open spec fn cap_refdes(k: nat) -> Seq<char> {
    seq!['C'] + decimal(k + 1)
}

/// The summary after `n` capacitors were placed, with their references.
pub open spec fn summary_diag(n: nat) -> DiagView {
    DiagView {
        code: "DECOUPLE:SUMMARY"@,
        severity: Severity::Info,
        message: "placed "@ + decimal(n) + " decoupling capacitor(s)"@,
        entities: Seq::new(n, |k: int| cap_refdes(k as nat)),
        hint: None,
    }
}

/// The component placed for capacitor `refdes`: no library references,
/// pin `1` a power input and pin `2` ground, no constraints.
pub open spec fn is_capacitor(c: CompiledComponent, refdes: Seq<char>) -> bool {
    &&& c.refdes@ == refdes
    &&& c.meta.symbol is None && c.meta.footprint is None && c.meta.datasheet is None
    &&& c.meta.description is None && c.meta.model_3d is None && c.meta.model_3d_data is None
    &&& c.pins@.len() == 2
    &&& c.pins@[0].name@ == "1"@ && c.pins@[0].number is None && c.pins@[0].role == Role::PowerIn
    &&& !c.pins@[0].has_sig_spec
    &&& c.pins@[1].name@ == "2"@ && c.pins@[1].number is None && c.pins@[1].role == Role::Gnd
    &&& !c.pins@[1].has_sig_spec
    &&& c.constraints@.len() == 0
}

proof fn lemma_flat_caps_concat(a: Seq<SynthItem>, b: Seq<SynthItem>)
    ensures
        flat_caps(a + b) == flat_caps(a) + flat_caps(b),
        item_diags(a + b) == item_diags(a) + item_diags(b),
    decreases a.len(),
{
    if a.len() == 0 {
        assert(a + b =~= b);
    } else {
        assert((a + b).skip(1) =~= a.skip(1) + b);
        assert((a + b)[0] == a[0]);
        lemma_flat_caps_concat(a.skip(1), b);
    }
}

proof fn lemma_one_item(it: SynthItem)
    ensures
        flat_caps(seq![it]) == item_caps(it),
        item_diags(seq![it]) == item_diag(it),
{
    let one = seq![it];
    assert(one.skip(1) =~= Seq::<SynthItem>::empty());
    assert(one[0] == it);
    assert(flat_caps(Seq::<SynthItem>::empty()) == Seq::<(u64, Seq<char>, Seq<char>, Seq<char>)>::empty());
    assert(item_diags(Seq::<SynthItem>::empty()) == Seq::<DiagView>::empty());
    assert(flat_caps(one) == item_caps(it) + flat_caps(one.skip(1)));
    assert(item_diags(one) == item_diag(it) + item_diags(one.skip(1)));
    assert(item_caps(it) + Seq::<(u64, Seq<char>, Seq<char>, Seq<char>)>::empty() =~= item_caps(it));
    assert(item_diag(it) + Seq::<DiagView>::empty() =~= item_diag(it));
}

/// The net of pin `pin` of component `c` (see [`first_net`]).
fn find_net(board: &CompiledBoard, c: usize, pin: &str) -> (r: Option<String>)
    ensures
        match first_net(board.connections@, c as nat, pin@) {
            Some(n) => r matches Some(s) && s@ == n,
            None => r is None,
        },
{
    let mut i: usize = 0;
    assert(board.connections@.skip(0) =~= board.connections@);
    while i < board.connections.len()
        invariant
            i <= board.connections@.len(),
            first_net(board.connections@, c as nat, pin@) == first_net(board.connections@.skip(i as int), c as nat, pin@),
        decreases board.connections@.len() - i,
    {
        let conn = &board.connections[i];
        assert(board.connections@.skip(i as int)[0] == *conn);
        if conn.component == c && str_eq(conn.pin.as_str(), pin) {
            return Some(conn.net.clone());
        }
        assert(board.connections@.skip(i as int).skip(1) =~= board.connections@.skip(i + 1));
        i = i + 1;
    }
    None
}

fn make_capacitor_component(refdes: &str) -> (c: CompiledComponent)
    ensures
        is_capacitor(c, refdes@),
{
    let mut pins: Vec<Pin> = Vec::new();
    pins.push(Pin { name: "1".to_string(), number: None, role: Role::PowerIn, has_sig_spec: false });
    pins.push(Pin { name: "2".to_string(), number: None, role: Role::Gnd, has_sig_spec: false });
    CompiledComponent {
        refdes: refdes.to_string(),
        meta: ComponentMeta {
            symbol: None,
            footprint: None,
            datasheet: None,
            description: None,
            model_3d: None,
            model_3d_data: None,
        },
        pins,
        constraints: Vec::new(),
    }
}

fn no_power_diag(refdes: &str) -> (d: Diagnostic)
    ensures
        diag_view(d) == no_power_view(refdes@),
{
    let mut message = String::new();
    push_str(&mut message, refdes);
    push_str(&mut message, " has a decoupling constraint but no power-input pins");
    let mut entities: Vec<String> = Vec::new();
    entities.push(refdes.to_string());
    let d = Diagnostic {
        code: "DECOUPLE:NO_PWR_PIN".to_string(),
        severity: Severity::Warning,
        message,
        entities,
        hint: Some("add a PowerIn pin to the part definition".to_string()),
    };
    proof {
        assert(d.entities@.map_values(|e: String| e@) =~= seq![refdes@]);
    }
    d
}

fn unconnected_diag(refdes: &str, pin: &str) -> (d: Diagnostic)
    ensures
        diag_view(d) == unconnected_view(refdes@, pin@),
{
    let mut message = String::new();
    push_str(&mut message, "power pin ");
    push_str(&mut message, refdes);
    push_char(&mut message, '.');
    push_str(&mut message, pin);
    push_str(&mut message, " is not connected to a net");
    let mut entity = String::new();
    push_str(&mut entity, refdes);
    push_char(&mut entity, '.');
    push_str(&mut entity, pin);
    assert(entity@ =~= refdes@ + seq!['.'] + pin@);
    let mut entities: Vec<String> = Vec::new();
    entities.push(entity);
    let d = Diagnostic {
        code: "DECOUPLE:UNCONNECTED".to_string(),
        severity: Severity::Warning,
        message,
        entities,
        hint: Some("connect the pin to a power net".to_string()),
    };
    proof {
        assert(d.message@ =~= "power pin "@ + refdes@ + seq!['.'] + pin@ + " is not connected to a net"@);
        assert(d.entities@.map_values(|e: String| e@) =~= seq![refdes@ + seq!['.'] + pin@]);
    }
    d
}

/// Everything synthesis produced so far matches the decisions `done`.
pub open spec fn synth_matches(
    comps: Seq<CompiledComponent>,
    caps: Seq<SynthCap>,
    diags: Seq<Diagnostic>,
    done: Seq<SynthItem>,
) -> bool {
    let f = flat_caps(done);
    &&& caps.len() == f.len()
    &&& comps.len() == f.len()
    &&& forall|k: int|
        0 <= k < f.len() ==> {
            &&& (#[trigger] caps[k]).refdes@ == cap_refdes(k as nat)
            &&& (caps[k].value, caps[k].net@, caps[k].source_component@, caps[k].source_pin@) == f[k]
            &&& is_capacitor(comps[k], cap_refdes(k as nat))
        }
    &&& diags.map_values(|d: Diagnostic| diag_view(d)) == item_diags(done)
}

/// Place the capacitors of `values` for pin `pin` of `refdes` on `net`.
fn place_caps(
    comps: &mut Vec<CompiledComponent>,
    caps: &mut Vec<SynthCap>,
    diags: &Vec<Diagnostic>,
    refdes: &str,
    pin: &str,
    net: &str,
    values: &Vec<u64>,
    Ghost(done): Ghost<Seq<SynthItem>>,
    Ghost(total): Ghost<nat>,
)
    requires
        synth_matches(old(comps)@, old(caps)@, diags@, done),
        flat_caps(done).len() + values@.len() <= total,
        total < u32::MAX,
    ensures
        synth_matches(
            final(comps)@,
            final(caps)@,
            diags@,
            done + seq![SynthItem::Caps { refdes: refdes@, pin: pin@, net: net@, values: values@ }],
        ),
{
    let ghost it = SynthItem::Caps { refdes: refdes@, pin: pin@, net: net@, values: values@ };
    let ghost f0 = flat_caps(done);
    let ghost add = values@.map_values(|v: u64| (v, net@, refdes@, pin@));
    proof {
        lemma_flat_caps_concat(done, seq![it]);
        lemma_one_item(it);
        assert(item_diags(done + seq![it]) =~= item_diags(done));
        assert(flat_caps(done + seq![it]) =~= f0 + add);
    }
    let mut j: usize = 0;
    while j < values.len()
        invariant
            j <= values@.len(),
            f0 == flat_caps(done),
            add == values@.map_values(|v: u64| (v, net@, refdes@, pin@)),
            f0.len() + values@.len() <= total,
            total < u32::MAX,
            diags@.map_values(|d: Diagnostic| diag_view(d)) == item_diags(done),
            caps@.len() == f0.len() + j,
            comps@.len() == f0.len() + j,
            forall|k: int|
                0 <= k < caps@.len() ==> {
                    &&& (#[trigger] caps@[k]).refdes@ == cap_refdes(k as nat)
                    &&& (caps@[k].value, caps@[k].net@, caps@[k].source_component@, caps@[k].source_pin@)
                        == (f0 + add)[k]
                    &&& is_capacitor(comps@[k], cap_refdes(k as nat))
                },
        decreases values@.len() - j,
    {
        let n: u64 = (caps.len() + 1) as u64;
        let mut r = String::new();
        push_char(&mut r, 'C');
        push_str(&mut r, u64_to_string(n).as_str());
        assert(r@ =~= cap_refdes(caps@.len() as nat));
        comps.push(make_capacitor_component(r.as_str()));
        caps.push(
            SynthCap {
                refdes: r,
                value: values[j],
                net: net.to_string(),
                source_component: refdes.to_string(),
                source_pin: pin.to_string(),
            },
        );
        j = j + 1;
    }
    assert(caps@.len() == flat_caps(done + seq![it]).len());
}

/// Synthesise decoupling capacitors from the components' decoupling
/// constraints, deterministically: component by component, constraint by
/// constraint, target pin by target pin (see [`constraint_items`]), one
/// capacitor per value, numbered `C1`, `C2`, … in that order; a warning for
/// a constraint without a power input and for an unconnected target pin;
/// and, when any capacitor was placed, an info summary naming them all.
pub fn synthesise_decoupling(board: &CompiledBoard) -> (r: (Vec<CompiledComponent>, Vec<SynthCap>, Vec<Diagnostic>))
    requires
        flat_caps(items_from(*board, 0)).len() < u32::MAX,
    ensures
        ({
            let items = items_from(*board, 0);
            let f = flat_caps(items);
            &&& r.1@.len() == f.len()
            &&& r.0@.len() == f.len()
            &&& forall|k: int|
                0 <= k < f.len() ==> {
                    &&& (#[trigger] r.1@[k]).refdes@ == cap_refdes(k as nat)
                    &&& (r.1@[k].value, r.1@[k].net@, r.1@[k].source_component@, r.1@[k].source_pin@) == f[k]
                    &&& is_capacitor(r.0@[k], cap_refdes(k as nat))
                }
            &&& r.2@.map_values(|d: Diagnostic| diag_view(d)) == item_diags(items) + (if f.len() > 0 {
                seq![summary_diag(f.len())]
            } else {
                Seq::empty()
            })
        }),
{
    let ghost all = items_from(*board, 0);
    let ghost total = flat_caps(all).len();
    let mut comps: Vec<CompiledComponent> = Vec::new();
    let mut caps: Vec<SynthCap> = Vec::new();
    let mut diags: Vec<Diagnostic> = Vec::new();
    let ghost mut done: Seq<SynthItem> = Seq::empty();
    proof {
        assert(diags@.map_values(|d: Diagnostic| diag_view(d)) =~= item_diags(done));
        assert(all =~= done + items_from(*board, 0));
    }
    let mut c: usize = 0;
    while c < board.components.len()
        invariant
            c <= board.components@.len(),
            all == items_from(*board, 0),
            total == flat_caps(all).len(),
            total < u32::MAX,
            all == done + items_from(*board, c as nat),
            synth_matches(comps@, caps@, diags@, done),
        decreases board.components@.len() - c,
    {
        let comp = &board.components[c];
        assert(items_from(*board, c as nat) == constraints_items(*board, c as nat, *comp, comp.constraints@)
            + items_from(*board, (c + 1) as nat));
        let ghost after = items_from(*board, (c + 1) as nat);
        let mut power: Vec<usize> = Vec::new();
        let mut p: usize = 0;
        assert(comp.pins@.skip(0) =~= comp.pins@);
        while p < comp.pins.len()
            invariant
                p <= comp.pins@.len(),
                forall|t: int| 0 <= t < power@.len() ==> (#[trigger] power@[t]) < comp.pins@.len(),
                power_pins(comp.pins@) == power@.map_values(|t: usize| comp.pins@[t as int]) + power_pins(
                    comp.pins@.skip(p as int),
                ),
            decreases comp.pins@.len() - p,
        {
            let ghost rest = comp.pins@.skip(p as int);
            assert(rest.skip(1) =~= comp.pins@.skip(p + 1));
            assert(rest[0] == comp.pins@[p as int]);
            if comp.pins[p].role == Role::PowerIn {
                let ghost before = power@;
                power.push(p);
                assert(power@.map_values(|t: usize| comp.pins@[t as int]) =~= before.map_values(
                    |t: usize| comp.pins@[t as int],
                ) + seq![comp.pins@[p as int]]);
            }
            p = p + 1;
        }
        assert(comp.pins@.skip(p as int) =~= Seq::<Pin>::empty());
        assert(power_pins(Seq::<Pin>::empty()) =~= Seq::<Pin>::empty());
        let ghost pw = power_pins(comp.pins@);
        assert(pw =~= power@.map_values(|t: usize| comp.pins@[t as int]));
        let mut k: usize = 0;
        assert(comp.constraints@.skip(0) =~= comp.constraints@);
        while k < comp.constraints.len()
            invariant
                c < board.components@.len(),
                *comp == board.components@[c as int],
                k <= comp.constraints@.len(),
                all == items_from(*board, 0),
                total == flat_caps(all).len(),
                total < u32::MAX,
                pw == power_pins(comp.pins@),
                pw == power@.map_values(|t: usize| comp.pins@[t as int]),
                forall|t: int| 0 <= t < power@.len() ==> (#[trigger] power@[t]) < comp.pins@.len(),
                after == items_from(*board, (c + 1) as nat),
                all == done + constraints_items(*board, c as nat, *comp, comp.constraints@.skip(k as int))
                    + after,
                synth_matches(comps@, caps@, diags@, done),
            decreases comp.constraints@.len() - k,
        {
            let ghost ks = comp.constraints@.skip(k as int);
            assert(ks.skip(1) =~= comp.constraints@.skip(k + 1));
            assert(ks[0] == comp.constraints@[k as int]);
            let ghost later = constraints_items(*board, c as nat, *comp, comp.constraints@.skip(k + 1));
            match &comp.constraints[k] {
                Constraint::Decoupling { values, per_pin } => {
                    if power.len() == 0 {
                        let d = no_power_diag(comp.refdes.as_str());
                        let ghost it = SynthItem::NoPowerPin { refdes: comp.refdes@ };
                        proof {
                            lemma_flat_caps_concat(done, seq![it]);
                            lemma_one_item(it);
                            assert(diags@.push(d).map_values(|x: Diagnostic| diag_view(x)) =~= diags@.map_values(
                                |x: Diagnostic| diag_view(x),
                            ) + item_diag(it));
                            assert(flat_caps(done + seq![it]) =~= flat_caps(done));
                        }
                        diags.push(d);
                        proof {
                            assert(constraint_items(*board, c as nat, *comp, ks[0]) == seq![it]);
                            assert(all == (done + seq![it]) + later + after);
                            done = done + seq![it];
                        }
                    } else {
                        let ntargets: usize = if *per_pin { power.len() } else { 1 };
                        let ghost targets = if *per_pin { pw } else { pw.take(1) };
                        assert(targets =~= power@.take(ntargets as int).map_values(|t: usize| comp.pins@[t as int]));
                        let mut j: usize = 0;
                        assert(targets.skip(0) =~= targets);
                        while j < ntargets
                            invariant
                                c < board.components@.len(),
                                *comp == board.components@[c as int],
                                j <= ntargets,
                                ntargets <= power@.len(),
                                targets == power@.take(ntargets as int).map_values(|t: usize| comp.pins@[t as int]),
                                forall|t: int| 0 <= t < power@.len() ==> (#[trigger] power@[t]) < comp.pins@.len(),
                                all == items_from(*board, 0),
                                total == flat_caps(all).len(),
                                total < u32::MAX,
                                all == done + pin_items(*board, c as nat, comp.refdes@, targets.skip(j as int), values@)
                                    + later + after,
                                synth_matches(comps@, caps@, diags@, done),
                            decreases ntargets - j,
                        {
                            let pin = &comp.pins[power[j]];
                            let ghost ts = targets.skip(j as int);
                            assert(ts[0] == *pin);
                            assert(ts.skip(1) =~= targets.skip(j + 1));
                            let ghost rest_items = pin_items(*board, c as nat, comp.refdes@, targets.skip(j + 1), values@);
                            match find_net(board, c, pin.name.as_str()) {
                                None => {
                                    let d = unconnected_diag(comp.refdes.as_str(), pin.name.as_str());
                                    let ghost it = SynthItem::Unconnected { refdes: comp.refdes@, pin: pin.name@ };
                                    proof {
                                        lemma_flat_caps_concat(done, seq![it]);
                                        lemma_one_item(it);
                                        assert(diags@.push(d).map_values(|x: Diagnostic| diag_view(x)) =~= diags@.map_values(
                                            |x: Diagnostic| diag_view(x),
                                        ) + item_diag(it));
                                        assert(flat_caps(done + seq![it]) =~= flat_caps(done));
                                    }
                                    diags.push(d);
                                    proof {
                                        assert(all == (done + seq![it]) + rest_items + later + after);
                                        done = done + seq![it];
                                    }
                                },
                                Some(net) => {
                                    let ghost it = SynthItem::Caps {
                                        refdes: comp.refdes@,
                                        pin: pin.name@,
                                        net: net@,
                                        values: values@,
                                    };
                                    proof {
                                        assert(all == (done + seq![it]) + (rest_items + later + after));
                                        lemma_flat_caps_concat(done + seq![it], rest_items + later + after);
                                        lemma_flat_caps_concat(done, seq![it]);
                                        lemma_one_item(it);
                                    }
                                    place_caps(
                                        &mut comps,
                                        &mut caps,
                                        &diags,
                                        comp.refdes.as_str(),
                                        pin.name.as_str(),
                                        net.as_str(),
                                        values,
                                        Ghost(done),
                                        Ghost(total),
                                    );
                                    proof {
                                        done = done + seq![it];
                                    }
                                },
                            }
                            j = j + 1;
                        }
                        proof {
                            assert(targets.skip(j as int) =~= Seq::<Pin>::empty());
                            assert(constraint_items(*board, c as nat, *comp, ks[0]) == pin_items(
                                *board,
                                c as nat,
                                comp.refdes@,
                                targets,
                                values@,
                            ));
                            assert(all =~= done + later + after);
                        }
                    }
                },
            }
            k = k + 1;
        }
        assert(comp.constraints@.skip(k as int) =~= Seq::<Constraint>::empty());
        assert(all =~= done + after);
        c = c + 1;
    }
    assert(all =~= done);
    let n = caps.len();
    if n > 0 {
        let mut message = "placed ".to_string();
        push_str(&mut message, u64_to_string(n as u64).as_str());
        push_str(&mut message, " decoupling capacitor(s)");
        let mut entities: Vec<String> = Vec::new();
        let mut i: usize = 0;
        while i < n
            invariant
                i <= n,
                n == caps@.len(),
                entities@.len() == i,
                forall|t: int| 0 <= t < i ==> (#[trigger] entities@[t])@ == caps@[t].refdes@,
            decreases n - i,
        {
            entities.push(caps[i].refdes.clone());
            i = i + 1;
        }
        let d = Diagnostic {
            code: "DECOUPLE:SUMMARY".to_string(),
            severity: Severity::Info,
            message,
            entities,
            hint: None,
        };
        proof {
            reveal_strlit("placed ");
            assert(d.message@ =~= "placed "@ + decimal(n as nat) + " decoupling capacitor(s)"@);
            assert(d.entities@.map_values(|e: String| e@) =~= Seq::new(n as nat, |k: int| cap_refdes(k as nat)));
            assert(diag_view(d) == summary_diag(n as nat));
            assert(diags@.push(d).map_values(|x: Diagnostic| diag_view(x)) =~= diags@.map_values(
                |x: Diagnostic| diag_view(x),
            ) + seq![diag_view(d)]);
        }
        diags.push(d);
    }
    (comps, caps, diags)
}


proof fn lemma_flagged_in_has(refdes: Seq<char>, pins: Seq<Pin>, rule: spec_fn(Seq<char>, Pin) -> bool, j: int)
    requires
        0 <= j < pins.len(),
        rule(refdes, pins[j]),
    ensures
        flagged_in(refdes, pins, rule).contains((refdes, pins[j].name@)),
    decreases pins.len(),
{
    let rest = flagged_in(refdes, pins.drop_last(), rule);
    if j < pins.len() - 1 {
        assert(pins.drop_last()[j] == pins[j]);
        lemma_flagged_in_has(refdes, pins.drop_last(), rule, j);
        let m = choose|m: int| 0 <= m < rest.len() && rest[m] == (refdes, pins[j].name@);
        if rule(refdes, pins.last()) {
            assert(rest.push((refdes, pins.last().name@))[m] == (refdes, pins[j].name@));
        }
    } else {
        assert(rest.push((refdes, pins.last().name@))[rest.len() as int] == (refdes, pins[j].name@));
    }
}

proof fn lemma_flagged_in_from(
    refdes: Seq<char>,
    pins: Seq<Pin>,
    rule: spec_fn(Seq<char>, Pin) -> bool,
    x: (Seq<char>, Seq<char>),
)
    requires
        flagged_in(refdes, pins, rule).contains(x),
    ensures
        exists|j: int| 0 <= j < pins.len() && x == (refdes, pins[j].name@) && rule(refdes, #[trigger] pins[j]),
    decreases pins.len(),
{
    let rest = flagged_in(refdes, pins.drop_last(), rule);
    let m = choose|m: int| 0 <= m < flagged_in(refdes, pins, rule).len() && flagged_in(refdes, pins, rule)[m] == x;
    if m < rest.len() {
        assert(rest[m] == x);
        lemma_flagged_in_from(refdes, pins.drop_last(), rule, x);
        let j = choose|j: int| 0 <= j < pins.drop_last().len() && x == (refdes, pins.drop_last()[j].name@) && rule(
            refdes,
            #[trigger] pins.drop_last()[j],
        );
        assert(pins.drop_last()[j] == pins[j]);
    } else {
        assert(rule(refdes, pins[pins.len() - 1]));
    }
}

proof fn lemma_flagged_pins_has(comps: Seq<CompiledComponent>, rule: spec_fn(Seq<char>, Pin) -> bool, k: int, j: int)
    requires
        0 <= k < comps.len(),
        0 <= j < comps[k].pins@.len(),
        rule(comps[k].refdes@, comps[k].pins@[j]),
    ensures
        flagged_pins(comps, rule).contains((comps[k].refdes@, comps[k].pins@[j].name@)),
    decreases comps.len(),
{
    let init = flagged_pins(comps.drop_last(), rule);
    let last = flagged_in(comps.last().refdes@, comps.last().pins@, rule);
    let x = (comps[k].refdes@, comps[k].pins@[j].name@);
    if k < comps.len() - 1 {
        assert(comps.drop_last()[k] == comps[k]);
        lemma_flagged_pins_has(comps.drop_last(), rule, k, j);
        let m = choose|m: int| 0 <= m < init.len() && init[m] == x;
        assert((init + last)[m] == x);
    } else {
        lemma_flagged_in_has(comps.last().refdes@, comps.last().pins@, rule, j);
        let m = choose|m: int| 0 <= m < last.len() && last[m] == x;
        assert((init + last)[init.len() + m] == x);
    }
}

proof fn lemma_flagged_pins_from(comps: Seq<CompiledComponent>, rule: spec_fn(Seq<char>, Pin) -> bool, x: (Seq<char>, Seq<char>))
    requires
        flagged_pins(comps, rule).contains(x),
    ensures
        exists|k: int, j: int|
            0 <= k < comps.len() && 0 <= j < comps[k].pins@.len() && x == (comps[k].refdes@, comps[k].pins@[j].name@)
                && rule(comps[k].refdes@, #[trigger] comps[k].pins@[j]),
    decreases comps.len(),
{
    let init = flagged_pins(comps.drop_last(), rule);
    let last = flagged_in(comps.last().refdes@, comps.last().pins@, rule);
    let all = init + last;
    let m = choose|m: int| 0 <= m < all.len() && all[m] == x;
    if m < init.len() {
        assert(init[m] == x);
        lemma_flagged_pins_from(comps.drop_last(), rule, x);
        let (k, j) = choose|k: int, j: int|
            0 <= k < comps.drop_last().len() && 0 <= j < comps.drop_last()[k].pins@.len() && x == (
                comps.drop_last()[k].refdes@,
                comps.drop_last()[k].pins@[j].name@,
            ) && rule(comps.drop_last()[k].refdes@, #[trigger] comps.drop_last()[k].pins@[j]);
        assert(comps.drop_last()[k] == comps[k]);
    } else {
        assert(last[m - init.len()] == x);
        lemma_flagged_in_from(comps.last().refdes@, comps.last().pins@, rule, x);
        let j = choose|j: int| 0 <= j < comps.last().pins@.len() && x == (comps.last().refdes@, comps.last().pins@[j].name@)
            && rule(comps.last().refdes@, #[trigger] comps.last().pins@[j]);
        assert(comps[comps.len() - 1] == comps.last());
    }
}

/// Whether no connection attaches a pin named `pin` to a component whose
/// reference is `refdes` (connections of same-named pins of other
/// components do not count).
pub open spec fn unattached(board: CompiledBoard, refdes: Seq<char>, pin: Seq<char>) -> bool {
    forall|i: int|
        0 <= i < board.connections@.len() && (#[trigger] board.connections@[i]).pin@ == pin ==> board.components@[
            board.connections@[i].component as int].refdes@ != refdes
}

/// A power input pin of a component that no connection of that component
/// attaches is reported floating, whatever connections other components
/// have on pins of the same name; and one that a connection of its own
/// component attaches is not reported.
pub proof fn law_floating_power_input_is_per_component(board: CompiledBoard, k: int, j: int)
    requires
        0 <= k < board.components@.len(),
        0 <= j < board.components@[k].pins@.len(),
        board.components@[k].pins@[j].role == Role::PowerIn,
    ensures
        ({
            let c = board.components@[k];
            let f = flagged_pins(board.components@, floating_power_input(board));
            &&& unattached(board, c.refdes@, c.pins@[j].name@) ==> f.contains((c.refdes@, c.pins@[j].name@))
            &&& !unattached(board, c.refdes@, c.pins@[j].name@) ==> !f.contains((c.refdes@, c.pins@[j].name@))
        }),
{
    let c = board.components@[k];
    let name = c.pins@[j].name@;
    let rule = floating_power_input(board);
    if unattached(board, c.refdes@, name) {
        assert(!pin_connected(board, c.refdes@, name));
        lemma_flagged_pins_has(board.components@, rule, k, j);
    } else {
        let i = choose|i: int|
            0 <= i < board.connections@.len() && (#[trigger] board.connections@[i]).pin@ == name && board.components@[
                board.connections@[i].component as int].refdes@ == c.refdes@;
        assert(pin_connected(board, c.refdes@, name));
        if flagged_pins(board.components@, rule).contains((c.refdes@, name)) {
            lemma_flagged_pins_from(board.components@, rule, (c.refdes@, name));
        }
    }
}

/// A digital I/O or analog input pin without a signal specification and not
/// named as a no-connect is reported floating exactly when no connection of
/// its own component attaches it.
pub proof fn law_floating_input_is_per_component(board: CompiledBoard, k: int, j: int)
    requires
        0 <= k < board.components@.len(),
        0 <= j < board.components@[k].pins@.len(),
        board.components@[k].pins@[j].role == Role::DigitalIO || board.components@[k].pins@[j].role == Role::AnalogIn,
        !board.components@[k].pins@[j].has_sig_spec,
        !is_nc_name(board.components@[k].pins@[j].name@),
    ensures
        ({
            let c = board.components@[k];
            let f = flagged_pins(board.components@, floating_input(board));
            f.contains((c.refdes@, c.pins@[j].name@)) <==> unattached(board, c.refdes@, c.pins@[j].name@)
        }),
{
    let c = board.components@[k];
    let name = c.pins@[j].name@;
    let rule = floating_input(board);
    if unattached(board, c.refdes@, name) {
        assert(!pin_connected(board, c.refdes@, name));
        lemma_flagged_pins_has(board.components@, rule, k, j);
    } else {
        let i = choose|i: int|
            0 <= i < board.connections@.len() && (#[trigger] board.connections@[i]).pin@ == name && board.components@[
                board.connections@[i].component as int].refdes@ == c.refdes@;
        assert(pin_connected(board, c.refdes@, name));
        if flagged_pins(board.components@, rule).contains((c.refdes@, name)) {
            lemma_flagged_pins_from(board.components@, rule, (c.refdes@, name));
        }
    }
}

/// A no-connect pin is reported exactly when a connection of its own
/// component attaches it; a connection of a same-named pin of another
/// component does not make it reported.
pub proof fn law_nc_connected_is_per_component(board: CompiledBoard, k: int, j: int)
    requires
        0 <= k < board.components@.len(),
        0 <= j < board.components@[k].pins@.len(),
        is_nc_name(board.components@[k].pins@[j].name@),
    ensures
        ({
            let c = board.components@[k];
            let f = flagged_pins(board.components@, nc_connected(board));
            f.contains((c.refdes@, c.pins@[j].name@)) <==> !unattached(board, c.refdes@, c.pins@[j].name@)
        }),
{
    let c = board.components@[k];
    let name = c.pins@[j].name@;
    let rule = nc_connected(board);
    if unattached(board, c.refdes@, name) {
        if flagged_pins(board.components@, rule).contains((c.refdes@, name)) {
            lemma_flagged_pins_from(board.components@, rule, (c.refdes@, name));
            let (k2, j2) = choose|k2: int, j2: int|
                0 <= k2 < board.components@.len() && 0 <= j2 < board.components@[k2].pins@.len() && (c.refdes@, name) == (
                    board.components@[k2].refdes@,
                    board.components@[k2].pins@[j2].name@,
                ) && rule(board.components@[k2].refdes@, #[trigger] board.components@[k2].pins@[j2]);
            assert(pin_connected(board, c.refdes@, name));
            let i = choose|i: int|
                0 <= i < board.connections@.len() && board.components@[(#[trigger] board.connections@[i]).component as int].refdes@
                    == c.refdes@ && board.connections@[i].pin@ == name;
            assert(false);
        }
    } else {
        let i = choose|i: int|
            0 <= i < board.connections@.len() && (#[trigger] board.connections@[i]).pin@ == name && board.components@[
                board.connections@[i].component as int].refdes@ == c.refdes@;
        assert(pin_connected(board, c.refdes@, name));
        lemma_flagged_pins_has(board.components@, rule, k, j);
    }
}

} // verus!
