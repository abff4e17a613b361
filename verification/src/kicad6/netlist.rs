//! KiCad 6 netlist emitter for the design model.

use vstd::prelude::*;

use crate::kicad::common::refdes_prefix_spec;
use crate::kicad6::common::{
    build_net_codes, law_net_codes_unique, net_codes_of, net_codes_ok, refdes_prefix,
};
use crate::kicad6::design::{ComponentInst, Connection, Design, Pin, Role};
use crate::kicad6::sexpr::{kv, kv_t, push_node, str_t, tagged, view_all, Sexpr};
use crate::text::{chars_of, decimal, push_char, seq_eq, usize_to_string};
use crate::tree::{render, Tree};

verus! {

broadcast use vstd::string::group_string_axioms;

/// The `(design …)` header of a netlist.
pub open spec fn design_tree() -> Tree {
    Tree::List(
        seq![
            Tree::Atom("design"@),
            kv_t("source"@, "copperleaf"@),
            kv_t("date"@, ""@),
            Tree::List(
                seq![
                    Tree::Atom("tool"@),
                    str_t("copperleaf"@),
                    Tree::Atom("version"@),
                    Tree::Atom("0.1"@),
                ],
            ),
            Tree::List(
                seq![
                    Tree::Atom("sheet"@),
                    kv_t("number"@, "1"@),
                    kv_t("name"@, "/"@),
                    kv_t("tstamps"@, "/"@),
                ],
            ),
        ],
    )
}

fn design_node() -> (r: Sexpr)
    ensures
        r@ == design_tree(),
{
    let mut tool: Vec<Sexpr> = Vec::new();
    push_node(&mut tool, Sexpr::str("copperleaf"));
    push_node(&mut tool, Sexpr::atom("version"));
    push_node(&mut tool, Sexpr::atom("0.1"));
    let tool_node = tagged("tool", tool);
    let mut sheet: Vec<Sexpr> = Vec::new();
    push_node(&mut sheet, kv("number", "1"));
    push_node(&mut sheet, kv("name", "/"));
    push_node(&mut sheet, kv("tstamps", "/"));
    let sheet_node = tagged("sheet", sheet);
    let mut v: Vec<Sexpr> = Vec::new();
    push_node(&mut v, kv("source", "copperleaf"));
    push_node(&mut v, kv("date", ""));
    push_node(&mut v, tool_node);
    push_node(&mut v, sheet_node);
    let r = tagged("design", v);
    assert(r@ =~= design_tree()) by {
        assert(seq![Tree::Atom("tool"@)] + view_all(tool@) =~= seq![
            Tree::Atom("tool"@),
            str_t("copperleaf"@),
            Tree::Atom("version"@),
            Tree::Atom("0.1"@),
        ]);
        assert(seq![Tree::Atom("sheet"@)] + view_all(sheet@) =~= seq![
            Tree::Atom("sheet"@),
            kv_t("number"@, "1"@),
            kv_t("name"@, "/"@),
            kv_t("tstamps"@, "/"@),
        ]);
        assert(seq![Tree::Atom("design"@)] + view_all(v@) =~= design_tree()->List_0);
    }
    r
}

/// The `(comp …)` entry of a component.
pub open spec fn comp_tree(refdes: Seq<char>) -> Tree {
    Tree::List(seq![Tree::Atom("comp"@), kv_t("ref"@, refdes), kv_t("value"@, refdes_prefix_spec(refdes))])
}

/// The `(components …)` section.
pub open spec fn components_tree(d: Design) -> Tree {
    Tree::List(seq![Tree::Atom("components"@)] + d.components@.map_values(|c: ComponentInst| comp_tree(c.refdes@)))
}

fn components_node(d: &Design) -> (r: Sexpr)
    ensures
        r@ == components_tree(*d),
{
    let ghost target = d.components@.map_values(|c: ComponentInst| comp_tree(c.refdes@));
    let mut comps: Vec<Sexpr> = Vec::new();
    let mut i: usize = 0;
    while i < d.components.len()
        invariant
            i <= d.components@.len(),
            target == d.components@.map_values(|c: ComponentInst| comp_tree(c.refdes@)),
            view_all(comps@) == target.take(i as int),
        decreases d.components@.len() - i,
    {
        let refdes = d.components[i].refdes.as_str();
        let mut v: Vec<Sexpr> = Vec::new();
        push_node(&mut v, kv("ref", refdes));
        let prefix = refdes_prefix(refdes);
        push_node(&mut v, kv("value", prefix.as_str()));
        let comp = tagged("comp", v);
        assert(comp@ =~= comp_tree(refdes@)) by {
            assert(seq![Tree::Atom("comp"@)] + view_all(v@) =~= comp_tree(refdes@)->List_0);
        }
        push_node(&mut comps, comp);
        i = i + 1;
        assert(target.take(i as int) =~= target.take(i - 1).push(target[i - 1]));
    }
    assert(target.take(i as int) =~= target);
    tagged("components", comps)
}

/// The first component with refdes `refdes`.
pub open spec fn component_by_refdes(comps: Seq<ComponentInst>, refdes: Seq<char>) -> Option<ComponentInst>
    decreases comps.len(),
{
    if comps.len() == 0 {
        None
    } else if comps[0].refdes@ == refdes {
        Some(comps[0])
    } else {
        component_by_refdes(comps.skip(1), refdes)
    }
}

/// The first pin named `name`.
pub open spec fn pin_named(pins: Seq<Pin>, name: Seq<char>) -> Option<Pin>
    decreases pins.len(),
{
    if pins.len() == 0 {
        None
    } else if pins[0].name@ == name {
        Some(pins[0])
    } else {
        pin_named(pins.skip(1), name)
    }
}

/// The pin a connection refers to: the first pin of the first component
/// with its refdes that has its pin name.
pub open spec fn conn_pin(d: Design, conn: Connection) -> Option<Pin> {
    match component_by_refdes(d.components@, conn.refdes@) {
        Some(c) => pin_named(c.pins@, conn.pin@),
        None => None,
    }
}

/// The KiCad pin type of a role (every role has one).
pub open spec fn pintype_spec(role: Role) -> Option<Seq<char>> {
    match role {
        Role::PowerIn | Role::Gnd => Some("power_in"@),
        Role::PowerOut => Some("power_out"@),
        Role::AnalogIn => Some("input"@),
        Role::AnalogOut => Some("output"@),
        Role::DigitalIO | Role::DiffPos | Role::DiffNeg => Some("bidirectional"@),
    }
}

/// Map a pin role to its KiCad pin type.
pub fn role_to_pintype(role: Role) -> (r: Option<&'static str>)
    ensures
        match pintype_spec(role) {
            Some(t) => r matches Some(s) && s@ == t,
            None => r is None,
        },
{
    match role {
        Role::PowerIn | Role::Gnd => Some("power_in"),
        Role::PowerOut => Some("power_out"),
        Role::AnalogIn => Some("input"),
        Role::AnalogOut => Some("output"),
        Role::DigitalIO | Role::DiffPos | Role::DiffNeg => Some("bidirectional"),
    }
}

/// The `(node …)` entry of a connection: its refdes and pin, then, when the
/// pin exists, its name as pin function and its pin type.
pub open spec fn node_tree(d: Design, conn: Connection) -> Tree {
    Tree::List(
        seq![Tree::Atom("node"@), kv_t("ref"@, conn.refdes@), kv_t("pin"@, conn.pin@)] + match conn_pin(d, conn) {
            Some(p) => seq![kv_t("pinfunction"@, p.name@)] + match pintype_spec(p.role) {
                Some(t) => seq![kv_t("pintype"@, t)],
                None => Seq::empty(),
            },
            None => Seq::empty(),
        },
    )
}

fn find_component<'d>(comps: &'d Vec<ComponentInst>, refdes: &str) -> (r: Option<&'d ComponentInst>)
    ensures
        match component_by_refdes(comps@, refdes@) {
            Some(c) => r matches Some(q) && *q == c,
            None => r is None,
        },
{
    let target = chars_of(refdes);
    let mut i: usize = 0;
    assert(comps@.skip(0) =~= comps@);
    while i < comps.len()
        invariant
            i <= comps@.len(),
            target@ == refdes@,
            component_by_refdes(comps@, refdes@) == component_by_refdes(comps@.skip(i as int), refdes@),
        decreases comps@.len() - i,
    {
        let rc = chars_of(comps[i].refdes.as_str());
        assert(comps@.skip(i as int)[0] == comps@[i as int]);
        if seq_eq(&rc, &target) {
            return Some(&comps[i]);
        }
        assert(comps@.skip(i as int).skip(1) =~= comps@.skip(i + 1));
        i = i + 1;
    }
    None
}

fn find_pin<'p>(pins: &'p Vec<Pin>, name: &str) -> (r: Option<&'p Pin>)
    ensures
        match pin_named(pins@, name@) {
            Some(p) => r matches Some(q) && *q == p,
            None => r is None,
        },
{
    let target = chars_of(name);
    let mut i: usize = 0;
    assert(pins@.skip(0) =~= pins@);
    while i < pins.len()
        invariant
            i <= pins@.len(),
            target@ == name@,
            pin_named(pins@, name@) == pin_named(pins@.skip(i as int), name@),
        decreases pins@.len() - i,
    {
        let pc = chars_of(pins[i].name.as_str());
        assert(pins@.skip(i as int)[0] == pins@[i as int]);
        if seq_eq(&pc, &target) {
            return Some(&pins[i]);
        }
        assert(pins@.skip(i as int).skip(1) =~= pins@.skip(i + 1));
        i = i + 1;
    }
    None
}

fn node_sexpr(d: &Design, conn: &Connection) -> (r: Sexpr)
    ensures
        r@ == node_tree(*d, *conn),
{
    let mut children: Vec<Sexpr> = Vec::new();
    push_node(&mut children, kv("ref", conn.refdes.as_str()));
    push_node(&mut children, kv("pin", conn.pin.as_str()));
    let pin = match find_component(&d.components, conn.refdes.as_str()) {
        Some(c) => find_pin(&c.pins, conn.pin.as_str()),
        None => None,
    };
    if let Some(p) = pin {
        push_node(&mut children, kv("pinfunction", p.name.as_str()));
        if let Some(t) = role_to_pintype(p.role) {
            push_node(&mut children, kv("pintype", t));
        }
    }
    let r = tagged("node", children);
    assert(r@ =~= node_tree(*d, *conn)) by {
        assert(seq![Tree::Atom("node"@)] + view_all(children@) =~= node_tree(*d, *conn)->List_0);
    }
    r
}

/// The connections attached to the net named `name`, in order.
pub open spec fn conns_of(conns: Seq<Connection>, name: Seq<char>) -> Seq<Connection> {
    conns.filter(|c: Connection| c.net@ == name)
}

/// The `(net …)` entry of a net: its code, its name and the nodes of its
/// connections.
pub open spec fn net_tree(d: Design, name: Seq<char>, code: nat) -> Tree {
    Tree::List(
        seq![
            Tree::Atom("net"@),
            Tree::List(seq![Tree::Atom("code"@), Tree::Atom(decimal(code))]),
            kv_t("name"@, name),
        ] + conns_of(d.connections@, name).map_values(|c: Connection| node_tree(d, c)),
    )
}

/// The `(nets …)` section: one entry per net code.
pub open spec fn nets_tree(d: Design, codes: Seq<(Seq<char>, nat)>) -> Tree {
    Tree::List(seq![Tree::Atom("nets"@)] + codes.map_values(|nc: (Seq<char>, nat)| net_tree(d, nc.0, nc.1)))
}

fn net_node(d: &Design, name: &str, code: usize) -> (r: Sexpr)
    ensures
        r@ == net_tree(*d, name@, code as nat),
{
    let mut children: Vec<Sexpr> = Vec::new();
    let mut code_list: Vec<Sexpr> = Vec::new();
    let code_text = usize_to_string(code);
    push_node(&mut code_list, Sexpr::atom(code_text.as_str()));
    let code_node = tagged("code", code_list);
    assert(code_node@ =~= Tree::List(seq![Tree::Atom("code"@), Tree::Atom(decimal(code as nat))])) by {
        assert(seq![Tree::Atom("code"@)] + view_all(code_list@) =~= seq![Tree::Atom("code"@), Tree::Atom(decimal(code as nat))]);
    }
    push_node(&mut children, code_node);
    push_node(&mut children, kv("name", name));
    let ghost head = view_all(children@);
    assert(head =~= seq![Tree::List(seq![Tree::Atom("code"@), Tree::Atom(decimal(code as nat))]), kv_t("name"@, name@)]);
    assert(d.connections@.take(0) =~= Seq::<Connection>::empty());
    assert(head + conns_of(Seq::<Connection>::empty(), name@).map_values(|c: Connection| node_tree(*d, c)) =~= head);
    let wanted = chars_of(name);
    let mut i: usize = 0;
    while i < d.connections.len()
        invariant
            i <= d.connections@.len(),
            wanted@ == name@,
            view_all(children@) == head + conns_of(d.connections@.take(i as int), name@).map_values(
                |c: Connection| node_tree(*d, c),
            ),
        decreases d.connections@.len() - i,
    {
        let conn = &d.connections[i];
        let nc = chars_of(conn.net.as_str());
        let ghost before = d.connections@.take(i as int);
        assert(d.connections@.take(i + 1) =~= before.push(*conn));
        reveal_with_fuel(vstd::seq::Seq::filter, 1);
        assert(before.push(*conn).drop_last() =~= before);
        if seq_eq(&nc, &wanted) {
            let node = node_sexpr(d, conn);
            push_node(&mut children, node);
            assert(conns_of(before.push(*conn), name@) =~= conns_of(before, name@).push(*conn));
        } else {
            assert(conns_of(before.push(*conn), name@) =~= conns_of(before, name@));
        }
        i = i + 1;
    }
    assert(d.connections@.take(i as int) =~= d.connections@);
    let r = tagged("net", children);
    assert(r@ =~= net_tree(*d, name@, code as nat)) by {
        assert(seq![Tree::Atom("net"@)] + view_all(children@) =~= net_tree(*d, name@, code as nat)->List_0);
    }
    r
}

fn nets_node(d: &Design, net_codes: &Vec<(String, usize)>) -> (r: Sexpr)
    ensures
        r@ == nets_tree(*d, net_codes@.map_values(|c: (String, usize)| (c.0@, c.1 as nat))),
{
    let ghost codes = net_codes@.map_values(|c: (String, usize)| (c.0@, c.1 as nat));
    let ghost target = codes.map_values(|nc: (Seq<char>, nat)| net_tree(*d, nc.0, nc.1));
    let mut nets: Vec<Sexpr> = Vec::new();
    let mut i: usize = 0;
    while i < net_codes.len()
        invariant
            i <= net_codes@.len(),
            codes == net_codes@.map_values(|c: (String, usize)| (c.0@, c.1 as nat)),
            target == codes.map_values(|nc: (Seq<char>, nat)| net_tree(*d, nc.0, nc.1)),
            view_all(nets@) == target.take(i as int),
        decreases net_codes@.len() - i,
    {
        let node = net_node(d, net_codes[i].0.as_str(), net_codes[i].1);
        assert(codes[i as int] == (net_codes@[i as int].0@, net_codes@[i as int].1 as nat));
        push_node(&mut nets, node);
        i = i + 1;
        assert(target.take(i as int) =~= target.take(i - 1).push(target[i - 1]));
    }
    assert(target.take(i as int) =~= target);
    tagged("nets", nets)
}

/// The netlist of a design.
pub open spec fn netlist_tree(d: Design) -> Tree {
    Tree::List(
        seq![
            Tree::Atom("export"@),
            Tree::List(seq![Tree::Atom("version"@), str_t("E"@)]),
            design_tree(),
            components_tree(d),
            nets_tree(d, net_codes_of(d)),
        ],
    )
}

/// Emit a KiCad S-expression netlist for the given design (see
/// [`netlist_tree`]), followed by a newline.
pub fn emit_netlist(design: &Design) -> (r: String)
    requires
        design.nets@.len() + design.connections@.len() < usize::MAX,
    ensures
        r@ == render(netlist_tree(*design), 0) + seq!['\n'],
{
    let net_codes = build_net_codes(design);
    proof {
        let c = net_codes@.map_values(|c: (String, usize)| (c.0@, c.1 as nat));
        law_net_codes_unique(*design, c, net_codes_of(*design));
    }
    let mut version: Vec<Sexpr> = Vec::new();
    push_node(&mut version, Sexpr::str("E"));
    let mut children: Vec<Sexpr> = Vec::new();
    push_node(&mut children, tagged("version", version));
    push_node(&mut children, design_node());
    push_node(&mut children, components_node(design));
    push_node(&mut children, nets_node(design, &net_codes));
    let export = tagged("export", children);
    assert(export@ =~= netlist_tree(*design)) by {
        assert(seq![Tree::Atom("version"@)] + view_all(version@) =~= seq![Tree::Atom("version"@), str_t("E"@)]);
        assert(seq![Tree::Atom("export"@)] + view_all(children@) =~= netlist_tree(*design)->List_0);
    }
    let mut out = export.to_string();
    push_char(&mut out, '\n');
    out
}

} // verus!
