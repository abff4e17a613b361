//! KiCad netlist emitter.

use vstd::prelude::*;

use crate::kicad::board::{CompiledBoard, Connection, Pin};
use crate::kicad::common::{build_net_codes, pin_type_spec, refdes_prefix, refdes_prefix_spec, role_to_pin_type};
use crate::kicad::sexpr::{kv, kv_t, push_node, str_t, tagged, view_all, Sexpr};
use crate::text::{decimal, push_char, seq_eq, chars_of, usize_to_string};
use crate::tree::{render, Tree};

verus! {

broadcast use vstd::string::group_string_axioms;

/// The `(design …)` header of a netlist.
pub open spec fn design_tree() -> Tree {
    Tree::List(
        seq![
            Tree::Atom("design"@),
            kv_t("source"@, "copperleaf"@),
            kv_t("date"@, ""@),
            Tree::List(
                seq![
                    Tree::Atom("tool"@),
                    str_t("copperleaf"@),
                    Tree::Atom("version"@),
                    Tree::Atom("0.1"@),
                ],
            ),
            Tree::List(
                seq![
                    Tree::Atom("sheet"@),
                    kv_t("number"@, "1"@),
                    kv_t("name"@, "/"@),
                    kv_t("tstamps"@, "/"@),
                ],
            ),
        ],
    )
}

fn design_node() -> (r: Sexpr)
    ensures
        r@ == design_tree(),
{
    let mut tool: Vec<Sexpr> = Vec::new();
    push_node(&mut tool, Sexpr::str("copperleaf"));
    push_node(&mut tool, Sexpr::atom("version"));
    push_node(&mut tool, Sexpr::atom("0.1"));
    let tool_node = tagged("tool", tool);
    let mut sheet: Vec<Sexpr> = Vec::new();
    push_node(&mut sheet, kv("number", "1"));
    push_node(&mut sheet, kv("name", "/"));
    push_node(&mut sheet, kv("tstamps", "/"));
    let sheet_node = tagged("sheet", sheet);
    let mut v: Vec<Sexpr> = Vec::new();
    push_node(&mut v, kv("source", "copperleaf"));
    push_node(&mut v, kv("date", ""));
    push_node(&mut v, tool_node);
    push_node(&mut v, sheet_node);
    let r = tagged("design", v);
    assert(r@ =~= design_tree()) by {
        assert(seq![Tree::Atom("tool"@)] + view_all(tool@) =~= seq![
            Tree::Atom("tool"@),
            str_t("copperleaf"@),
            Tree::Atom("version"@),
            Tree::Atom("0.1"@),
        ]);
        assert(seq![Tree::Atom("sheet"@)] + view_all(sheet@) =~= seq![
            Tree::Atom("sheet"@),
            kv_t("number"@, "1"@),
            kv_t("name"@, "/"@),
            kv_t("tstamps"@, "/"@),
        ]);
        assert(seq![Tree::Atom("design"@)] + view_all(v@) =~= design_tree()->List_0);
    }
    r
}

/// The `(comp …)` entry of a component.
pub open spec fn comp_tree(refdes: Seq<char>) -> Tree {
    Tree::List(seq![Tree::Atom("comp"@), kv_t("ref"@, refdes), kv_t("value"@, refdes_prefix_spec(refdes))])
}

/// The `(components …)` section.
pub open spec fn components_tree(board: CompiledBoard) -> Tree {
    Tree::List(
        seq![Tree::Atom("components"@)] + board.components@.map_values(
            |c: crate::kicad::board::CompiledComponent| comp_tree(c.refdes@),
        ),
    )
}

fn components_node(board: &CompiledBoard) -> (r: Sexpr)
    ensures
        r@ == components_tree(*board),
{
    let ghost target = board.components@.map_values(
        |c: crate::kicad::board::CompiledComponent| comp_tree(c.refdes@),
    );
    let mut comps: Vec<Sexpr> = Vec::new();
    let mut i: usize = 0;
    while i < board.components.len()
        invariant
            i <= board.components@.len(),
            target == board.components@.map_values(
                |c: crate::kicad::board::CompiledComponent| comp_tree(c.refdes@),
            ),
            view_all(comps@) == target.take(i as int),
        decreases board.components@.len() - i,
    {
        let refdes = board.components[i].refdes.as_str();
        let mut v: Vec<Sexpr> = Vec::new();
        push_node(&mut v, kv("ref", refdes));
        let prefix = refdes_prefix(refdes);
        push_node(&mut v, kv("value", prefix.as_str()));
        let comp = tagged("comp", v);
        assert(comp@ =~= comp_tree(refdes@)) by {
            assert(seq![Tree::Atom("comp"@)] + view_all(v@) =~= comp_tree(refdes@)->List_0);
        }
        push_node(&mut comps, comp);
        i = i + 1;
        assert(target.take(i as int) =~= target.take(i - 1).push(target[i - 1]));
    }
    assert(target.take(i as int) =~= target);
    tagged("components", comps)
}

/// The first pin named `name`.
pub open spec fn find_pin_spec(pins: Seq<Pin>, name: Seq<char>) -> Option<Pin>
    decreases pins.len(),
{
    if pins.len() == 0 {
        None
    } else if pins[0].name@ == name {
        Some(pins[0])
    } else {
        find_pin_spec(pins.skip(1), name)
    }
}

/// The pin a connection refers to: the first pin of the named component
/// with the connection's pin name.
pub open spec fn conn_pin(board: CompiledBoard, conn: Connection) -> Option<Pin> {
    if conn.component < board.components@.len() {
        find_pin_spec(board.components@[conn.component as int].pins@, conn.pin@)
    } else {
        None
    }
}

/// The `(node …)` entry of a connection.
pub open spec fn node_tree(board: CompiledBoard, conn: Connection) -> Tree {
    Tree::List(
        seq![Tree::Atom("node"@), kv_t("ref"@, decimal(conn.component as nat))] + match conn_pin(board, conn) {
            Some(p) => seq![
                kv_t("pin"@, p.name@),
                kv_t("pinfunction"@, p.name@),
                kv_t("pintype"@, pin_type_spec(p.role)),
            ],
            None => seq![kv_t("pin"@, conn.pin@)],
        },
    )
}

fn find_pin<'b>(pins: &'b Vec<Pin>, name: &str) -> (r: Option<&'b Pin>)
    ensures
        match find_pin_spec(pins@, name@) {
            Some(p) => r matches Some(q) && *q == p,
            None => r is None,
        },
{
    let target = chars_of(name);
    let mut i: usize = 0;
    assert(pins@.skip(0) =~= pins@);
    while i < pins.len()
        invariant
            i <= pins@.len(),
            target@ == name@,
            find_pin_spec(pins@, name@) == find_pin_spec(pins@.skip(i as int), name@),
        decreases pins@.len() - i,
    {
        let pc = chars_of(pins[i].name.as_str());
        assert(pins@.skip(i as int)[0] == pins@[i as int]);
        if seq_eq(&pc, &target) {
            return Some(&pins[i]);
        }
        assert(pins@.skip(i as int).skip(1) =~= pins@.skip(i + 1));
        i = i + 1;
    }
    None
}

fn node_sexpr(board: &CompiledBoard, conn: &Connection) -> (r: Sexpr)
    ensures
        r@ == node_tree(*board, *conn),
{
    let mut children: Vec<Sexpr> = Vec::new();
    let comp_ref = usize_to_string(conn.component);
    push_node(&mut children, kv("ref", comp_ref.as_str()));
    let ghost head = view_all(children@);
    let pin = if conn.component < board.components.len() {
        find_pin(&board.components[conn.component].pins, conn.pin.as_str())
    } else {
        None
    };
    match pin {
        Some(p) => {
            push_node(&mut children, kv("pin", p.name.as_str()));
            push_node(&mut children, kv("pinfunction", p.name.as_str()));
            push_node(&mut children, kv("pintype", role_to_pin_type(p.role)));
        },
        None => {
            push_node(&mut children, kv("pin", conn.pin.as_str()));
        },
    }
    let r = tagged("node", children);
    assert(r@ =~= node_tree(*board, *conn)) by {
        assert(seq![Tree::Atom("node"@)] + view_all(children@) =~= node_tree(*board, *conn)->List_0);
    }
    r
}

/// The connections attached to the net named `name`, in order.
pub open spec fn conns_of(conns: Seq<Connection>, name: Seq<char>) -> Seq<Connection> {
    conns.filter(|c: Connection| c.net@ == name)
}

/// The `(net …)` entry of a net.
pub open spec fn net_tree(board: CompiledBoard, name: Seq<char>, code: nat) -> Tree {
    Tree::List(
        seq![
            Tree::Atom("net"@),
            Tree::List(seq![Tree::Atom("code"@), Tree::Atom(decimal(code))]),
            kv_t("name"@, name),
        ] + conns_of(board.connections@, name).map_values(|c: Connection| node_tree(board, c)),
    )
}

/// The `(nets …)` section: one entry per net code.
pub open spec fn nets_tree(board: CompiledBoard, codes: Seq<(Seq<char>, nat)>) -> Tree {
    Tree::List(
        seq![Tree::Atom("nets"@)] + codes.map_values(
            |nc: (Seq<char>, nat)| net_tree(board, nc.0, nc.1),
        ),
    )
}

fn net_node(board: &CompiledBoard, name: &str, code: usize) -> (r: Sexpr)
    ensures
        r@ == net_tree(*board, name@, code as nat),
{
    let ghost target = conns_of(board.connections@, name@).map_values(|c: Connection| node_tree(*board, c));
    let mut children: Vec<Sexpr> = Vec::new();
    let mut code_list: Vec<Sexpr> = Vec::new();
    let code_text = usize_to_string(code);
    push_node(&mut code_list, Sexpr::atom(code_text.as_str()));
    let code_node = tagged("code", code_list);
    assert(code_node@ =~= Tree::List(seq![Tree::Atom("code"@), Tree::Atom(decimal(code as nat))])) by {
        assert(seq![Tree::Atom("code"@)] + view_all(code_list@) =~= seq![Tree::Atom("code"@), Tree::Atom(decimal(code as nat))]);
    }
    push_node(&mut children, code_node);
    push_node(&mut children, kv("name", name));
    let ghost head = view_all(children@);
    assert(head =~= seq![Tree::List(seq![Tree::Atom("code"@), Tree::Atom(decimal(code as nat))]), kv_t("name"@, name@)]);
    assert(board.connections@.take(0) =~= Seq::<Connection>::empty());
    assert(head + conns_of(Seq::<Connection>::empty(), name@).map_values(|c: Connection| node_tree(*board, c)) =~= head);
    let wanted = chars_of(name);
    let mut i: usize = 0;
    while i < board.connections.len()
        invariant
            i <= board.connections@.len(),
            wanted@ == name@,
            target == conns_of(board.connections@, name@).map_values(|c: Connection| node_tree(*board, c)),
            view_all(children@) == head + conns_of(board.connections@.take(i as int), name@).map_values(
                |c: Connection| node_tree(*board, c),
            ),
        decreases board.connections@.len() - i,
    {
        let conn = &board.connections[i];
        let nc = chars_of(conn.net.as_str());
        let ghost before = board.connections@.take(i as int);
        assert(board.connections@.take(i + 1) =~= before.push(*conn));
        reveal_with_fuel(vstd::seq::Seq::filter, 1);
        assert(before.push(*conn).drop_last() =~= before);
        if seq_eq(&nc, &wanted) {
            let node = node_sexpr(board, conn);
            push_node(&mut children, node);
            assert(conns_of(before.push(*conn), name@) =~= conns_of(before, name@).push(*conn));
        } else {
            assert(conns_of(before.push(*conn), name@) =~= conns_of(before, name@));
        }
        i = i + 1;
    }
    assert(board.connections@.take(i as int) =~= board.connections@);
    let r = tagged("net", children);
    assert(r@ =~= net_tree(*board, name@, code as nat)) by {
        assert(seq![Tree::Atom("net"@)] + view_all(children@) =~= net_tree(*board, name@, code as nat)->List_0);
    }
    r
}

fn nets_node(board: &CompiledBoard, net_codes: &Vec<(String, usize)>) -> (r: Sexpr)
    requires
        net_codes@.len() == board.nets@.len(),
        forall|i: int| 0 <= i < net_codes@.len() ==> (#[trigger] net_codes@[i]).0@ == board.nets@[i].name@ && net_codes@[i].1 == i + 1,
    ensures
        r@ == nets_tree(*board, net_codes_of(*board)),
{
    let ghost codes = net_codes_of(*board);
    let ghost target = codes.map_values(|nc: (Seq<char>, nat)| net_tree(*board, nc.0, nc.1));
    let mut nets: Vec<Sexpr> = Vec::new();
    let mut i: usize = 0;
    while i < net_codes.len()
        invariant
            i <= net_codes@.len(),
            codes == net_codes_of(*board),
            net_codes@.len() == board.nets@.len(),
            forall|i: int| 0 <= i < net_codes@.len() ==> (#[trigger] net_codes@[i]).0@ == board.nets@[i].name@ && net_codes@[i].1 == i + 1,
            target == codes.map_values(|nc: (Seq<char>, nat)| net_tree(*board, nc.0, nc.1)),
            view_all(nets@) == target.take(i as int),
        decreases net_codes@.len() - i,
    {
        let node = net_node(board, net_codes[i].0.as_str(), net_codes[i].1);
        assert(codes[i as int] == (net_codes@[i as int].0@, net_codes@[i as int].1 as nat));
        push_node(&mut nets, node);
        i = i + 1;
        assert(target.take(i as int) =~= target.take(i - 1).push(target[i - 1]));
    }
    assert(target.take(i as int) =~= target);
    tagged("nets", nets)
}

/// The net codes of a board: each net's name with its position plus one.
pub open spec fn net_codes_of(board: CompiledBoard) -> Seq<(Seq<char>, nat)> {
    Seq::new(board.nets@.len(), |i: int| (board.nets@[i].name@, (i + 1) as nat))
}

/// The netlist of a board.
pub open spec fn netlist_tree(board: CompiledBoard) -> Tree {
    Tree::List(
        seq![
            Tree::Atom("export"@),
            Tree::List(seq![Tree::Atom("version"@), str_t("E"@)]),
            design_tree(),
            components_tree(board),
            nets_tree(board, net_codes_of(board)),
        ],
    )
}

/// Emit a KiCad S-expression netlist for the given compiled board: the
/// design header, one `comp` per component, and one `net` per net (in board
/// order, coded from 1) listing the nodes of the connections to that net.
pub fn emit_netlist(board: &CompiledBoard) -> (r: String)
    ensures
        r@ == render(netlist_tree(*board), 0) + seq!['\n'],
{
    let net_codes = build_net_codes(board);
    let mut version: Vec<Sexpr> = Vec::new();
    push_node(&mut version, Sexpr::str("E"));
    let mut children: Vec<Sexpr> = Vec::new();
    push_node(&mut children, tagged("version", version));
    push_node(&mut children, design_node());
    push_node(&mut children, components_node(board));
    push_node(&mut children, nets_node(board, &net_codes));
    let export = tagged("export", children);
    assert(export@ =~= netlist_tree(*board)) by {
        assert(seq![Tree::Atom("version"@)] + view_all(version@) =~= seq![Tree::Atom("version"@), str_t("E"@)]);
        assert(seq![Tree::Atom("export"@)] + view_all(children@) =~= netlist_tree(*board)->List_0);
    }
    let mut out = export.to_string();
    push_char(&mut out, '\n');
    out
}

} // verus!
