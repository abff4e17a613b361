//! Net-independent parts of the KiCad PCB emitter: the layer table, net
//! classes, and the carrying-over of footprints from an earlier board
//! (found by refdes, their pad nets renumbered for the new board).

use vstd::prelude::*;

use crate::kicad::board::CompiledBoard;
use crate::kicad::sexpr::{
    as_string_spec, atom_pair, atom_pair_t, kv, kv_t, lemma_view_all, push_node, str_t, tagged,
    view_all, Sexpr,
};
use crate::kicad::pcb_parser::layer_index_spec;
use crate::text::{
    chars_of, decimal, lemma_decimal_parses, parse_usize, parse_usize_spec, push_str, str_eq,
    usize_to_string,
};
use crate::tree::Tree;

verus! {

broadcast use vstd::string::group_string_axioms;

/// `In<i>.Cu`.
pub open spec fn inner_layer(i: nat) -> Seq<char> {
    "In"@ + decimal(i) + ".Cu"@
}

/// What [`normalised_layer_name`] returns: `F.Cu` for the first copper
/// layer, `B.Cu` for the last, `In<i>.Cu` between them.
pub open spec fn layer_name_spec(idx: nat, total: nat) -> Seq<char> {
    if idx == 0 {
        "F.Cu"@
    } else if idx == total - 1 {
        "B.Cu"@
    } else {
        inner_layer(idx)
    }
}

fn inner_layer_name(i: usize) -> (r: String)
    ensures
        r@ == inner_layer(i as nat),
{
    let mut out = String::new();
    push_str(&mut out, "In");
    push_str(&mut out, usize_to_string(i).as_str());
    push_str(&mut out, ".Cu");
    out
}

/// The KiCad name of copper layer `idx` of `total`.
pub fn normalised_layer_name(idx: usize, total: usize) -> (r: String)
    requires
        idx == 0 || total >= 1,
    ensures
        r@ == layer_name_spec(idx as nat, total as nat),
{
    if idx == 0 {
        "F.Cu".to_string()
    } else if idx == total - 1 {
        "B.Cu".to_string()
    } else {
        inner_layer_name(idx)
    }
}

/// Reading back a copper layer name gives its index: the PCB reader's
/// layer parsing inverts the emitter's layer naming.
pub proof fn law_layer_name_round_trip(idx: nat, total: nat)
    requires
        idx < total <= usize::MAX,
    ensures
        layer_index_spec(layer_name_spec(idx, total), total as usize) == Some(idx as usize),
{
    reveal_strlit("F.Cu");
    reveal_strlit("B.Cu");
    reveal_strlit("In");
    reveal_strlit(".Cu");
    if idx != 0 && idx == total - 1 {
        assert("B.Cu"@[0] != "F.Cu"@[0]);
        assert(layer_name_spec(idx, total) == "B.Cu"@);
        assert(layer_name_spec(idx, total) != "F.Cu"@);
    }
    if idx != 0 && idx != total - 1 {
        let name = inner_layer(idx);
        lemma_decimal_parses(idx);
        assert(name[0] == 'I');
        assert(name != "F.Cu"@);
        assert(name != "B.Cu"@);
        assert(name.take(2) =~= "In"@);
        assert(name.skip(name.len() - 3) =~= ".Cu"@);
        assert(name.subrange(2, name.len() - 3) =~= decimal(idx));
        assert(layer_name_spec(idx, total) == name);
    }
}

/// `(<id> "<name>" <kind>)`, a layer table entry.
pub open spec fn layer_t(id: Seq<char>, name: Seq<char>, kind: Seq<char>) -> Tree {
    Tree::List(seq![Tree::Atom(id), str_t(name), Tree::Atom(kind)])
}

/// The fixed non-copper layers with their canonical ids.
pub open spec fn user_layers() -> Seq<(Seq<char>, Seq<char>)> {
    seq![
        ("32"@, "B.Adhes"@),
        ("33"@, "F.Adhes"@),
        ("34"@, "B.Paste"@),
        ("35"@, "F.Paste"@),
        ("36"@, "B.SilkS"@),
        ("37"@, "F.SilkS"@),
        ("38"@, "B.Mask"@),
        ("39"@, "F.Mask"@),
        ("44"@, "Edge.Cuts"@),
        ("45"@, "Margin"@),
        ("46"@, "B.CrtYd"@),
        ("47"@, "F.CrtYd"@),
        ("48"@, "B.Fab"@),
        ("49"@, "F.Fab"@),
    ]
}

/// The `(layers …)` table of a board with `copper` copper layers: `F.Cu`
/// as 0, the inner layers `In<i>.Cu` as `i`, `B.Cu` as 31, then the
/// non-copper layers.
pub open spec fn layers_t(copper: nat) -> Tree {
    Tree::List(
        seq![Tree::Atom("layers"@), layer_t("0"@, "F.Cu"@, "signal"@)] + Seq::new(
            (if copper >= 2 {
                copper - 2
            } else {
                0
            }) as nat,
            |k: int| layer_t(decimal((k + 1) as nat), inner_layer((k + 1) as nat), "signal"@),
        ) + seq![layer_t("31"@, "B.Cu"@, "signal"@)] + user_layers().map_values(
            |e: (Seq<char>, Seq<char>)| layer_t(e.0, e.1, "user"@),
        ),
    )
}

fn layer_node(id: &str, name: &str, kind: &str) -> (r: Sexpr)
    ensures
        r@ == layer_t(id@, name@, kind@),
{
    let mut v: Vec<Sexpr> = Vec::new();
    push_node(&mut v, Sexpr::atom(id));
    push_node(&mut v, Sexpr::str(name));
    push_node(&mut v, Sexpr::atom(kind));
    proof {
        lemma_view_all(v@);
    }
    let r = Sexpr::list(v);
    assert(view_all(v@) =~= seq![Tree::Atom(id@), str_t(name@), Tree::Atom(kind@)]);
    r
}

/// Layer table using KiCad's canonical (fixed) layer IDs, for a board with
/// `copper_layers` copper layers (see [`layers_t`]).
pub fn layers_node(copper_layers: usize) -> (r: Sexpr)
    requires
        copper_layers >= 1,
    ensures
        r@ == layers_t(copper_layers as nat),
{
    let mut entries: Vec<Sexpr> = Vec::new();
    push_node(&mut entries, layer_node("0", "F.Cu", "signal"));
    let ghost head = view_all(entries@);
    let ghost inner = Seq::new(
        (if copper_layers >= 2 {
            copper_layers - 2
        } else {
            0
        }) as nat,
        |k: int| layer_t(decimal((k + 1) as nat), inner_layer((k + 1) as nat), "signal"@),
    );
    let mut i: usize = 1;
    while i < copper_layers - 1
        invariant
            copper_layers >= 1,
            1 <= i,
            i <= copper_layers || copper_layers == 1,
            copper_layers >= 2 ==> i <= copper_layers - 1,
            copper_layers == 1 ==> i == 1,
            inner == Seq::new(
                (if copper_layers >= 2 {
                    copper_layers - 2
                } else {
                    0
                }) as nat,
                |k: int| layer_t(decimal((k + 1) as nat), inner_layer((k + 1) as nat), "signal"@),
            ),
            view_all(entries@) == head + inner.take(i - 1),
        decreases copper_layers - 1 - i,
    {
        let id = usize_to_string(i);
        let name = inner_layer_name(i);
        push_node(&mut entries, layer_node(id.as_str(), name.as_str(), "signal"));
        i = i + 1;
        assert(view_all(entries@) =~= head + inner.take(i - 1));
    }
    assert(inner.take(i - 1) =~= inner);
    push_node(&mut entries, layer_node("31", "B.Cu", "signal"));
    let ghost with_copper = view_all(entries@);
    let ids = ["32", "33", "34", "35", "36", "37", "38", "39", "44", "45", "46", "47", "48", "49"];
    let names = [
        "B.Adhes",
        "F.Adhes",
        "B.Paste",
        "F.Paste",
        "B.SilkS",
        "F.SilkS",
        "B.Mask",
        "F.Mask",
        "Edge.Cuts",
        "Margin",
        "B.CrtYd",
        "F.CrtYd",
        "B.Fab",
        "F.Fab",
    ];
    let ghost users = user_layers().map_values(|e: (Seq<char>, Seq<char>)| layer_t(e.0, e.1, "user"@));
    assert(ids@.len() == 14 && names@.len() == 14);
    assert forall|k: int| 0 <= k < 14 implies (#[trigger] ids@[k])@ == user_layers()[k].0 && names@[k]@
        == user_layers()[k].1 by {}
    let mut k: usize = 0;
    while k < 14
        invariant
            k <= 14,
            ids@.len() == 14,
            names@.len() == 14,
            forall|k: int| 0 <= k < 14 ==> (#[trigger] ids@[k])@ == user_layers()[k].0 && names@[k]@
                == user_layers()[k].1,
            users == user_layers().map_values(|e: (Seq<char>, Seq<char>)| layer_t(e.0, e.1, "user"@)),
            view_all(entries@) == with_copper + users.take(k as int),
        decreases 14 - k,
    {
        push_node(&mut entries, layer_node(ids[k], names[k], "user"));
        k = k + 1;
        assert(view_all(entries@) =~= with_copper + users.take(k as int));
    }
    assert(users.take(14) =~= users);
    let r = tagged("layers", entries);
    assert(seq![Tree::Atom("layers"@)] + view_all(entries@) =~= layers_t(copper_layers as nat)->List_0);
    r
}

/// A `(net_class …)` node: name, description, clearance and track width,
/// the fixed via sizes, and one `(add_net …)` per net.
pub open spec fn net_class_t(
    name: Seq<char>,
    desc: Seq<char>,
    clearance: Seq<char>,
    trace_width: Seq<char>,
    nets: Seq<Seq<char>>,
) -> Tree {
    Tree::List(
        seq![
            Tree::Atom("net_class"@),
            str_t(name),
            str_t(desc),
            atom_pair_t("clearance"@, clearance),
            atom_pair_t("trace_width"@, trace_width),
            atom_pair_t("via_dia"@, "0.8"@),
            atom_pair_t("via_drill"@, "0.4"@),
            atom_pair_t("uvia_dia"@, "0.3"@),
            atom_pair_t("uvia_drill"@, "0.1"@),
        ] + nets.map_values(|n: Seq<char>| Tree::List(seq![Tree::Atom("add_net"@), str_t(n)])),
    )
}

/// Build a `(net_class …)` node (see [`net_class_t`]).
pub fn net_class_node(name: &str, desc: &str, clearance: &str, trace_width: &str, nets: &[String]) -> (r: Sexpr)
    ensures
        r@ == net_class_t(name@, desc@, clearance@, trace_width@, nets@.map_values(|s: String| s@)),
{
    let mut children: Vec<Sexpr> = Vec::new();
    push_node(&mut children, Sexpr::str(name));
    push_node(&mut children, Sexpr::str(desc));
    push_node(&mut children, atom_pair("clearance", clearance));
    push_node(&mut children, atom_pair("trace_width", trace_width));
    push_node(&mut children, atom_pair("via_dia", "0.8"));
    push_node(&mut children, atom_pair("via_drill", "0.4"));
    push_node(&mut children, atom_pair("uvia_dia", "0.3"));
    push_node(&mut children, atom_pair("uvia_drill", "0.1"));
    let ghost head = view_all(children@);
    let ghost adds = nets@.map_values(|s: String| s@).map_values(
        |n: Seq<char>| Tree::List(seq![Tree::Atom("add_net"@), str_t(n)]),
    );
    let mut i: usize = 0;
    while i < nets.len()
        invariant
            i <= nets@.len(),
            adds == nets@.map_values(|s: String| s@).map_values(
                |n: Seq<char>| Tree::List(seq![Tree::Atom("add_net"@), str_t(n)]),
            ),
            view_all(children@) == head + adds.take(i as int),
        decreases nets@.len() - i,
    {
        let mut v: Vec<Sexpr> = Vec::new();
        push_node(&mut v, Sexpr::str(nets[i].as_str()));
        let add = tagged("add_net", v);
        assert(seq![Tree::Atom("add_net"@)] + view_all(v@) =~= seq![Tree::Atom("add_net"@), str_t(nets@[i as int]@)]);
        push_node(&mut children, add);
        i = i + 1;
        assert(view_all(children@) =~= head + adds.take(i as int));
    }
    assert(adds.take(i as int) =~= adds);
    let r = tagged("net_class", children);
    assert(seq![Tree::Atom("net_class"@)] + view_all(children@) =~= net_class_t(
        name@,
        desc@,
        clearance@,
        trace_width@,
        nets@.map_values(|s: String| s@),
    )->List_0);
    r
}

// ---------------------------------------------------------------------------
// Footprints carried over from an earlier board
// ---------------------------------------------------------------------------

/// The reference of the first property list among `children`: the third
/// element, unquoted, of the first list with at least three elements whose
/// first two unquote to `property` and `Reference`.
pub open spec fn reference_of(children: Seq<Tree>) -> Option<Seq<char>>
    decreases children.len(),
{
    if children.len() == 0 {
        None
    } else {
        match children[0] {
            Tree::List(props) => if props.len() >= 3 && as_string_spec(props[0]) == "property"@
                && as_string_spec(props[1]) == "Reference"@ {
                Some(as_string_spec(props[2]))
            } else {
                reference_of(children.skip(1))
            },
            _ => reference_of(children.skip(1)),
        }
    }
}

/// What [`footprint_refdes`] returns: the reference among the children
/// after the head, for a list.
pub open spec fn footprint_refdes_spec(fp: Tree) -> Option<Seq<char>> {
    match fp {
        Tree::List(parts) => reference_of(parts.skip(1)),
        _ => None,
    }
}

/// Whether a node is a list with no head (which has no children to search).
pub open spec fn empty_list(fp: Tree) -> bool {
    fp matches Tree::List(parts) && parts.len() == 0
}

/// Extract the reference designator from a footprint S-expression.
pub fn footprint_refdes(fp: &Sexpr) -> (r: Option<String>)
    requires
        !empty_list(fp@),
    ensures
        match footprint_refdes_spec(fp@) {
            Some(n) => r matches Some(s) && s@ == n,
            None => r is None,
        },
{
    match fp {
        Sexpr::List(parts) => {
            proof {
                lemma_view_all(parts@);
            }
            let ghost ps = view_all(parts@);
            let mut i: usize = 1;
            assert(ps.skip(1) == ps.skip(i as int));
            while i < parts.len()
                invariant
                    1 <= i <= parts@.len(),
                    ps == view_all(parts@),
                    fp@ == Tree::List(ps),
                    ps.len() == parts@.len(),
                    forall|k: int| 0 <= k < parts@.len() ==> #[trigger] ps[k] == parts@[k]@,
                    reference_of(ps.skip(1)) == reference_of(ps.skip(i as int)),
                decreases parts@.len() - i,
            {
                assert(ps.skip(i as int)[0] == parts@[i as int]@);
                assert(ps.skip(i as int).skip(1) =~= ps.skip(i + 1));
                if let Sexpr::List(props) = &parts[i] {
                    proof {
                        lemma_view_all(props@);
                    }
                    if props.len() >= 3 {
                        let a = props[0].as_string();
                        let b = props[1].as_string();
                        if str_eq(a.as_str(), "property") && str_eq(b.as_str(), "Reference") {
                            let refdes = props[2].as_string();
                            proof {
                                let pv = view_all(props@);
                                assert(ps[i as int] == Tree::List(pv));
                                assert(pv[0] == props@[0]@ && pv[1] == props@[1]@ && pv[2] == props@[2]@);
                                assert(ps.skip(i as int)[0] == Tree::List(pv));
                            }
                            return Some(refdes);
                        }
                    }
                }
                i = i + 1;
            }
            assert(ps.skip(i as int) =~= Seq::<Tree>::empty());
            None
        },
        _ => None,
    }
}

/// Index of the preserved footprint for `refdes`: the last one that
/// declares it (later footprints with the same reference replace earlier
/// ones).
pub fn preserved_footprint(fps: &Vec<Sexpr>, refdes: &str) -> (r: Option<usize>)
    requires
        forall|i: int| 0 <= i < fps@.len() ==> !empty_list(#[trigger] fps@[i]@),
    ensures
        match r {
            Some(i) => i < fps@.len() && footprint_refdes_spec(fps@[i as int]@) == Some(refdes@) && forall|j: int|
                i < j < fps@.len() ==> footprint_refdes_spec(#[trigger] fps@[j]@) != Some(refdes@),
            None => forall|j: int| 0 <= j < fps@.len() ==> footprint_refdes_spec(#[trigger] fps@[j]@) != Some(refdes@),
        },
{
    let mut i: usize = fps.len();
    while i > 0
        invariant
            i <= fps@.len(),
            forall|i: int| 0 <= i < fps@.len() ==> !empty_list(#[trigger] fps@[i]@),
            forall|j: int| i <= j < fps@.len() ==> footprint_refdes_spec(#[trigger] fps@[j]@) != Some(refdes@),
        decreases i,
    {
        i = i - 1;
        match footprint_refdes(&fps[i]) {
            Some(r) => {
                if str_eq(r.as_str(), refdes) {
                    return Some(i);
                }
            },
            None => {},
        }
    }
    None
}

/// Net renumbering from an earlier board to a new one, by net name and by
/// old net code, each to the new `(code, name)`.
#[derive(Debug)]
pub struct NetRemap {
    pub by_name: Vec<(String, usize, String)>,
    pub by_code: Vec<(usize, usize, String)>,
}

/// The first code the table gives `name`.
pub open spec fn code_for(codes: Seq<(String, usize)>, name: Seq<char>) -> Option<usize>
    decreases codes.len(),
{
    if codes.len() == 0 {
        None
    } else if codes[0].0@ == name {
        Some(codes[0].1)
    } else {
        code_for(codes.skip(1), name)
    }
}

/// Where a net named `name` goes on the new board: its new code and name,
/// when the new board has a net of that name with a code.
pub open spec fn new_net_for(board: CompiledBoard, codes: Seq<(String, usize)>, name: Seq<char>) -> Option<(nat, Seq<char>)> {
    if exists|i: int| 0 <= i < board.nets@.len() && (#[trigger] board.nets@[i]).name@ == name {
        match code_for(codes, name) {
            Some(c) => Some((c as nat, name)),
            None => None,
        }
    } else {
        None
    }
}

/// The first entry of `t` for `name`.
pub open spec fn name_lookup(t: Seq<(String, usize, String)>, name: Seq<char>) -> Option<(nat, Seq<char>)>
    decreases t.len(),
{
    if t.len() == 0 {
        None
    } else if t[0].0@ == name {
        Some((t[0].1 as nat, t[0].2@))
    } else {
        name_lookup(t.skip(1), name)
    }
}

/// The first entry of `t` for `code`.
pub open spec fn code_lookup(t: Seq<(usize, usize, String)>, code: nat) -> Option<(nat, Seq<char>)>
    decreases t.len(),
{
    if t.len() == 0 {
        None
    } else if t[0].0 == code {
        Some((t[0].1 as nat, t[0].2@))
    } else {
        code_lookup(t.skip(1), code)
    }
}

/// The name the old board gave net code `code`.
pub open spec fn old_name(old: Seq<(usize, String)>, code: nat) -> Option<Seq<char>>
    decreases old.len(),
{
    if old.len() == 0 {
        None
    } else if old[0].0 == code {
        Some(old[0].1@)
    } else {
        old_name(old.skip(1), code)
    }
}

fn find_code(codes: &Vec<(String, usize)>, name: &str) -> (r: Option<usize>)
    ensures
        r == code_for(codes@, name@),
{
    let mut i: usize = 0;
    assert(codes@.skip(0) =~= codes@);
    while i < codes.len()
        invariant
            i <= codes@.len(),
            code_for(codes@, name@) == code_for(codes@.skip(i as int), name@),
        decreases codes@.len() - i,
    {
        assert(codes@.skip(i as int)[0] == codes@[i as int]);
        if str_eq(codes[i].0.as_str(), name) {
            return Some(codes[i].1);
        }
        assert(codes@.skip(i as int).skip(1) =~= codes@.skip(i + 1));
        i = i + 1;
    }
    None
}

fn new_net(board: &CompiledBoard, codes: &Vec<(String, usize)>, name: &str) -> (r: Option<(usize, String)>)
    ensures
        match new_net_for(*board, codes@, name@) {
            Some((c, n)) => r matches Some((rc, rn)) && rc == c && rn@ == n,
            None => r is None,
        },
{
    let mut i: usize = 0;
    while i < board.nets.len()
        invariant
            i <= board.nets@.len(),
            forall|j: int| 0 <= j < i ==> (#[trigger] board.nets@[j]).name@ != name@,
        decreases board.nets@.len() - i,
    {
        if str_eq(board.nets[i].name.as_str(), name) {
            assert(board.nets@[i as int].name@ == name@);
            let code = find_code(codes, name);
            return match code {
                Some(c) => {
                    let n = name.to_string();
                    assert(n@ == name@);
                    Some((c, n))
                },
                None => None,
            };
        }
        i = i + 1;
    }
    None
}

proof fn lemma_name_lookup_push(t: Seq<(String, usize, String)>, e: (String, usize, String), name: Seq<char>)
    ensures
        name_lookup(t.push(e), name) == match name_lookup(t, name) {
            Some(x) => Some(x),
            None => if e.0@ == name {
                Some((e.1 as nat, e.2@))
            } else {
                None
            },
        },
    decreases t.len(),
{
    if t.len() > 0 {
        assert(t.push(e).skip(1) =~= t.skip(1).push(e));
        assert(t.push(e)[0] == t[0]);
        lemma_name_lookup_push(t.skip(1), e, name);
    } else {
        assert(t.push(e).skip(1) =~= t);
        assert(t.push(e)[0] == e);
    }
}

proof fn lemma_code_lookup_push(t: Seq<(usize, usize, String)>, e: (usize, usize, String), code: nat)
    ensures
        code_lookup(t.push(e), code) == match code_lookup(t, code) {
            Some(x) => Some(x),
            None => if e.0 == code {
                Some((e.1 as nat, e.2@))
            } else {
                None
            },
        },
    decreases t.len(),
{
    if t.len() > 0 {
        assert(t.push(e).skip(1) =~= t.skip(1).push(e));
        assert(t.push(e)[0] == t[0]);
        lemma_code_lookup_push(t.skip(1), e, code);
    } else {
        assert(t.push(e).skip(1) =~= t);
        assert(t.push(e)[0] == e);
    }
}

proof fn lemma_old_name_push(t: Seq<(usize, String)>, e: (usize, String), code: nat)
    ensures
        old_name(t.push(e), code) == match old_name(t, code) {
            Some(x) => Some(x),
            None => if e.0 == code {
                Some(e.1@)
            } else {
                None
            },
        },
    decreases t.len(),
{
    if t.len() > 0 {
        assert(t.push(e).skip(1) =~= t.skip(1).push(e));
        assert(t.push(e)[0] == t[0]);
        lemma_old_name_push(t.skip(1), e, code);
    } else {
        assert(t.push(e).skip(1) =~= t);
        assert(t.push(e)[0] == e);
    }
}

proof fn lemma_old_name_absent(t: Seq<(usize, String)>, code: nat)
    requires
        forall|i: int| 0 <= i < t.len() ==> (#[trigger] t[i]).0 != code,
    ensures
        old_name(t, code) is None,
    decreases t.len(),
{
    if t.len() > 0 {
        assert forall|i: int| 0 <= i < t.skip(1).len() implies (#[trigger] t.skip(1)[i]).0 != code by {
            assert(t.skip(1)[i] == t[i + 1]);
        }
        lemma_old_name_absent(t.skip(1), code);
    }
}

/// Where a net named `name` goes when only the first `n` nets of the new
/// board count.
pub open spec fn new_net_upto(board: CompiledBoard, codes: Seq<(String, usize)>, name: Seq<char>, n: int) -> Option<(nat, Seq<char>)> {
    if exists|i: int| 0 <= i < n && (#[trigger] board.nets@[i]).name@ == name {
        match code_for(codes, name) {
            Some(c) => Some((c as nat, name)),
            None => None,
        }
    } else {
        None
    }
}

/// Build the net renumbering from the old board's net names by code
/// (`old_net_names`, one entry per code) to the new board: a name maps to
/// its new net when the new board has a net of that name with a code; an
/// old code maps to the new net of its old name.
pub fn build_net_remap(old_net_names: &Vec<(usize, String)>, board: &CompiledBoard, net_codes: &Vec<(String, usize)>) -> (r: NetRemap)
    requires
        forall|i: int, j: int| 0 <= i < j < old_net_names@.len() ==> (#[trigger] old_net_names@[i]).0 != (#[trigger] old_net_names@[j]).0,
    ensures
        forall|name: Seq<char>| #[trigger] name_lookup(r.by_name@, name) == new_net_for(*board, net_codes@, name),
        forall|code: nat|
            #[trigger] code_lookup(r.by_code@, code) == match old_name(old_net_names@, code) {
                Some(n) => new_net_for(*board, net_codes@, n),
                None => None,
            },
{
    let mut by_name: Vec<(String, usize, String)> = Vec::new();
    let mut i: usize = 0;
    while i < board.nets.len()
        invariant
            i <= board.nets@.len(),
            forall|name: Seq<char>| #[trigger] name_lookup(by_name@, name) == new_net_upto(*board, net_codes@, name, i as int),
        decreases board.nets@.len() - i,
    {
        let name = board.nets[i].name.as_str();
        let ghost before = by_name@;
        let code = find_code(net_codes, name);
        if let Some(c) = code {
            by_name.push((name.to_string(), c, name.to_string()));
        }
        proof {
            assert forall|q: Seq<char>| #[trigger] name_lookup(by_name@, q) == new_net_upto(*board, net_codes@, q, i + 1) by {
                if code is Some {
                    lemma_name_lookup_push(before, by_name@.last(), q);
                    assert(by_name@ == before.push(by_name@.last()));
                }
                if exists|j: int| 0 <= j < i + 1 && (#[trigger] board.nets@[j]).name@ == q {
                    let j = choose|j: int| 0 <= j < i + 1 && (#[trigger] board.nets@[j]).name@ == q;
                    if j < i {
                        assert(exists|j: int| 0 <= j < i && (#[trigger] board.nets@[j]).name@ == q);
                    }
                }
                if exists|j: int| 0 <= j < i && (#[trigger] board.nets@[j]).name@ == q {
                    let j = choose|j: int| 0 <= j < i && (#[trigger] board.nets@[j]).name@ == q;
                    assert(0 <= j < i + 1 && board.nets@[j].name@ == q);
                }
            }
        }
        i = i + 1;
    }
    assert forall|name: Seq<char>| #[trigger] name_lookup(by_name@, name) == new_net_for(*board, net_codes@, name) by {
        assert(name_lookup(by_name@, name) == new_net_upto(*board, net_codes@, name, i as int));
    }
    let mut by_code: Vec<(usize, usize, String)> = Vec::new();
    let mut k: usize = 0;
    while k < old_net_names.len()
        invariant
            k <= old_net_names@.len(),
            forall|i: int, j: int| 0 <= i < j < old_net_names@.len() ==> (#[trigger] old_net_names@[i]).0 != (#[trigger] old_net_names@[j]).0,
            forall|code: nat|
                #[trigger] code_lookup(by_code@, code) == match old_name(old_net_names@.take(k as int), code) {
                    Some(n) => new_net_for(*board, net_codes@, n),
                    None => None,
                },
        decreases old_net_names@.len() - k,
    {
        let (old_code, old_name_s) = (&old_net_names[k].0, &old_net_names[k].1);
        let ghost before = by_code@;
        let ghost prefix = old_net_names@.take(k as int);
        let target = new_net(board, net_codes, old_name_s.as_str());
        if let Some((nc, nn)) = target {
            by_code.push((*old_code, nc, nn));
        }
        proof {
            assert(old_net_names@.take(k + 1) =~= prefix.push(old_net_names@[k as int]));
            assert forall|code: nat|
                #[trigger] code_lookup(by_code@, code) == match old_name(old_net_names@.take(k + 1), code) {
                    Some(n) => new_net_for(*board, net_codes@, n),
                    None => None,
                } by {
                lemma_old_name_push(prefix, old_net_names@[k as int], code);
                if by_code@.len() > before.len() {
                    assert(by_code@ == before.push(by_code@.last()));
                    lemma_code_lookup_push(before, by_code@.last(), code);
                }
                if old_net_names@[k as int].0 == code {
                    assert forall|i: int| 0 <= i < prefix.len() implies (#[trigger] prefix[i]).0 != code by {
                        assert(prefix[i] == old_net_names@[i]);
                    }
                    lemma_old_name_absent(prefix, code);
                }
            }
        }
        k = k + 1;
    }
    assert(old_net_names@.take(k as int) =~= old_net_names@);
    NetRemap { by_name, by_code }
}

/// The children of a `(net <code> "<name>")` node.
pub open spec fn net_ref_t(code: nat, name: Seq<char>) -> Seq<Tree> {
    seq![Tree::Atom("net"@), Tree::Atom(decimal(code)), str_t(name)]
}

/// What the children `props` of a pad's `(net …)` node become: when the
/// second child reads as a net code, the new net of that old code; when it
/// does not, the new net of that name; unchanged when the remap has none.
pub open spec fn remap_net_props(props: Seq<Tree>, remap: NetRemap) -> Seq<Tree> {
    let s = as_string_spec(props[1]);
    match parse_usize_spec(s) {
        Some(c) => match code_lookup(remap.by_code@, c as nat) {
            Some((nc, nn)) => net_ref_t(nc, nn),
            None => props,
        },
        None => match name_lookup(remap.by_name@, s) {
            Some((nc, nn)) => net_ref_t(nc, nn),
            None => props,
        },
    }
}

/// A child of a pad after remapping: a `(net …)` list with at least two
/// children is remapped, anything else is kept.
pub open spec fn remap_pad_prop(p: Tree, remap: NetRemap) -> Tree {
    match p {
        Tree::List(np) => if np.len() >= 2 && as_string_spec(np[0]) == "net"@ {
            Tree::List(remap_net_props(np, remap))
        } else {
            p
        },
        _ => p,
    }
}

/// A child of a footprint after remapping: in a `(pad …)` list every child
/// is remapped, anything else is kept.
pub open spec fn remap_fp_child(c: Tree, remap: NetRemap) -> Tree {
    match c {
        Tree::List(props) => if props.len() > 0 && as_string_spec(props[0]) == "pad"@ {
            Tree::List(props.map_values(|p: Tree| remap_pad_prop(p, remap)))
        } else {
            c
        },
        _ => c,
    }
}

/// A footprint after remapping the nets of its pads.
pub open spec fn remap_fp(fp: Tree, remap: NetRemap) -> Tree {
    match fp {
        Tree::List(parts) => Tree::List(parts.map_values(|c: Tree| remap_fp_child(c, remap))),
        _ => fp,
    }
}

fn lookup_code(t: &Vec<(usize, usize, String)>, code: usize) -> (r: Option<(usize, String)>)
    ensures
        match code_lookup(t@, code as nat) {
            Some((c, n)) => r matches Some((rc, rn)) && rc == c && rn@ == n,
            None => r is None,
        },
{
    let mut i: usize = 0;
    assert(t@.skip(0) =~= t@);
    while i < t.len()
        invariant
            i <= t@.len(),
            code_lookup(t@, code as nat) == code_lookup(t@.skip(i as int), code as nat),
        decreases t@.len() - i,
    {
        assert(t@.skip(i as int)[0] == t@[i as int]);
        if t[i].0 == code {
            return Some((t[i].1, t[i].2.clone()));
        }
        assert(t@.skip(i as int).skip(1) =~= t@.skip(i + 1));
        i = i + 1;
    }
    None
}

fn lookup_name(t: &Vec<(String, usize, String)>, name: &str) -> (r: Option<(usize, String)>)
    ensures
        match name_lookup(t@, name@) {
            Some((c, n)) => r matches Some((rc, rn)) && rc == c && rn@ == n,
            None => r is None,
        },
{
    let mut i: usize = 0;
    assert(t@.skip(0) =~= t@);
    while i < t.len()
        invariant
            i <= t@.len(),
            name_lookup(t@, name@) == name_lookup(t@.skip(i as int), name@),
        decreases t@.len() - i,
    {
        assert(t@.skip(i as int)[0] == t@[i as int]);
        if str_eq(t[i].0.as_str(), name) {
            return Some((t[i].1, t[i].2.clone()));
        }
        assert(t@.skip(i as int).skip(1) =~= t@.skip(i + 1));
        i = i + 1;
    }
    None
}

fn net_ref(code: usize, name: &str) -> (r: Vec<Sexpr>)
    ensures
        view_all(r@) == net_ref_t(code as nat, name@),
{
    let mut v: Vec<Sexpr> = Vec::new();
    push_node(&mut v, Sexpr::atom("net"));
    push_node(&mut v, Sexpr::atom(usize_to_string(code).as_str()));
    push_node(&mut v, Sexpr::str(name));
    proof {
        lemma_view_all(v@);
    }
    assert(view_all(v@) =~= net_ref_t(code as nat, name@));
    v
}

/// Update a single `(net …)` node inside a pad (see [`remap_net_props`]).
pub fn remap_net_node(props: &mut Vec<Sexpr>, remap: &NetRemap)
    requires
        old(props)@.len() >= 2,
    ensures
        view_all(final(props)@) == remap_net_props(view_all(old(props)@), *remap),
{
    proof {
        lemma_view_all(props@);
    }
    let s = props[1].as_string();
    let cs = chars_of(s.as_str());
    match parse_usize(cs.as_slice()) {
        Some(old_code) => {
            match lookup_code(&remap.by_code, old_code) {
                Some((nc, nn)) => {
                    *props = net_ref(nc, nn.as_str());
                },
                None => {},
            }
        },
        None => {
            match lookup_name(&remap.by_name, s.as_str()) {
                Some((nc, nn)) => {
                    *props = net_ref(nc, nn.as_str());
                },
                None => {},
            }
        },
    }
}

fn remapped_pad_prop(p: &Sexpr, remap: &NetRemap) -> (r: Sexpr)
    ensures
        r@ == remap_pad_prop(p@, *remap),
{
    if let Sexpr::List(np) = p {
        proof {
            lemma_view_all(np@);
        }
        if np.len() >= 2 {
            let head = np[0].as_string();
            if str_eq(head.as_str(), "net") {
                let c = p.copy();
                if let Sexpr::List(mut v) = c {
                    proof {
                        lemma_view_all(v@);
                    }
                    remap_net_node(&mut v, remap);
                    return Sexpr::List(v);
                }
            }
        }
    }
    p.copy()
}

fn remapped_fp_child(c: &Sexpr, remap: &NetRemap) -> (r: Sexpr)
    ensures
        r@ == remap_fp_child(c@, *remap),
{
    if let Sexpr::List(props) = c {
        proof {
            lemma_view_all(props@);
        }
        if props.len() > 0 {
            let head = props[0].as_string();
            if str_eq(head.as_str(), "pad") {
                let ghost src = view_all(props@);
                let mut out: Vec<Sexpr> = Vec::new();
                let mut i: usize = 0;
                while i < props.len()
                    invariant
                        i <= props@.len(),
                        src == view_all(props@),
                        src.len() == props@.len(),
                        forall|k: int| 0 <= k < props@.len() ==> #[trigger] src[k] == props@[k]@,
                        view_all(out@) =~= src.take(i as int).map_values(|p: Tree| remap_pad_prop(p, *remap)),
                    decreases props@.len() - i,
                {
                    let q = remapped_pad_prop(&props[i], remap);
                    push_node(&mut out, q);
                    i = i + 1;
                    assert(view_all(out@) =~= src.take(i as int).map_values(|p: Tree| remap_pad_prop(p, *remap)));
                }
                assert(src.take(i as int) =~= src);
                return Sexpr::List(out);
            }
        }
    }
    c.copy()
}

fn remapped_fp(fp: &Sexpr, remap: &NetRemap) -> (r: Sexpr)
    ensures
        r@ == remap_fp(fp@, *remap),
{
    if let Sexpr::List(parts) = fp {
        proof {
            lemma_view_all(parts@);
        }
        let ghost src = view_all(parts@);
        let mut out: Vec<Sexpr> = Vec::new();
        let mut i: usize = 0;
        while i < parts.len()
            invariant
                i <= parts@.len(),
                src == view_all(parts@),
                src.len() == parts@.len(),
                forall|k: int| 0 <= k < parts@.len() ==> #[trigger] src[k] == parts@[k]@,
                view_all(out@) =~= src.take(i as int).map_values(|c: Tree| remap_fp_child(c, *remap)),
            decreases parts@.len() - i,
        {
            let q = remapped_fp_child(&parts[i], remap);
            push_node(&mut out, q);
            i = i + 1;
            assert(view_all(out@) =~= src.take(i as int).map_values(|c: Tree| remap_fp_child(c, *remap)));
        }
        assert(src.take(i as int) =~= src);
        return Sexpr::List(out);
    }
    fp.copy()
}

/// Walk a footprint and update the `(net …)` references inside its pads
/// to the new board's net codes and names (see [`remap_fp`]).
pub fn remap_footprint_nets(fp: &mut Sexpr, remap: &NetRemap)
    ensures
        final(fp)@ == remap_fp(old(fp)@, *remap),
{
    let new_fp = remapped_fp(fp, remap);
    *fp = new_fp;
}

} // verus!
