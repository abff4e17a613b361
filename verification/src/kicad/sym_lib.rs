//! The KiCad symbol library reader: each top-level `(symbol "NAME" …)` node
//! with its parent (`extends`), its pins (nested unit symbols included) and
//! its `Footprint` and `Datasheet` properties. A pin's coordinates, angle
//! and length are decimal numbers; they are kept as the texts the file
//! writes, for the caller to read.

use vstd::prelude::*;

use crate::kicad::sexpr::{as_string_spec, copy_sexpr, lemma_view_all, parse, parse_spec, view_all, ParseError, Sexpr};
use crate::text::{chars_of, last_index_of, lemma_last_index_of, rfind_char, str_eq, string_of_range};
use crate::cli::part::{opt_seq, SymPin};
use crate::tree::Tree;

verus! {

broadcast use vstd::string::group_string_axioms;

/// A pin of a symbol as the file writes it. Every `(at x y angle)` and
/// every `(length l)` entry is kept, in order: the last one gives the
/// value, and each must hold a number for the pin to count.
pub struct PinText {
    pub pin_type: String,
    pub name: String,
    pub number: String,
    pub ats: Vec<(String, String, String)>,
    pub lengths: Vec<String>,
}

/// A pin as a mathematical value.
pub struct PinTextView {
    pub pin_type: Seq<char>,
    pub name: Seq<char>,
    pub number: Seq<char>,
    pub ats: Seq<(Seq<char>, Seq<char>, Seq<char>)>,
    pub lengths: Seq<Seq<char>>,
}

/// The texts of an `at` entry.
pub open spec fn triple_view(t: (String, String, String)) -> (Seq<char>, Seq<char>, Seq<char>) {
    (t.0@, t.1@, t.2@)
}

impl View for PinText {
    type V = PinTextView;

    open spec fn view(&self) -> PinTextView {
        PinTextView {
            pin_type: self.pin_type@,
            name: self.name@,
            number: self.number@,
            ats: self.ats@.map_values(|t: (String, String, String)| triple_view(t)),
            lengths: self.lengths@.map_values(|s: String| s@),
        }
    }
}

/// What a pin's entries give so far: its `at` and `length` texts, name and
/// number.
pub struct PinFields {
    pub ats: Seq<(Seq<char>, Seq<char>, Seq<char>)>,
    pub lengths: Seq<Seq<char>>,
    pub name: Seq<char>,
    pub number: Seq<char>,
}

/// Whether `t` is a list headed by the atom `key`.
pub open spec fn headed(t: Tree, key: Seq<char>) -> bool {
    t matches Tree::List(cs) && cs.len() >= 1 && cs[0] == Tree::Atom(key)
}

/// One entry of a pin: `(at x y angle)`, `(length l)`, `(name n)` and
/// `(number n)` are read (`None` when one lacks a value, which drops the
/// pin); anything else is passed over.
pub open spec fn pin_entry(f: PinFields, e: Tree) -> Option<PinFields> {
    match e {
        Tree::List(ps) => if headed(e, "at"@) {
            if ps.len() >= 4 {
                Some(PinFields {
                    ats: f.ats.push((as_string_spec(ps[1]), as_string_spec(ps[2]), as_string_spec(ps[3]))),
                    ..f
                })
            } else {
                None
            }
        } else if headed(e, "length"@) {
            if ps.len() >= 2 {
                Some(PinFields { lengths: f.lengths.push(as_string_spec(ps[1])), ..f })
            } else {
                None
            }
        } else if headed(e, "name"@) {
            if ps.len() >= 2 {
                Some(PinFields { name: as_string_spec(ps[1]), ..f })
            } else {
                None
            }
        } else if headed(e, "number"@) {
            if ps.len() >= 2 {
                Some(PinFields { number: as_string_spec(ps[1]), ..f })
            } else {
                None
            }
        } else {
            Some(f)
        },
        _ => Some(f),
    }
}

/// A pin's entries read in order, from no entries read.
pub open spec fn pin_entries(es: Seq<Tree>) -> Option<PinFields>
    decreases es.len(),
{
    if es.len() == 0 {
        Some(PinFields { ats: Seq::empty(), lengths: Seq::empty(), name: Seq::empty(), number: Seq::empty() })
    } else {
        match pin_entries(es.drop_last()) {
            Some(f) => pin_entry(f, es.last()),
            None => None,
        }
    }
}

/// The pin a node declares: `(pin <type> <style> <entry>…)`, whose entries
/// all read (see [`pin_entry`]).
pub open spec fn pin_of(t: Tree) -> Option<PinTextView> {
    match t {
        Tree::List(cs) => if headed(t, "pin"@) && cs.len() >= 2 {
            match pin_entries(if cs.len() >= 3 { cs.skip(3) } else { Seq::empty() }) {
                Some(f) => Some(PinTextView {
                    pin_type: as_string_spec(cs[1]),
                    name: f.name,
                    number: f.number,
                    ats: f.ats,
                    lengths: f.lengths,
                }),
                None => None,
            }
        } else {
            None
        },
        _ => None,
    }
}

/// A pin whose first entries fail to read fails to read.
proof fn lemma_pin_entries_fail(ts: Seq<Tree>, start: int, j: int)
    requires
        0 <= start <= j <= ts.len(),
        pin_entries(ts.subrange(start, j)) is None,
    ensures
        pin_entries(ts.subrange(start, ts.len() as int)) is None,
    decreases ts.len() - j,
{
    if j < ts.len() {
        assert(ts.subrange(start, j + 1).drop_last() =~= ts.subrange(start, j));
        lemma_pin_entries_fail(ts, start, j + 1);
    }
}

/// Whether `t` is a `(pin <type>)` node without its style, whose entries
/// the reader cannot take from the fourth item on.
pub open spec fn short_pin(t: Tree) -> bool {
    t matches Tree::List(cs) && headed(t, "pin"@) && cs.len() == 2
}

/// Whether no short pin stands where a symbol's body is read from `t`
/// itself (see [`body_step`]): `t` is not one, and a unit sub-symbol holds
/// none.
pub open spec fn node_pins_complete(t: Tree) -> bool
    decreases t, 1nat,
{
    match t {
        Tree::List(cs) => !short_pin(t) && (headed(t, "symbol"@) && cs.len() > 2 ==> pins_complete_from(t, 2)),
        _ => true,
    }
}

/// Whether no short pin stands among the children of the list `t` from
/// `start` on, nor in the bodies of the units among them.
pub open spec fn pins_complete_from(t: Tree, start: int) -> bool
    decreases t, 0nat, (if t is List { t->List_0.len() - start } else { 0 }),
{
    match t {
        Tree::List(cs) => if 0 <= start < cs.len() {
            node_pins_complete(cs[start]) && pins_complete_from(t, start + 1)
        } else {
            true
        },
        _ => true,
    }
}

/// Whether no short pin stands in the body of any symbol of a parsed
/// library.
pub open spec fn library_pins_complete(t: Tree) -> bool {
    match t {
        Tree::List(nodes) => forall|k: int|
            0 <= k < nodes.len() && symbol_of(#[trigger] nodes[k]) is Some ==> pins_complete_from(nodes[k], 2),
        _ => true,
    }
}

/// Whether `node` is a list whose head is the atom `key`.
pub(crate) fn is_headed(node: &Sexpr, key: &str) -> (b: bool)
    ensures
        b == headed(node@, key@),
{
    match node {
        Sexpr::List(cs) => {
            proof {
                lemma_view_all(cs@);
            }
            if cs.len() >= 1 {
                match &cs[0] {
                    Sexpr::Atom(h) => str_eq(h.as_str(), key),
                    _ => false,
                }
            } else {
                false
            }
        },
        _ => false,
    }
}

/// Reads the pin that `node` declares (see [`pin_of`]).
pub fn read_pin(node: &Sexpr) -> (r: Option<PinText>)
    requires
        !short_pin(node@),
    ensures
        match pin_of(node@) {
            Some(p) => r matches Some(q) && q@ == p,
            None => r is None,
        },
{
    if !is_headed(node, "pin") {
        return None;
    }
    let cs = match node {
        Sexpr::List(cs) => cs,
        _ => {
            return None;
        },
    };
    proof {
        lemma_view_all(cs@);
    }
    let ghost ts = view_all(cs@);
    if cs.len() < 2 {
        return None;
    }
    let pin_type = cs[1].as_string();
    let mut ats: Vec<(String, String, String)> = Vec::new();
    let mut lengths: Vec<String> = Vec::new();
    let mut name = String::new();
    let mut number = String::new();
    let ghost es: Seq<Tree> = if ts.len() >= 3 { ts.skip(3) } else { Seq::empty() };
    let mut i: usize = 3;
    if cs.len() < 3 {
        i = cs.len();
    }
    let ghost start: int = i as int;
    proof {
        assert(es =~= ts.subrange(start, ts.len() as int));
        assert(ts.subrange(start, start) =~= Seq::<Tree>::empty());
        assert(ats@.map_values(|t: (String, String, String)| triple_view(t)) =~= Seq::empty());
        assert(lengths@.map_values(|s: String| s@) =~= Seq::empty());
    }
    while i < cs.len()
        invariant
            0 <= start <= i <= cs@.len(),
            es == ts.subrange(start, ts.len() as int),
            es == (if ts.len() >= 3 { ts.skip(3) } else { Seq::<Tree>::empty() }),
            headed(node@, "pin"@),
            cs@.len() >= 2,
            pin_type@ == as_string_spec(ts[1]),
            *node == Sexpr::List(*cs),
            ts == view_all(cs@),
            ts.len() == cs@.len(),
            forall|k: int| 0 <= k < cs@.len() ==> #[trigger] ts[k] == cs@[k]@,
            pin_entries(ts.subrange(start, i as int)) == Some(PinFields {
                ats: ats@.map_values(|t: (String, String, String)| triple_view(t)),
                lengths: lengths@.map_values(|s: String| s@),
                name: name@,
                number: number@,
            }),
        decreases cs@.len() - i,
    {
        let e = &cs[i];
        assert(ts.subrange(start, i + 1).drop_last() =~= ts.subrange(start, i as int));
        assert(ts.subrange(start, i + 1).last() == e@);
        let ghost ats0 = ats@;
        let ghost lengths0 = lengths@;
        if let Sexpr::List(ps) = e {
            proof {
                lemma_view_all(ps@);
            }
            if is_headed(e, "at") {
                if ps.len() < 4 {
                    proof {
                        lemma_pin_entries_fail(ts, start, i + 1);
                        assert(pin_entries(es) is None);
                        assert(node@ == Tree::List(ts));
                    }
                    return None;
                }
                ats.push((ps[1].as_string(), ps[2].as_string(), ps[3].as_string()));
                assert(ats@.map_values(|t: (String, String, String)| triple_view(t)) =~= ats0.map_values(
                    |t: (String, String, String)| triple_view(t),
                ).push(triple_view(ats@.last())));
            } else if is_headed(e, "length") {
                if ps.len() < 2 {
                    proof {
                        lemma_pin_entries_fail(ts, start, i + 1);
                        assert(pin_entries(es) is None);
                        assert(node@ == Tree::List(ts));
                    }
                    return None;
                }
                lengths.push(ps[1].as_string());
                assert(lengths@.map_values(|s: String| s@) =~= lengths0.map_values(|s: String| s@).push(
                    lengths@.last()@,
                ));
            } else if is_headed(e, "name") {
                if ps.len() < 2 {
                    proof {
                        lemma_pin_entries_fail(ts, start, i + 1);
                        assert(pin_entries(es) is None);
                        assert(node@ == Tree::List(ts));
                    }
                    return None;
                }
                name = ps[1].as_string();
            } else if is_headed(e, "number") {
                if ps.len() < 2 {
                    proof {
                        lemma_pin_entries_fail(ts, start, i + 1);
                        assert(pin_entries(es) is None);
                        assert(node@ == Tree::List(ts));
                    }
                    return None;
                }
                number = ps[1].as_string();
            }
        }
        i = i + 1;
    }
    Some(PinText { pin_type, name, number, ats, lengths })
}


/// What a symbol's body gives: its pins in file order, and its first
/// non-empty `Footprint` and `Datasheet` properties.
pub struct SymbolBody {
    pub pins: Seq<PinTextView>,
    pub footprint: Option<Seq<char>>,
    pub datasheet: Option<Seq<char>>,
}

/// The value of a `(property "<key>" "<value>" …)` node, when it is not
/// empty.
pub open spec fn property_value(t: Tree, key: Seq<char>) -> Option<Seq<char>> {
    match t {
        Tree::List(cs) => if headed(t, "property"@) && cs.len() >= 3 && as_string_spec(cs[1]) == key
            && as_string_spec(cs[2]).len() > 0 {
            Some(as_string_spec(cs[2]))
        } else {
            None
        },
        _ => None,
    }
}

/// One node of a symbol's body read into `b`: a pin is added; else the
/// first `Footprint` and then the first `Datasheet` property is taken;
/// else a nested `(symbol "<unit>" …)` node has its own body read in turn.
pub open spec fn body_step(b: SymbolBody, t: Tree) -> SymbolBody
    decreases t, 1nat,
{
    match pin_of(t) {
        Some(p) => SymbolBody { pins: b.pins.push(p), ..b },
        None => if b.footprint is None && property_value(t, "Footprint"@) is Some {
            SymbolBody { footprint: property_value(t, "Footprint"@), ..b }
        } else if b.datasheet is None && property_value(t, "Datasheet"@) is Some {
            SymbolBody { datasheet: property_value(t, "Datasheet"@), ..b }
        } else {
            match t {
                Tree::List(cs) => if headed(t, "symbol"@) && cs.len() > 2 {
                    body_from(b, t, 2)
                } else {
                    b
                },
                _ => b,
            }
        },
    }
}

/// The children of the list `t` from index `start` on, read into `b` in
/// order.
pub open spec fn body_from(b: SymbolBody, t: Tree, start: int) -> SymbolBody
    decreases t, 0nat, (if t is List { t->List_0.len() - start } else { 0 }),
{
    match t {
        Tree::List(cs) => if 0 <= start < cs.len() {
            body_from(body_step(b, cs[start]), t, start + 1)
        } else {
            b
        },
        _ => b,
    }
}

/// The mathematical value of a body being read.
pub open spec fn body_view(pins: Vec<PinText>, footprint: Option<String>, datasheet: Option<String>) -> SymbolBody {
    SymbolBody {
        pins: pins@.map_values(|p: PinText| p@),
        footprint: opt_seq(footprint),
        datasheet: opt_seq(datasheet),
    }
}

/// The value of `node` when it is a `(property "<key>" "<value>" …)` node
/// with a value (see [`property_value`]).
fn read_property(node: &Sexpr, key: &str) -> (r: Option<String>)
    ensures
        opt_seq(r) == property_value(node@, key@),
{
    if !is_headed(node, "property") {
        return None;
    }
    match node {
        Sexpr::List(cs) => {
            proof {
                lemma_view_all(cs@);
            }
            if cs.len() >= 3 {
                let k = cs[1].as_string();
                if str_eq(k.as_str(), key) {
                    let v = cs[2].as_string();
                    if !v.as_str().is_empty() {
                        return Some(v);
                    }
                }
            }
            None
        },
        _ => None,
    }
}

/// Reads one node of a symbol's body (see [`body_step`]).
fn read_body_node(
    node: &Sexpr,
    pins: &mut Vec<PinText>,
    footprint: &mut Option<String>,
    datasheet: &mut Option<String>,
)
    requires
        node_pins_complete(node@),
    ensures
        body_view(*final(pins), *final(footprint), *final(datasheet)) == body_step(
            body_view(*old(pins), *old(footprint), *old(datasheet)),
            node@,
        ),
    decreases node, 1nat,
{
    let ghost b0 = body_view(*pins, *footprint, *datasheet);
    match read_pin(node) {
        Some(p) => {
            let ghost pv = p@;
            pins.push(p);
            assert(pins@.map_values(|q: PinText| q@) =~= b0.pins.push(pv));
            return;
        },
        None => {},
    }
    if footprint.is_none() {
        let fp = read_property(node, "Footprint");
        if fp.is_some() {
            *footprint = fp;
            return;
        }
    }
    if datasheet.is_none() {
        let ds = read_property(node, "Datasheet");
        if ds.is_some() {
            *datasheet = ds;
            return;
        }
    }
    if is_headed(node, "symbol") {
        if let Sexpr::List(cs) = node {
            proof {
                lemma_view_all(cs@);
            }
            if cs.len() > 2 {
                read_body_from(node, 2, pins, footprint, datasheet);
            }
        }
    }
}

/// Reads the children of the list `node` from index `start` on (see
/// [`body_from`]).
fn read_body_from(
    node: &Sexpr,
    start: usize,
    pins: &mut Vec<PinText>,
    footprint: &mut Option<String>,
    datasheet: &mut Option<String>,
)
    requires
        pins_complete_from(node@, start as int),
    ensures
        body_view(*final(pins), *final(footprint), *final(datasheet)) == body_from(
            body_view(*old(pins), *old(footprint), *old(datasheet)),
            node@,
            start as int,
        ),
    decreases node, 0nat,
{
    match node {
        Sexpr::List(cs) => {
            proof {
                lemma_view_all(cs@);
            }
            let ghost ts = view_all(cs@);
            let mut i: usize = start;
            if i > cs.len() {
                i = cs.len();
            }
            while i < cs.len()
                invariant
                    start <= i <= cs@.len() || (i == cs@.len() && start > cs@.len()),
                    *node == Sexpr::List(*cs),
                    ts == view_all(cs@),
                    ts.len() == cs@.len(),
                    forall|k: int| 0 <= k < cs@.len() ==> #[trigger] ts[k] == cs@[k]@,
                    body_from(body_view(*old(pins), *old(footprint), *old(datasheet)), node@, start as int)
                        == body_from(body_view(*pins, *footprint, *datasheet), node@, i as int),
                    pins_complete_from(node@, i as int),
                decreases cs@.len() - i,
            {
                read_body_node(&cs[i], pins, footprint, datasheet);
                i = i + 1;
            }
        },
        _ => {},
    }
}


/// A symbol of a library as the file writes it, before its parent's pins
/// and properties are added.
pub struct SymbolText {
    pub lib_id: String,
    pub extends: Option<String>,
    pub pins: Vec<PinText>,
    pub footprint: Option<String>,
    pub datasheet: Option<String>,
    /// The symbol's whole node.
    pub raw: Sexpr,
}

/// A symbol as a mathematical value.
pub struct SymbolTextView {
    pub lib_id: Seq<char>,
    pub extends: Option<Seq<char>>,
    pub body: SymbolBody,
    pub raw: Tree,
}

impl View for SymbolText {
    type V = SymbolTextView;

    open spec fn view(&self) -> SymbolTextView {
        SymbolTextView {
            lib_id: self.lib_id@,
            extends: opt_seq(self.extends),
            body: body_view(self.pins, self.footprint, self.datasheet),
            raw: self.raw@,
        }
    }
}

/// The parent that the last `(extends "<parent>")` node among `ts` names.
pub open spec fn extends_in(ts: Seq<Tree>) -> Option<Seq<char>>
    decreases ts.len(),
{
    if ts.len() == 0 {
        None
    } else {
        match ts.last() {
            Tree::List(ps) => if ps.len() == 2 && headed(ts.last(), "extends"@) {
                Some(as_string_spec(ps[1]))
            } else {
                extends_in(ts.drop_last())
            },
            _ => extends_in(ts.drop_last()),
        }
    }
}

/// The body of a symbol before anything is read.
pub open spec fn empty_body() -> SymbolBody {
    SymbolBody { pins: Seq::empty(), footprint: None, datasheet: None }
}

/// The symbol a node declares: `(symbol "<lib_id>" <node>…)`, with the
/// parent its `extends` node names and its body read from its third child
/// on.
pub open spec fn symbol_of(t: Tree) -> Option<SymbolTextView> {
    match t {
        Tree::List(cs) => if headed(t, "symbol"@) && cs.len() >= 2 {
            Some(SymbolTextView {
                lib_id: as_string_spec(cs[1]),
                extends: extends_in(cs.skip(2)),
                body: body_from(empty_body(), t, 2),
                raw: t,
            })
        } else {
            None
        },
        _ => None,
    }
}

/// The symbols declared among `nodes`, in order.
pub open spec fn symbols_of(nodes: Seq<Tree>) -> Seq<SymbolTextView>
    decreases nodes.len(),
{
    if nodes.len() == 0 {
        Seq::empty()
    } else {
        match symbol_of(nodes.last()) {
            Some(x) => symbols_of(nodes.drop_last()).push(x),
            None => symbols_of(nodes.drop_last()),
        }
    }
}

/// The symbols of a parsed library: those declared directly under its
/// top-level list (none for an atom).
pub open spec fn library_spec(t: Tree) -> Seq<SymbolTextView> {
    match t {
        Tree::List(nodes) => symbols_of(nodes),
        _ => Seq::empty(),
    }
}

/// Reads the symbol that `node` declares (see [`symbol_of`]).
pub fn read_symbol(node: &Sexpr) -> (r: Option<SymbolText>)
    requires
        symbol_of(node@) is Some ==> pins_complete_from(node@, 2),
    ensures
        match symbol_of(node@) {
            Some(x) => r matches Some(y) && y@ == x,
            None => r is None,
        },
{
    if !is_headed(node, "symbol") {
        return None;
    }
    let cs = match node {
        Sexpr::List(cs) => cs,
        _ => {
            return None;
        },
    };
    proof {
        lemma_view_all(cs@);
    }
    let ghost ts = view_all(cs@);
    if cs.len() < 2 {
        return None;
    }
    let lib_id = cs[1].as_string();
    let mut extends: Option<String> = None;
    let mut i: usize = 2;
    proof {
        assert(ts.subrange(2, 2) =~= Seq::<Tree>::empty());
    }
    while i < cs.len()
        invariant
            2 <= i <= cs@.len(),
            ts == view_all(cs@),
            ts.len() == cs@.len(),
            forall|k: int| 0 <= k < cs@.len() ==> #[trigger] ts[k] == cs@[k]@,
            opt_seq(extends) == extends_in(ts.subrange(2, i as int)),
        decreases cs@.len() - i,
    {
        let e = &cs[i];
        assert(ts.subrange(2, i + 1).drop_last() =~= ts.subrange(2, i as int));
        assert(ts.subrange(2, i + 1).last() == e@);
        if let Sexpr::List(ps) = e {
            proof {
                lemma_view_all(ps@);
            }
            if ps.len() == 2 && is_headed(e, "extends") {
                extends = Some(ps[1].as_string());
            }
        }
        i = i + 1;
    }
    assert(ts.subrange(2, ts.len() as int) =~= ts.skip(2));
    let mut pins: Vec<PinText> = Vec::new();
    let mut footprint: Option<String> = None;
    let mut datasheet: Option<String> = None;
    assert(body_view(pins, footprint, datasheet) == empty_body()) by {
        assert(pins@.map_values(|p: PinText| p@) =~= Seq::<PinTextView>::empty());
    }
    read_body_from(node, 2, &mut pins, &mut footprint, &mut datasheet);
    Some(SymbolText { lib_id, extends, pins, footprint, datasheet, raw: copy_sexpr(node) })
}

/// The symbols of the library text `source`, each as the file writes it
/// (see [`library_spec`]), or the error of its parse.
pub fn read_symbol_texts(source: &str) -> (r: Result<Vec<SymbolText>, ParseError>)
    requires
        parse_spec(source@) matches Ok(t) ==> library_pins_complete(t),
    ensures
        match parse_spec(source@) {
            Ok(t) => r matches Ok(v) && v@.map_values(|x: SymbolText| x@) == library_spec(t),
            Err(e) => r == Err::<Vec<SymbolText>, ParseError>(e),
        },
{
    let expr = match parse(source) {
        Ok(e) => e,
        Err(e) => {
            return Err(e);
        },
    };
    let mut out: Vec<SymbolText> = Vec::new();
    if let Sexpr::List(nodes) = &expr {
        proof {
            lemma_view_all(nodes@);
        }
        let ghost ts = view_all(nodes@);
        assert(expr@ == Tree::List(ts));
        let mut i: usize = 0;
        while i < nodes.len()
            invariant
                i <= nodes@.len(),
                ts == view_all(nodes@),
                ts.len() == nodes@.len(),
                forall|k: int| 0 <= k < nodes@.len() ==> #[trigger] ts[k] == nodes@[k]@,
                out@.map_values(|x: SymbolText| x@) == symbols_of(ts.take(i as int)),
                forall|k: int| 0 <= k < ts.len() && symbol_of(#[trigger] ts[k]) is Some ==> pins_complete_from(ts[k], 2),
            decreases nodes@.len() - i,
        {
            let ghost before = out@;
            assert(ts.take(i + 1).drop_last() =~= ts.take(i as int));
            assert(ts.take(i + 1).last() == nodes@[i as int]@);
            assert(symbol_of(ts[i as int]) is Some ==> pins_complete_from(ts[i as int], 2));
            match read_symbol(&nodes[i]) {
                Some(x) => {
                    out.push(x);
                    assert(out@.map_values(|y: SymbolText| y@) =~= before.map_values(|y: SymbolText| y@).push(
                        out@.last()@,
                    ));
                },
                None => {},
            }
            i = i + 1;
        }
        assert(ts.take(i as int) =~= ts);
    } else {
        assert(out@.map_values(|x: SymbolText| x@) =~= Seq::<SymbolTextView>::empty());
    }
    Ok(out)
}


/// A symbol of a library with its pins read: its name, parent, pins and
/// `Footprint` and `Datasheet` properties.
pub struct SymbolDef {
    pub lib_id: String,
    pub extends: Option<String>,
    pub pins: Vec<SymPin>,
    pub footprint: Option<String>,
    pub datasheet: Option<String>,
    /// The symbol's whole node.
    pub raw: Sexpr,
}

/// A symbol as a mathematical value.
pub struct SymbolDefView {
    pub lib_id: Seq<char>,
    pub extends: Option<Seq<char>>,
    pub pins: Seq<SymPin>,
    pub footprint: Option<Seq<char>>,
    pub datasheet: Option<Seq<char>>,
    pub raw: Tree,
}

impl View for SymbolDef {
    type V = SymbolDefView;

    open spec fn view(&self) -> SymbolDefView {
        SymbolDefView {
            lib_id: self.lib_id@,
            extends: opt_seq(self.extends),
            pins: self.pins@,
            footprint: opt_seq(self.footprint),
            datasheet: opt_seq(self.datasheet),
            raw: self.raw@,
        }
    }
}

/// The models of a sequence of symbols.
pub open spec fn defs_view(v: Seq<SymbolDef>) -> Seq<SymbolDefView> {
    v.map_values(|d: SymbolDef| d@)
}

/// A symbol's name with its library prefix (up to the last `:`) dropped.
pub open spec fn symbol_name(id: Seq<char>) -> Seq<char> {
    match last_index_of(id, ':') {
        Some(i) => id.skip(i + 1 as int),
        None => id,
    }
}

/// The index of the last symbol named `name` (a later definition of a name
/// replaces an earlier one).
pub open spec fn index_named(syms: Seq<SymbolDefView>, name: Seq<char>) -> Option<int>
    decreases syms.len(),
{
    if syms.len() == 0 {
        None
    } else if syms.last().lib_id == name {
        Some(syms.len() - 1)
    } else {
        index_named(syms.drop_last(), name)
    }
}

proof fn lemma_index_named(syms: Seq<SymbolDefView>, name: Seq<char>)
    ensures
        index_named(syms, name) matches Some(k) ==> 0 <= k < syms.len() && syms[k].lib_id == name,
    decreases syms.len(),
{
    if syms.len() > 0 && syms.last().lib_id != name {
        lemma_index_named(syms.drop_last(), name);
    }
}

/// The parent of a symbol is another symbol of the library.
proof fn lemma_parent_of(syms: Seq<SymbolDefView>, i: int)
    ensures
        parent_of(syms, i) matches Some(j) ==> 0 <= j < syms.len() && j != i,
{
    if let Some(e) = syms[i].extends {
        lemma_index_named(syms, symbol_name(e));
    }
}

/// The parent of symbol `i`: the symbol its `extends` names (prefix
/// dropped), when there is one other than itself.
pub open spec fn parent_of(syms: Seq<SymbolDefView>, i: int) -> Option<int> {
    match syms[i].extends {
        Some(e) => match index_named(syms, symbol_name(e)) {
            Some(j) => if j != i {
                Some(j)
            } else {
                None
            },
            None => None,
        },
        None => None,
    }
}

/// Whether a pin of `ps` is named `name`.
pub open spec fn has_pin_named(ps: Seq<SymPin>, name: Seq<char>) -> bool {
    exists|k: int| 0 <= k < ps.len() && ps[k].name@ == name
}

/// The pins of `parent`, in order, whose names no pin of `child` has.
pub open spec fn new_pins(child: Seq<SymPin>, parent: Seq<SymPin>) -> Seq<SymPin>
    decreases parent.len(),
{
    if parent.len() == 0 {
        Seq::empty()
    } else if has_pin_named(child, parent.last().name@) {
        new_pins(child, parent.drop_last())
    } else {
        new_pins(child, parent.drop_last()).push(parent.last())
    }
}

/// A symbol given what it inherits from its parent: the parent's pins
/// under names it lacks, after its own, and the parent's footprint and
/// datasheet where it has none.
pub open spec fn inherit(child: SymbolDefView, parent: SymbolDefView) -> SymbolDefView {
    SymbolDefView {
        pins: child.pins + new_pins(child.pins, parent.pins),
        footprint: if child.footprint is None {
            parent.footprint
        } else {
            child.footprint
        },
        datasheet: if child.datasheet is None {
            parent.datasheet
        } else {
            child.datasheet
        },
        ..child
    }
}

/// Resolving symbol `i` (`done` marks the symbols resolved, `visited` those
/// on the current chain of parents): a symbol already resolved, without a
/// parent, or met again on the chain (a cycle) is marked resolved as it
/// stands; any other first has its parent resolved, then inherits from it.
/// `fuel` bounds the length of the chain.
pub open spec fn resolve_step(
    syms: Seq<SymbolDefView>,
    done: Seq<bool>,
    i: int,
    visited: Seq<bool>,
    fuel: nat,
) -> (Seq<SymbolDefView>, Seq<bool>)
    decreases fuel,
{
    if done[i] {
        (syms, done)
    } else {
        match parent_of(syms, i) {
            None => (syms, done.update(i, true)),
            Some(j) => if visited[i] || fuel == 0 {
                (syms, done.update(i, true))
            } else {
                let r = resolve_step(syms, done, j, visited.update(i, true), (fuel - 1) as nat);
                (r.0.update(i, inherit(r.0[i], r.0[j])), r.1.update(i, true))
            },
        }
    }
}

/// `n` marks, all false.
pub open spec fn no_marks(n: nat) -> Seq<bool> {
    Seq::new(n, |k: int| false)
}

/// The symbols after resolving the first `k` in order, each from a fresh
/// chain, with the marks of those resolved.
pub open spec fn resolve_upto(syms: Seq<SymbolDefView>, k: nat) -> (Seq<SymbolDefView>, Seq<bool>)
    decreases k,
{
    if k == 0 {
        (syms, no_marks(syms.len()))
    } else {
        let r = resolve_upto(syms, (k - 1) as nat);
        resolve_step(r.0, r.1, k - 1, no_marks(syms.len()), syms.len())
    }
}

/// The symbols of a library with every `extends` resolved (see
/// [`resolve_step`]).
pub open spec fn resolve_spec(syms: Seq<SymbolDefView>) -> Seq<SymbolDefView> {
    resolve_upto(syms, syms.len()).0
}

/// Number of marks set.
pub open spec fn count_marked(v: Seq<bool>) -> nat
    decreases v.len(),
{
    if v.len() == 0 {
        0
    } else {
        count_marked(v.drop_last()) + if v.last() {
            1nat
        } else {
            0nat
        }
    }
}

proof fn lemma_count_marked(v: Seq<bool>, i: int)
    requires
        0 <= i < v.len(),
        !v[i],
    ensures
        count_marked(v) < v.len(),
        count_marked(v.update(i, true)) == count_marked(v) + 1,
    decreases v.len(),
{
    lemma_count_bound(v.drop_last());
    if i < v.len() - 1 {
        lemma_count_marked(v.drop_last(), i);
        assert(v.update(i, true).drop_last() =~= v.drop_last().update(i, true));
    } else {
        assert(v.update(i, true).drop_last() =~= v.drop_last());
    }
}

proof fn lemma_count_bound(v: Seq<bool>)
    ensures
        count_marked(v) <= v.len(),
    decreases v.len(),
{
    if v.len() > 0 {
        lemma_count_bound(v.drop_last());
    }
}

/// A copy of a pin.
fn copy_pin(p: &SymPin) -> (r: SymPin)
    ensures
        r == *p,
{
    SymPin {
        name: p.name.clone(),
        number: p.number.clone(),
        pos: p.pos,
        rotation: p.rotation,
        pin_type: p.pin_type.clone(),
        length: p.length,
    }
}

/// A copy of an optional string.
fn copy_opt(o: &Option<String>) -> (r: Option<String>)
    ensures
        r == *o,
{
    match o {
        Some(s) => Some(s.clone()),
        None => None,
    }
}

/// A library symbol's name with its prefix dropped (see [`symbol_name`]).
pub fn strip_library(id: &str) -> (r: String)
    ensures
        r@ == symbol_name(id@),
{
    let cs = chars_of(id);
    proof {
        lemma_last_index_of(cs@, ':');
    }
    match rfind_char(&cs, ':') {
        Some(i) => {
            assert(i < cs.len());
            string_of_range(&cs, i + 1, cs.len())
        },
        None => {
            assert(cs@.subrange(0, cs@.len() as int) =~= cs@);
            string_of_range(&cs, 0, cs.len())
        },
    }
}

/// The index of the last symbol named `name` (see [`index_named`]).
fn last_named(syms: &Vec<SymbolDef>, name: &str) -> (r: Option<usize>)
    ensures
        match index_named(defs_view(syms@), name@) {
            Some(k) => r == Some(k as usize),
            None => r is None,
        },
{
    let ghost v = defs_view(syms@);
    let mut k: usize = syms.len();
    assert(v.take(k as int) =~= v);
    while k > 0
        invariant
            k <= syms@.len(),
            v == defs_view(syms@),
            v.len() == syms@.len(),
            index_named(v, name@) == index_named(v.take(k as int), name@),
        decreases k,
    {
        let ghost t = v.take(k as int);
        assert(t.drop_last() =~= v.take(k - 1));
        assert(t.last() == syms@[k - 1]@);
        if str_eq(syms[k - 1].lib_id.as_str(), name) {
            return Some(k - 1);
        }
        k = k - 1;
    }
    None
}

/// The parent of symbol `i` (see [`parent_of`]).
fn parent_index(syms: &Vec<SymbolDef>, i: usize) -> (r: Option<usize>)
    requires
        i < syms@.len(),
    ensures
        match parent_of(defs_view(syms@), i as int) {
            Some(j) => r == Some(j as usize),
            None => r is None,
        },
{
    let ghost v = defs_view(syms@);
    assert(v.len() == syms@.len());
    assert(syms@.len() == syms.len());
    assert(v[i as int] == syms@[i as int]@);
    match &syms[i].extends {
        Some(e) => {
            let name = strip_library(e.as_str());
            assert(v[i as int].extends == Some(e@));
            proof {
                lemma_index_named(v, name@);
            }
            let found = last_named(syms, name.as_str());
            match found {
                Some(j) => if j != i {
                    Some(j)
                } else {
                    None
                },
                None => None,
            }
        },
        None => None,
    }
}

/// Whether a pin of `ps` is named `name` (see [`has_pin_named`]).
fn pin_named(ps: &Vec<SymPin>, name: &str) -> (b: bool)
    ensures
        b == has_pin_named(ps@, name@),
{
    let mut k: usize = 0;
    while k < ps.len()
        invariant
            k <= ps@.len(),
            forall|m: int| 0 <= m < k ==> ps@[m].name@ != name@,
        decreases ps@.len() - k,
    {
        if str_eq(ps[k].name.as_str(), name) {
            return true;
        }
        k = k + 1;
    }
    false
}

/// `child` given what it inherits from `parent` (see [`inherit`]).
fn inherit_from(child: &SymbolDef, parent: &SymbolDef) -> (r: SymbolDef)
    ensures
        r@ == inherit(child@, parent@),
{
    let mut pins: Vec<SymPin> = Vec::new();
    let mut k: usize = 0;
    while k < child.pins.len()
        invariant
            k <= child.pins@.len(),
            pins@ == child.pins@.take(k as int),
        decreases child.pins@.len() - k,
    {
        pins.push(copy_pin(&child.pins[k]));
        k = k + 1;
        assert(pins@ =~= child.pins@.take(k as int));
    }
    assert(child.pins@.take(k as int) =~= child.pins@);
    let mut m: usize = 0;
    assert(parent.pins@.take(0) =~= Seq::<SymPin>::empty());
    assert(pins@ =~= child.pins@ + new_pins(child.pins@, parent.pins@.take(0)));
    while m < parent.pins.len()
        invariant
            m <= parent.pins@.len(),
            pins@ == child.pins@ + new_pins(child.pins@, parent.pins@.take(m as int)),
        decreases parent.pins@.len() - m,
    {
        let ghost before = pins@;
        assert(parent.pins@.take(m + 1).drop_last() =~= parent.pins@.take(m as int));
        assert(parent.pins@.take(m + 1).last() == parent.pins@[m as int]);
        if !pin_named(&child.pins, parent.pins[m].name.as_str()) {
            pins.push(copy_pin(&parent.pins[m]));
            assert(pins@ =~= child.pins@ + new_pins(child.pins@, parent.pins@.take(m + 1)));
        }
        m = m + 1;
    }
    assert(parent.pins@.take(m as int) =~= parent.pins@);
    let footprint = if child.footprint.is_none() {
        copy_opt(&parent.footprint)
    } else {
        copy_opt(&child.footprint)
    };
    let datasheet = if child.datasheet.is_none() {
        copy_opt(&parent.datasheet)
    } else {
        copy_opt(&child.datasheet)
    };
    SymbolDef {
        lib_id: child.lib_id.clone(),
        extends: copy_opt(&child.extends),
        pins,
        footprint,
        datasheet,
        raw: copy_sexpr(&child.raw),
    }
}

/// Resolves symbol `i` (see [`resolve_step`]), the chain's length bounded
/// by the symbols not yet on it.
fn resolve_one(syms: &mut Vec<SymbolDef>, done: &mut Vec<bool>, i: usize, visited: &mut Vec<bool>)
    requires
        i < old(syms)@.len(),
        old(done)@.len() == old(syms)@.len(),
        old(visited)@.len() == old(syms)@.len(),
    ensures
        final(syms)@.len() == old(syms)@.len(),
        final(done)@.len() == old(syms)@.len(),
        (defs_view(final(syms)@), final(done)@) == resolve_step(
            defs_view(old(syms)@),
            old(done)@,
            i as int,
            old(visited)@,
            (old(syms)@.len() - count_marked(old(visited)@)) as nat,
        ),
    decreases old(syms)@.len() - count_marked(old(visited)@),
{
    let ghost v0 = defs_view(syms@);
    let ghost n = syms@.len();
    assert(v0.len() == n && n == syms.len());
    proof {
        lemma_count_bound(visited@);
    }
    if done[i] {
        return;
    }
    proof {
        lemma_parent_of(v0, i as int);
    }
    match parent_index(syms, i) {
        None => {
            done.set(i, true);
        },
        Some(j) => {
            if visited[i] {
                done.set(i, true);
                return;
            }
            proof {
                lemma_count_marked(visited@, i as int);
            }
            let ghost vis0 = visited@;
            let ghost d0 = done@;
            let ghost fuel: nat = (n - count_marked(vis0)) as nat;
            visited.set(i, true);
            assert(visited@ == vis0.update(i as int, true));
            assert((n - count_marked(visited@)) as nat == (fuel - 1) as nat);
            resolve_one(syms, done, j, visited);
            let ghost r = resolve_step(v0, d0, j as int, vis0.update(i as int, true), (fuel - 1) as nat);
            assert(!d0[i as int]);
            assert(!vis0[i as int]);
            assert(fuel > 0);
            assert(parent_of(v0, i as int) == Some(j as int));
            assert(defs_view(syms@) == r.0 && done@ == r.1);
            assert(resolve_step(v0, d0, i as int, vis0, fuel) == (
                r.0.update(i as int, inherit(r.0[i as int], r.0[j as int])),
                r.1.update(i as int, true),
            ));
            let ghost v1 = defs_view(syms@);
            assert(v1[i as int] == syms@[i as int]@);
            assert(v1[j as int] == syms@[j as int]@);
            let merged = inherit_from(&syms[i], &syms[j]);
            syms.set(i, merged);
            assert(defs_view(syms@) =~= v1.update(i as int, inherit(v1[i as int], v1[j as int])));
            done.set(i, true);
        },
    }
}

/// `n` marks, all false.
fn marks(n: usize) -> (v: Vec<bool>)
    ensures
        v@ == no_marks(n as nat),
{
    let mut v: Vec<bool> = Vec::new();
    while v.len() < n
        invariant
            v@.len() <= n,
            forall|k: int| 0 <= k < v@.len() ==> !v@[k],
        decreases n - v@.len(),
    {
        v.push(false);
    }
    assert(v@ =~= no_marks(n as nat));
    v
}

/// Resolves every `extends` of a library's symbols (see [`resolve_spec`]):
/// each symbol, in order, inherits the pins, footprint and datasheet of its
/// parent, itself resolved first.
pub fn resolve_extends(syms: &mut Vec<SymbolDef>)
    ensures
        defs_view(final(syms)@) == resolve_spec(defs_view(old(syms)@)),
{
    let ghost v0 = defs_view(syms@);
    let n = syms.len();
    let mut done = marks(n);
    let mut i: usize = 0;
    assert(v0.len() == n);
    while i < n
        invariant
            i <= n,
            n == syms@.len(),
            v0.len() == n,
            done@.len() == n,
            (defs_view(syms@), done@) == resolve_upto(v0, i as nat),
        decreases n - i,
    {
        let mut visited = marks(n);
        proof {
            lemma_count_bound(visited@);
            assert(count_marked(visited@) == 0) by {
                lemma_count_none(visited@);
            }
        }
        resolve_one(syms, &mut done, i, &mut visited);
        i = i + 1;
    }
}

proof fn lemma_count_none(v: Seq<bool>)
    requires
        forall|k: int| 0 <= k < v.len() ==> !v[k],
    ensures
        count_marked(v) == 0,
    decreases v.len(),
{
    if v.len() > 0 {
        lemma_count_none(v.drop_last());
    }
}

/// The first symbol named `lib_id`, its library prefix dropped.
pub fn find_symbol<'a>(symbols: &'a Vec<SymbolDef>, lib_id: &str) -> (r: Option<&'a SymbolDef>)
    ensures
        match first_named(defs_view(symbols@), symbol_name(lib_id@)) {
            Some(k) => r matches Some(d) && *d == symbols@[k],
            None => r is None,
        },
{
    let name = strip_library(lib_id);
    let mut k: usize = 0;
    while k < symbols.len()
        invariant
            k <= symbols@.len(),
            name@ == symbol_name(lib_id@),
            first_named(defs_view(symbols@), name@) == first_named_from(defs_view(symbols@), name@, k as int),
        decreases symbols@.len() - k,
    {
        assert(defs_view(symbols@)[k as int] == symbols@[k as int]@);
        if str_eq(symbols[k].lib_id.as_str(), name.as_str()) {
            return Some(&symbols[k]);
        }
        k = k + 1;
    }
    None
}

/// The index of the first symbol named `name` at or after `k`.
pub open spec fn first_named_from(syms: Seq<SymbolDefView>, name: Seq<char>, k: int) -> Option<int>
    decreases syms.len() - k,
{
    if k < 0 || k >= syms.len() {
        None
    } else if syms[k].lib_id == name {
        Some(k)
    } else {
        first_named_from(syms, name, k + 1)
    }
}

/// The index of the first symbol named `name`.
pub open spec fn first_named(syms: Seq<SymbolDefView>, name: Seq<char>) -> Option<int> {
    first_named_from(syms, name, 0)
}


/// `a` and `b` hold the same symbols by name, parent and node (pins,
/// footprint and datasheet aside).
pub open spec fn same_names(a: Seq<SymbolDefView>, b: Seq<SymbolDefView>) -> bool {
    &&& a.len() == b.len()
    &&& forall|k: int|
        0 <= k < a.len() ==> #[trigger] a[k].lib_id == b[k].lib_id && a[k].extends == b[k].extends && a[k].raw
            == b[k].raw
}

proof fn lemma_index_named_same(a: Seq<SymbolDefView>, b: Seq<SymbolDefView>, name: Seq<char>)
    requires
        same_names(a, b),
    ensures
        index_named(a, name) == index_named(b, name),
    decreases a.len(),
{
    if a.len() > 0 {
        assert(a.last().lib_id == b.last().lib_id);
        assert(same_names(a.drop_last(), b.drop_last())) by {
            assert forall|k: int| 0 <= k < a.len() - 1 implies #[trigger] a.drop_last()[k].lib_id
                == b.drop_last()[k].lib_id && a.drop_last()[k].extends == b.drop_last()[k].extends
                && a.drop_last()[k].raw == b.drop_last()[k].raw by {
                assert(a[k].lib_id == b[k].lib_id);
            }
        }
        lemma_index_named_same(a.drop_last(), b.drop_last(), name);
    }
}

proof fn lemma_parent_of_same(a: Seq<SymbolDefView>, b: Seq<SymbolDefView>, i: int)
    requires
        same_names(a, b),
        0 <= i < a.len(),
    ensures
        parent_of(a, i) == parent_of(b, i),
{
    assert(a[i].lib_id == b[i].lib_id);
    assert(a[i].extends == b[i].extends);
    if let Some(e) = a[i].extends {
        lemma_index_named_same(a, b, symbol_name(e));
    }
}

/// Resolving one symbol keeps every symbol's name, parent and node, and
/// leaves a symbol without a parent as it was.
proof fn lemma_resolve_step_frame(
    syms: Seq<SymbolDefView>,
    done: Seq<bool>,
    i: int,
    visited: Seq<bool>,
    fuel: nat,
)
    requires
        0 <= i < syms.len(),
        done.len() == syms.len(),
        visited.len() == syms.len(),
    ensures
        same_names(syms, resolve_step(syms, done, i, visited, fuel).0),
        resolve_step(syms, done, i, visited, fuel).1.len() == syms.len(),
        forall|k: int|
            0 <= k < syms.len() && parent_of(syms, k) is None ==> #[trigger] resolve_step(
                syms,
                done,
                i,
                visited,
                fuel,
            ).0[k] == syms[k],
    decreases fuel,
{
    if !done[i] {
        if let Some(j) = parent_of(syms, i) {
            lemma_parent_of(syms, i);
            if !(visited[i] || fuel == 0) {
                let r = resolve_step(syms, done, j, visited.update(i, true), (fuel - 1) as nat);
                lemma_resolve_step_frame(syms, done, j, visited.update(i, true), (fuel - 1) as nat);
                let out = r.0.update(i, inherit(r.0[i], r.0[j]));
                assert(same_names(syms, out)) by {
                    assert forall|k: int| 0 <= k < syms.len() implies #[trigger] syms[k].lib_id == out[k].lib_id
                        && syms[k].extends == out[k].extends && syms[k].raw == out[k].raw by {
                        assert(syms[k].lib_id == r.0[k].lib_id);
                    }
                }
                assert forall|k: int| 0 <= k < syms.len() && parent_of(syms, k) is None implies #[trigger] out[k]
                    == syms[k] by {
                    assert(k != i);
                }
            }
        }
    }
}

proof fn lemma_resolve_upto_frame(syms: Seq<SymbolDefView>, n: nat)
    requires
        n <= syms.len(),
    ensures
        same_names(syms, resolve_upto(syms, n).0),
        resolve_upto(syms, n).1.len() == syms.len(),
        forall|k: int|
            0 <= k < syms.len() && parent_of(syms, k) is None ==> #[trigger] resolve_upto(syms, n).0[k]
                == syms[k],
    decreases n,
{
    if n > 0 {
        lemma_resolve_upto_frame(syms, (n - 1) as nat);
        let r = resolve_upto(syms, (n - 1) as nat);
        lemma_resolve_step_frame(r.0, r.1, n - 1, no_marks(syms.len()), syms.len());
        let out = resolve_step(r.0, r.1, n - 1, no_marks(syms.len()), syms.len()).0;
        assert(same_names(syms, out)) by {
            assert forall|k: int| 0 <= k < syms.len() implies #[trigger] syms[k].lib_id == out[k].lib_id
                && syms[k].extends == out[k].extends && syms[k].raw == out[k].raw by {
                assert(syms[k].lib_id == r.0[k].lib_id);
                assert(r.0[k].lib_id == out[k].lib_id);
            }
        }
        assert forall|k: int| 0 <= k < syms.len() && parent_of(syms, k) is None implies #[trigger] out[k]
            == syms[k] by {
            lemma_parent_of_same(syms, r.0, k);
            assert(r.0[k] == syms[k]);
        }
    } else {
        assert(same_names(syms, syms));
    }
}

/// Resolving `extends` keeps the library's symbols, in order, with their
/// names, parents and nodes; and a symbol without a parent in the library
/// (no `extends`, a parent it does not hold, or itself) keeps its pins,
/// footprint and datasheet.
pub proof fn law_resolve_keeps_symbols(syms: Seq<SymbolDefView>)
    ensures
        same_names(syms, resolve_spec(syms)),
        forall|k: int|
            0 <= k < syms.len() && parent_of(syms, k) is None ==> #[trigger] resolve_spec(syms)[k] == syms[k],
{
    lemma_resolve_upto_frame(syms, syms.len());
}


/// Whether following parents from `v`, one step or more (at most `k`),
/// leads to `c`.
pub open spec fn leads_to(syms: Seq<SymbolDefView>, v: int, c: int, k: nat) -> bool
    decreases k,
{
    k > 0 && match parent_of(syms, v) {
        Some(p) => p == c || leads_to(syms, p, c, (k - 1) as nat),
        None => false,
    }
}

proof fn lemma_leads_to_extend(syms: Seq<SymbolDefView>, v: int, z: int, y: int, k: nat)
    requires
        leads_to(syms, v, z, k),
        parent_of(syms, z) == Some(y),
    ensures
        leads_to(syms, v, y, k + 1),
    decreases k,
{
    reveal_with_fuel(leads_to, 2);
    if let Some(p) = parent_of(syms, v) {
        if p != z {
            lemma_leads_to_extend(syms, p, z, y, (k - 1) as nat);
        } else {
            assert(leads_to(syms, z, y, k));
        }
    }
}

/// What holds of a state of the resolution of `orig`: names, parents and
/// nodes kept; a symbol not yet resolved, or without a parent, as it was;
/// and a resolved symbol whose parent has none inheriting from that
/// parent as it was.
pub open spec fn inherit_state(orig: Seq<SymbolDefView>, s: Seq<SymbolDefView>, d: Seq<bool>) -> bool {
    &&& same_names(orig, s)
    &&& d.len() == orig.len()
    &&& forall|k: int| 0 <= k < orig.len() && !d[k] ==> #[trigger] s[k] == orig[k]
    &&& forall|k: int| 0 <= k < orig.len() && parent_of(orig, k) is None ==> #[trigger] s[k] == orig[k]
    &&& forall|k: int|
        0 <= k < orig.len() && d[k] && parent_of(orig, k) is Some && parent_of(orig, parent_of(orig, k)->0)
            is None ==> #[trigger] s[k] == inherit(orig[k], orig[parent_of(orig, k)->0])
}

/// A symbol on the current chain is not inherited into while its parents
/// are resolved; every symbol resolved before stays resolved, and the one
/// resolved is resolved.
proof fn lemma_step_visited(s: Seq<SymbolDefView>, d: Seq<bool>, c: int, vis: Seq<bool>, fuel: nat, x: int)
    requires
        0 <= c < s.len(),
        d.len() == s.len(),
        vis.len() == s.len(),
        0 <= x < s.len(),
    ensures
        vis[x] ==> resolve_step(s, d, c, vis, fuel).0[x] == s[x],
        resolve_step(s, d, c, vis, fuel).1[c],
        d[x] ==> resolve_step(s, d, c, vis, fuel).1[x],
    decreases fuel,
{
    if !d[c] {
        if let Some(j) = parent_of(s, c) {
            lemma_parent_of(s, c);
            if !(vis[c] || fuel == 0) {
                let vis2 = vis.update(c, true);
                lemma_step_visited(s, d, j, vis2, (fuel - 1) as nat, x);
                lemma_step_visited(s, d, j, vis2, (fuel - 1) as nat, c);
                let r = resolve_step(s, d, j, vis2, (fuel - 1) as nat);
                lemma_resolve_step_frame(s, d, j, vis2, (fuel - 1) as nat);
                assert(resolve_step(s, d, c, vis, fuel) == (
                    r.0.update(c, inherit(r.0[c], r.0[j])),
                    r.1.update(c, true),
                ));
                if vis[x] {
                    assert(x != c);
                    assert(vis2[x]);
                }
            }
        }
    }
}

/// Each step of the resolution keeps [`inherit_state`], when every symbol
/// on the chain leads to the current one and the fuel is what the chain
/// has left.
proof fn lemma_step_inherits(
    orig: Seq<SymbolDefView>,
    s: Seq<SymbolDefView>,
    d: Seq<bool>,
    c: int,
    vis: Seq<bool>,
    fuel: nat,
)
    requires
        inherit_state(orig, s, d),
        0 <= c < orig.len(),
        vis.len() == orig.len(),
        fuel == orig.len() - count_marked(vis),
        forall|v: int| 0 <= v < orig.len() && #[trigger] vis[v] ==> exists|k: nat| leads_to(orig, v, c, k),
    ensures
        inherit_state(orig, resolve_step(s, d, c, vis, fuel).0, resolve_step(s, d, c, vis, fuel).1),
    decreases fuel,
{
    let n = orig.len();
    lemma_count_bound(vis);
    lemma_resolve_step_frame(s, d, c, vis, fuel);
    lemma_parent_of_same(orig, s, c);
    if !d[c] {
        if let Some(j) = parent_of(s, c) {
            lemma_parent_of(s, c);
            if vis[c] {
                let k = choose|k: nat| leads_to(orig, c, c, k);
                assert(leads_to(orig, c, c, k));
                reveal_with_fuel(leads_to, 2);
                assert(parent_of(orig, c) == Some(j));
                assert(leads_to(orig, j, c, (k - 1) as nat));
                assert(parent_of(orig, j) is Some);
            } else {
                lemma_count_marked(vis, c);
                assert(fuel > 0);
                let vis2 = vis.update(c, true);
                assert forall|v: int| 0 <= v < n && #[trigger] vis2[v] implies exists|k: nat|
                    leads_to(orig, v, j, k) by {
                    if v == c {
                        assert(leads_to(orig, c, j, 1));
                    } else {
                        assert(vis[v]);
                        let k = choose|k: nat| leads_to(orig, v, c, k);
                        lemma_leads_to_extend(orig, v, c, j, k);
                    }
                }
                lemma_step_inherits(orig, s, d, j, vis2, (fuel - 1) as nat);
                lemma_step_visited(s, d, j, vis2, (fuel - 1) as nat, c);
                let r = resolve_step(s, d, j, vis2, (fuel - 1) as nat);
                lemma_parent_of(orig, c);
                assert(r.0[c] == s[c]);
                assert(s[c] == orig[c]);
                let out = r.0.update(c, inherit(r.0[c], r.0[j]));
                let dout = r.1.update(c, true);
                assert(same_names(orig, out)) by {
                    assert forall|k: int| 0 <= k < n implies #[trigger] orig[k].lib_id == out[k].lib_id
                        && orig[k].extends == out[k].extends && orig[k].raw == out[k].raw by {
                        assert(orig[k].lib_id == r.0[k].lib_id);
                    }
                }
                if parent_of(orig, j) is None {
                    assert(r.0[j] == orig[j]);
                }
                assert forall|k: int| 0 <= k < n && parent_of(orig, k) is None implies #[trigger] out[k]
                    == orig[k] by {
                    assert(k != c);
                }
                assert forall|k: int| 0 <= k < n && !dout[k] implies #[trigger] out[k] == orig[k] by {
                    assert(k != c);
                }
            }
        }
    }
}


proof fn lemma_upto_inherits(orig: Seq<SymbolDefView>, k: nat)
    requires
        k <= orig.len(),
    ensures
        inherit_state(orig, resolve_upto(orig, k).0, resolve_upto(orig, k).1),
        forall|m: int| 0 <= m < k ==> #[trigger] resolve_upto(orig, k).1[m],
    decreases k,
{
    let n = orig.len();
    if k == 0 {
        assert(same_names(orig, orig));
    } else {
        lemma_upto_inherits(orig, (k - 1) as nat);
        let r = resolve_upto(orig, (k - 1) as nat);
        let vis = no_marks(n);
        lemma_count_none(vis);
        lemma_step_inherits(orig, r.0, r.1, k - 1, vis, n);
        assert forall|m: int| 0 <= m < k implies #[trigger] resolve_upto(orig, k).1[m] by {
            lemma_step_visited(r.0, r.1, k - 1, vis, n, m);
        }
    }
}

/// A symbol whose parent has no parent of its own inherits from that
/// parent: the parent's pins under names it lacks, after its own, and the
/// parent's footprint and datasheet where it has none.
pub proof fn law_resolve_inherits_from_parent(syms: Seq<SymbolDefView>, i: int)
    requires
        0 <= i < syms.len(),
        parent_of(syms, i) is Some,
        parent_of(syms, parent_of(syms, i)->0) is None,
    ensures
        resolve_spec(syms)[i] == inherit(syms[i], syms[parent_of(syms, i)->0]),
{
    lemma_upto_inherits(syms, syms.len());
    assert(resolve_upto(syms, syms.len()).1[i]);
}


/// Whether no short pin stands where the body of `node` is read (see
/// [`node_pins_complete`]).
fn node_pins_ok(node: &Sexpr) -> (b: bool)
    ensures
        b == node_pins_complete(node@),
    decreases node, 1nat,
{
    match node {
        Sexpr::List(cs) => {
            proof {
                lemma_view_all(cs@);
            }
            if is_headed(node, "pin") && cs.len() == 2 {
                return false;
            }
            if is_headed(node, "symbol") && cs.len() > 2 {
                pins_ok_from(node, 2)
            } else {
                true
            }
        },
        _ => true,
    }
}

/// Whether no short pin stands among the children of `node` from `start`
/// on (see [`pins_complete_from`]).
fn pins_ok_from(node: &Sexpr, start: usize) -> (b: bool)
    ensures
        b == pins_complete_from(node@, start as int),
    decreases node, 0nat,
{
    match node {
        Sexpr::List(cs) => {
            proof {
                lemma_view_all(cs@);
            }
            let ghost ts = view_all(cs@);
            if start >= cs.len() {
                return true;
            }
            let mut i: usize = start;
            while i < cs.len()
                invariant
                    start <= i <= cs@.len(),
                    *node == Sexpr::List(*cs),
                    ts == view_all(cs@),
                    ts.len() == cs@.len(),
                    forall|k: int| 0 <= k < cs@.len() ==> #[trigger] ts[k] == cs@[k]@,
                    pins_complete_from(node@, start as int) == pins_complete_from(node@, i as int),
                decreases cs@.len() - i,
            {
                if !node_pins_ok(&cs[i]) {
                    return false;
                }
                i = i + 1;
            }
            true
        },
        _ => true,
    }
}

/// Whether the body of the symbol `node` declares, if any, holds no short
/// pin: what [`read_symbol`] asks of its node.
pub fn symbol_pins_complete(node: &Sexpr) -> (b: bool)
    ensures
        b == (symbol_of(node@) is Some ==> pins_complete_from(node@, 2)),
{
    match node {
        Sexpr::List(cs) => {
            proof {
                lemma_view_all(cs@);
            }
            if is_headed(node, "symbol") && cs.len() >= 2 {
                pins_ok_from(node, 2)
            } else {
                true
            }
        },
        _ => true,
    }
}

/// Whether no symbol of the parsed library `tree` holds a short pin: what
/// [`read_symbol_texts`] asks of its text's tree.
pub fn library_pins_ok(tree: &Sexpr) -> (b: bool)
    ensures
        b == library_pins_complete(tree@),
{
    match tree {
        Sexpr::List(nodes) => {
            proof {
                lemma_view_all(nodes@);
            }
            let ghost ts = view_all(nodes@);
            let mut i: usize = 0;
            while i < nodes.len()
                invariant
                    i <= nodes@.len(),
                    *tree == Sexpr::List(*nodes),
                    ts == view_all(nodes@),
                    ts.len() == nodes@.len(),
                    forall|k: int| 0 <= k < nodes@.len() ==> #[trigger] ts[k] == nodes@[k]@,
                    forall|k: int| 0 <= k < i && symbol_of(#[trigger] ts[k]) is Some ==> pins_complete_from(ts[k], 2),
                decreases nodes@.len() - i,
            {
                if !symbol_pins_complete(&nodes[i]) {
                    assert(symbol_of(ts[i as int]) is Some);
                    return false;
                }
                i = i + 1;
            }
            true
        },
        _ => true,
    }
}

} // verus!
