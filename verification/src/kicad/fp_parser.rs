//! The KiCad footprint reader: a footprint's pads, each with the texts of
//! its numbers for the caller to read, and its 3D model (the path of the
//! first `(model <path> …)` node, depth first).

use vstd::prelude::*;

use crate::kicad::sexpr::{as_string_spec, lemma_view_all, lemma_view_all_push, parse, parse_spec, view_all, ParseError, Sexpr};
use crate::kicad::sym_lib::{headed, is_headed};
use crate::text::{push_char, push_str};
use crate::text::str_eq;
use crate::tree::Tree;

verus! {

/// The model path in a tree: a list headed by the atom `model` with a
/// second element gives that element, unquoted; any other list gives the
/// first model path among its children; a leaf gives none.
pub open spec fn model_path_spec(t: Tree) -> Option<Seq<char>>
    decreases t,
{
    match t {
        Tree::List(cs) => if cs.len() >= 2 && cs[0] == Tree::Atom("model"@) {
            Some(as_string_spec(cs[1]))
        } else {
            model_path_in(cs)
        },
        _ => None,
    }
}

/// The first model path among `cs`, in order.
pub open spec fn model_path_in(cs: Seq<Tree>) -> Option<Seq<char>>
    decreases cs,
{
    if cs.len() == 0 {
        None
    } else {
        match model_path_in(cs.drop_last()) {
            Some(p) => Some(p),
            None => model_path_spec(cs.last()),
        }
    }
}

proof fn lemma_model_path_prefix(cs: Seq<Tree>, j: int)
    requires
        0 <= j <= cs.len(),
        model_path_in(cs.take(j)) is Some,
    ensures
        model_path_in(cs) == model_path_in(cs.take(j)),
    decreases cs.len(),
{
    if j < cs.len() {
        assert(cs.drop_last().take(j) =~= cs.take(j));
        lemma_model_path_prefix(cs.drop_last(), j);
    } else {
        assert(cs.take(j) =~= cs);
    }
}

/// Walk an S-expression looking for a `(model <path> …)` node and return
/// the model path (see [`model_path_spec`]).
pub fn extract_model_path(node: &Sexpr) -> (r: Option<String>)
    ensures
        match model_path_spec(node@) {
            Some(p) => r matches Some(s) && s@ == p,
            None => r is None,
        },
    decreases node,
{
    match node {
        Sexpr::List(children) => {
            proof {
                lemma_view_all(children@);
            }
            let ghost cs = view_all(children@);
            if children.len() >= 2 {
                if let Sexpr::Atom(head) = &children[0] {
                    if str_eq(head.as_str(), "model") {
                        return Some(children[1].as_string());
                    }
                }
            }
            assert(model_path_spec(node@) == model_path_in(cs));
            let mut i: usize = 0;
            assert(cs.take(0) =~= Seq::<Tree>::empty());
            while i < children.len()
                invariant
                    i <= children@.len(),
                    *node == Sexpr::List(*children),
                    cs == view_all(children@),
                    cs.len() == children@.len(),
                    forall|k: int| 0 <= k < children@.len() ==> #[trigger] cs[k] == children@[k]@,
                    model_path_spec(node@) == model_path_in(cs),
                    model_path_in(cs.take(i as int)) is None,
                decreases children@.len() - i,
            {
                let child = &children[i];
                assert(*child == children@[i as int]);
                assert(cs.take(i + 1).drop_last() =~= cs.take(i as int));
                assert(cs.take(i + 1).last() == child@);
                if let Some(p) = extract_model_path(child) {
                    proof {
                        lemma_model_path_prefix(cs, i + 1);
                    }
                    return Some(p);
                }
                i = i + 1;
            }
            assert(cs.take(i as int) =~= cs);
            None
        },
        _ => None,
    }
}

/// The 3D model path of a `.kicad_mod` footprint's text `source`: the
/// first model path in it (see [`model_path_spec`]), or the error of its
/// parse.
pub fn parse_footprint_model(source: &str) -> (r: Result<Option<String>, ParseError>)
    ensures
        match parse_spec(source@) {
            Ok(t) => r matches Ok(m) && match model_path_spec(t) {
                Some(p) => m matches Some(s) && s@ == p,
                None => m is None,
            },
            Err(e) => r == Err::<Option<String>, ParseError>(e),
        },
{
    match parse(source) {
        Ok(sexpr) => Ok(extract_model_path(&sexpr)),
        Err(e) => Err(e),
    }
}


/// A pad of a footprint as the file writes it. Every `(at x y [angle])`
/// and `(size w h)` entry is kept, in order: the last one gives the value,
/// and each must hold numbers for the pad to count. Of the
/// `roundrect_rratio`, `solder_mask_margin` and `drill` entries with a
/// value, the last one's text is kept (a text that is not a number gives
/// no value).
pub struct PadText {
    pub number: String,
    pub pad_type: String,
    pub shape: String,
    pub ats: Vec<(String, String, Option<String>)>,
    pub sizes: Vec<(String, String)>,
    pub roundrect_rratio: Option<String>,
    pub solder_mask_margin: Option<String>,
    pub layers: String,
    pub drill: Option<String>,
}

/// A pad as a mathematical value.
pub struct PadTextView {
    pub number: Seq<char>,
    pub pad_type: Seq<char>,
    pub shape: Seq<char>,
    pub ats: Seq<(Seq<char>, Seq<char>, Option<Seq<char>>)>,
    pub sizes: Seq<(Seq<char>, Seq<char>)>,
    pub roundrect_rratio: Option<Seq<char>>,
    pub solder_mask_margin: Option<Seq<char>>,
    pub layers: Seq<char>,
    pub drill: Option<Seq<char>>,
}

/// The texts of an `at` entry.
pub open spec fn at_view(t: (String, String, Option<String>)) -> (Seq<char>, Seq<char>, Option<Seq<char>>) {
    (t.0@, t.1@, match t.2 {
        Some(r) => Some(r@),
        None => None,
    })
}

/// The texts of a `size` entry.
pub open spec fn size_view(t: (String, String)) -> (Seq<char>, Seq<char>) {
    (t.0@, t.1@)
}

/// An optional text as a mathematical value.
pub open spec fn opt_text(o: Option<String>) -> Option<Seq<char>> {
    match o {
        Some(s) => Some(s@),
        None => None,
    }
}

impl View for PadText {
    type V = PadTextView;

    open spec fn view(&self) -> PadTextView {
        PadTextView {
            number: self.number@,
            pad_type: self.pad_type@,
            shape: self.shape@,
            ats: self.ats@.map_values(|t: (String, String, Option<String>)| at_view(t)),
            sizes: self.sizes@.map_values(|t: (String, String)| size_view(t)),
            roundrect_rratio: opt_text(self.roundrect_rratio),
            solder_mask_margin: opt_text(self.solder_mask_margin),
            layers: self.layers@,
            drill: opt_text(self.drill),
        }
    }
}

/// The unquoted texts of `ts`, each followed by a space but the last.
pub open spec fn joined(ts: Seq<Tree>) -> Seq<char>
    decreases ts.len(),
{
    if ts.len() == 0 {
        Seq::empty()
    } else if ts.len() == 1 {
        as_string_spec(ts[0])
    } else {
        joined(ts.drop_last()) + seq![' '] + as_string_spec(ts.last())
    }
}

/// One entry of a pad read into `p`: `(at x y [angle])` and `(size w h)`
/// are added (`None` when one lacks a number, which drops the pad); the
/// value of `(roundrect_rratio r)`, `(solder_mask_margin m)` and
/// `(drill d)` replaces the one before; `(layers …)` gives the layers.
pub open spec fn pad_entry(p: PadTextView, e: Tree) -> Option<PadTextView> {
    match e {
        Tree::List(ps) => if headed(e, "at"@) {
            if ps.len() >= 3 {
                Some(PadTextView {
                    ats: p.ats.push((as_string_spec(ps[1]), as_string_spec(ps[2]), if ps.len() >= 4 {
                        Some(as_string_spec(ps[3]))
                    } else {
                        None
                    })),
                    ..p
                })
            } else {
                None
            }
        } else if headed(e, "size"@) {
            if ps.len() >= 3 {
                Some(PadTextView { sizes: p.sizes.push((as_string_spec(ps[1]), as_string_spec(ps[2]))), ..p })
            } else {
                None
            }
        } else if headed(e, "roundrect_rratio"@) {
            if ps.len() >= 2 {
                Some(PadTextView { roundrect_rratio: Some(as_string_spec(ps[1])), ..p })
            } else {
                Some(p)
            }
        } else if headed(e, "solder_mask_margin"@) {
            if ps.len() >= 2 {
                Some(PadTextView { solder_mask_margin: Some(as_string_spec(ps[1])), ..p })
            } else {
                Some(p)
            }
        } else if headed(e, "layers"@) {
            Some(PadTextView { layers: joined(ps.skip(1)), ..p })
        } else if headed(e, "drill"@) {
            if ps.len() >= 2 {
                Some(PadTextView { drill: Some(as_string_spec(ps[1])), ..p })
            } else {
                Some(p)
            }
        } else {
            Some(p)
        },
        _ => Some(p),
    }
}

/// A pad's entries read in order, from its number, type and shape.
pub open spec fn pad_entries(start: PadTextView, es: Seq<Tree>) -> Option<PadTextView>
    decreases es.len(),
{
    if es.len() == 0 {
        Some(start)
    } else {
        match pad_entries(start, es.drop_last()) {
            Some(p) => pad_entry(p, es.last()),
            None => None,
        }
    }
}

/// The pad a node declares: `(pad <number> <type> <shape> <entry>…)`,
/// whose entries all read (see [`pad_entry`]).
pub open spec fn pad_of(t: Tree) -> Option<PadTextView> {
    match t {
        Tree::List(cs) => if headed(t, "pad"@) && cs.len() >= 4 {
            pad_entries(
                PadTextView {
                    number: as_string_spec(cs[1]),
                    pad_type: as_string_spec(cs[2]),
                    shape: as_string_spec(cs[3]),
                    ats: Seq::empty(),
                    sizes: Seq::empty(),
                    roundrect_rratio: None,
                    solder_mask_margin: None,
                    layers: Seq::empty(),
                    drill: None,
                },
                cs.skip(4),
            )
        } else {
            None
        },
        _ => None,
    }
}

/// The pads of a tree, in pre-order: a list's own pad, then those of its
/// children in order.
pub open spec fn pads_of(t: Tree) -> Seq<PadTextView>
    decreases t, 1nat,
{
    match t {
        Tree::List(cs) => (match pad_of(t) {
            Some(p) => seq![p],
            None => Seq::empty(),
        }) + pads_in(t, cs.len() as int),
        _ => Seq::empty(),
    }
}

/// The pads of the first `n` children of the list `t`.
pub open spec fn pads_in(t: Tree, n: int) -> Seq<PadTextView>
    decreases t, 0nat, n,
{
    match t {
        Tree::List(cs) => if 0 < n <= cs.len() {
            pads_in(t, n - 1) + pads_of(cs[n - 1])
        } else {
            Seq::empty()
        },
        _ => Seq::empty(),
    }
}


proof fn lemma_pad_entries_fail(start: PadTextView, ts: Seq<Tree>, lo: int, j: int)
    requires
        0 <= lo <= j <= ts.len(),
        pad_entries(start, ts.subrange(lo, j)) is None,
    ensures
        pad_entries(start, ts.subrange(lo, ts.len() as int)) is None,
    decreases ts.len() - j,
{
    if j < ts.len() {
        assert(ts.subrange(lo, j + 1).drop_last() =~= ts.subrange(lo, j));
        lemma_pad_entries_fail(start, ts, lo, j + 1);
    }
}

/// The unquoted texts of the children of `ps` from the second on, joined
/// by spaces (see [`joined`]).
fn join_layers(ps: &Vec<Sexpr>) -> (r: String)
    requires
        ps@.len() >= 1,
    ensures
        r@ == joined(view_all(ps@).skip(1)),
{
    proof {
        lemma_view_all(ps@);
    }
    let ghost ts = view_all(ps@);
    let mut out = String::new();
    let mut k: usize = 1;
    assert(ts.subrange(1, 1) =~= Seq::<Tree>::empty());
    while k < ps.len()
        invariant
            1 <= k <= ps@.len(),
            ts == view_all(ps@),
            ts.len() == ps@.len(),
            forall|m: int| 0 <= m < ps@.len() ==> #[trigger] ts[m] == ps@[m]@,
            out@ == joined(ts.subrange(1, k as int)),
        decreases ps@.len() - k,
    {
        let ghost sub = ts.subrange(1, k + 1);
        assert(sub.drop_last() =~= ts.subrange(1, k as int));
        assert(sub.last() == ps@[k as int]@);
        if k > 1 {
            push_char(&mut out, ' ');
        }
        let t = ps[k].as_string();
        push_str(&mut out, t.as_str());
        proof {
            if k == 1 {
                assert(sub.len() == 1);
                assert(sub[0] == ps@[1]@);
            }
        }
        assert(out@ =~= joined(sub));
        k = k + 1;
    }
    assert(ts.subrange(1, ps@.len() as int) =~= ts.skip(1));
    out
}

/// Reads the pad that `node` declares (see [`pad_of`]).
pub fn read_pad(node: &Sexpr) -> (r: Option<PadText>)
    ensures
        match pad_of(node@) {
            Some(p) => r matches Some(q) && q@ == p,
            None => r is None,
        },
{
    if !is_headed(node, "pad") {
        return None;
    }
    let cs = match node {
        Sexpr::List(cs) => cs,
        _ => {
            return None;
        },
    };
    proof {
        lemma_view_all(cs@);
    }
    let ghost ts = view_all(cs@);
    if cs.len() < 4 {
        return None;
    }
    let mut pad = PadText {
        number: cs[1].as_string(),
        pad_type: cs[2].as_string(),
        shape: cs[3].as_string(),
        ats: Vec::new(),
        sizes: Vec::new(),
        roundrect_rratio: None,
        solder_mask_margin: None,
        layers: String::new(),
        drill: None,
    };
    let ghost start = pad@;
    let mut i: usize = 4;
    proof {
        assert(ts.subrange(4, 4) =~= Seq::<Tree>::empty());
        assert(pad@.ats =~= Seq::empty());
        assert(pad@.sizes =~= Seq::empty());
        assert(pad@.layers =~= Seq::<char>::empty());
    }
    while i < cs.len()
        invariant
            4 <= i <= cs@.len(),
            *node == Sexpr::List(*cs),
            ts == view_all(cs@),
            ts.len() == cs@.len(),
            forall|k: int| 0 <= k < cs@.len() ==> #[trigger] ts[k] == cs@[k]@,
            headed(node@, "pad"@),
            start == (PadTextView {
                number: as_string_spec(ts[1]),
                pad_type: as_string_spec(ts[2]),
                shape: as_string_spec(ts[3]),
                ats: Seq::empty(),
                sizes: Seq::empty(),
                roundrect_rratio: None,
                solder_mask_margin: None,
                layers: Seq::empty(),
                drill: None,
            }),
            pad_entries(start, ts.subrange(4, i as int)) == Some(pad@),
        decreases cs@.len() - i,
    {
        let e = &cs[i];
        assert(ts.subrange(4, i + 1).drop_last() =~= ts.subrange(4, i as int));
        assert(ts.subrange(4, i + 1).last() == e@);
        let ghost p0 = pad@;
        let ghost ats0 = pad.ats@;
        let ghost sizes0 = pad.sizes@;
        if let Sexpr::List(ps) = e {
            proof {
                lemma_view_all(ps@);
            }
            if is_headed(e, "at") {
                if ps.len() < 3 {
                    proof {
                        lemma_pad_entries_fail(start, ts, 4, i + 1);
                        assert(ts.subrange(4, ts.len() as int) =~= ts.skip(4));
                    }
                    return None;
                }
                let r = if ps.len() >= 4 { Some(ps[3].as_string()) } else { None };
                pad.ats.push((ps[1].as_string(), ps[2].as_string(), r));
                assert(pad.ats@.map_values(|t: (String, String, Option<String>)| at_view(t)) =~= ats0.map_values(
                    |t: (String, String, Option<String>)| at_view(t),
                ).push(at_view(pad.ats@.last())));
            } else if is_headed(e, "size") {
                if ps.len() < 3 {
                    proof {
                        lemma_pad_entries_fail(start, ts, 4, i + 1);
                        assert(ts.subrange(4, ts.len() as int) =~= ts.skip(4));
                    }
                    return None;
                }
                pad.sizes.push((ps[1].as_string(), ps[2].as_string()));
                assert(pad.sizes@.map_values(|t: (String, String)| size_view(t)) =~= sizes0.map_values(
                    |t: (String, String)| size_view(t),
                ).push(size_view(pad.sizes@.last())));
            } else if is_headed(e, "roundrect_rratio") {
                if ps.len() >= 2 {
                    pad.roundrect_rratio = Some(ps[1].as_string());
                }
            } else if is_headed(e, "solder_mask_margin") {
                if ps.len() >= 2 {
                    pad.solder_mask_margin = Some(ps[1].as_string());
                }
            } else if is_headed(e, "layers") {
                pad.layers = join_layers(ps);
            } else if is_headed(e, "drill") {
                if ps.len() >= 2 {
                    pad.drill = Some(ps[1].as_string());
                }
            }
        }
        assert(pad_entries(start, ts.subrange(4, i + 1)) == Some(pad@));
        i = i + 1;
    }
    assert(ts.subrange(4, cs@.len() as int) =~= ts.skip(4));
    Some(pad)
}


/// The models of a sequence of pads.
pub open spec fn pads_view(v: Seq<PadText>) -> Seq<PadTextView> {
    v.map_values(|p: PadText| p@)
}

/// Adds the pads of `node`, in pre-order (see [`pads_of`]).
fn collect_pads(node: &Sexpr, pads: &mut Vec<PadText>)
    ensures
        pads_view(final(pads)@) == pads_view(old(pads)@) + pads_of(node@),
    decreases node@,
{
    match node {
        Sexpr::List(cs) => {
            proof {
                lemma_view_all(cs@);
            }
            let ghost ts = view_all(cs@);
            let ghost p0 = pads_view(pads@);
            let ghost own: Seq<PadTextView> = match pad_of(node@) {
                Some(p) => seq![p],
                None => Seq::empty(),
            };
            match read_pad(node) {
                Some(p) => {
                    pads.push(p);
                    assert(pads_view(pads@) =~= p0 + own);
                },
                None => {
                    assert(pads_view(pads@) =~= p0 + own);
                },
            }
            let mut i: usize = 0;
            assert(pads_in(node@, 0) =~= Seq::<PadTextView>::empty());
            assert(pads_view(pads@) =~= p0 + own + pads_in(node@, 0));
            while i < cs.len()
                invariant
                    i <= cs@.len(),
                    *node == Sexpr::List(*cs),
                    ts == view_all(cs@),
                    ts.len() == cs@.len(),
                    forall|k: int| 0 <= k < cs@.len() ==> #[trigger] ts[k] == cs@[k]@,
                    node@ == Tree::List(ts),
                    pads_view(pads@) == p0 + own + pads_in(node@, i as int),
                decreases cs@.len() - i,
            {
                proof {
                    assert(decreases_to!(node@ => node@->List_0));
                    assert(decreases_to!(ts => ts[i as int]));
                }
                let ghost before = pads_view(pads@);
                collect_pads(&cs[i], pads);
                assert(pads_in(node@, i + 1) == pads_in(node@, i as int) + pads_of(ts[i as int]));
                assert(pads_view(pads@) =~= p0 + own + pads_in(node@, i + 1));
                i = i + 1;
            }
            assert(pads_of(node@) == own + pads_in(node@, ts.len() as int));
            assert(pads_view(pads@) =~= p0 + pads_of(node@));
        },
        _ => {
            assert(pads_view(pads@) =~= pads_view(pads@) + Seq::<PadTextView>::empty());
        },
    }
}

/// The pads of a `.kicad_mod` footprint's text `source`, in pre-order (see
/// [`pads_of`]), or the error of its parse.
pub fn read_footprint_pads(source: &str) -> (r: Result<Vec<PadText>, ParseError>)
    ensures
        match parse_spec(source@) {
            Ok(t) => r matches Ok(v) && pads_view(v@) == pads_of(t),
            Err(e) => r == Err::<Vec<PadText>, ParseError>(e),
        },
{
    let sexpr = match parse(source) {
        Ok(e) => e,
        Err(e) => {
            return Err(e);
        },
    };
    let mut pads: Vec<PadText> = Vec::new();
    assert(pads_view(pads@) =~= Seq::<PadTextView>::empty());
    collect_pads(&sexpr, &mut pads);
    assert(Seq::<PadTextView>::empty() + pads_of(sexpr@) =~= pads_of(sexpr@));
    Ok(pads)
}

} // verus!
