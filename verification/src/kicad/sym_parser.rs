//! The part of the KiCad symbol library reader that names the symbols: the
//! `lib_id` of each top-level `(symbol "NAME" …)` node, in file order.

use vstd::prelude::*;

use crate::kicad::sexpr::{as_string_spec, lemma_view_all, parse, parse_spec, ParseError, Sexpr};
use crate::text::str_eq;
use crate::tree::Tree;

verus! {

/// The `lib_id` a node declares when it is a symbol definition: a list
/// whose head is the atom `symbol` and that has a second element, whose
/// unquoted text is the name.
pub open spec fn symbol_id_of(t: Tree) -> Option<Seq<char>> {
    match t {
        Tree::List(cs) => if cs.len() >= 2 && cs[0] == Tree::Atom("symbol"@) {
            Some(as_string_spec(cs[1]))
        } else {
            None
        },
        _ => None,
    }
}

/// The `lib_id`s of the symbol definitions among `nodes`, in order.
pub open spec fn symbol_ids(nodes: Seq<Tree>) -> Seq<Seq<char>>
    decreases nodes.len(),
{
    if nodes.len() == 0 {
        Seq::empty()
    } else {
        let rest = symbol_ids(nodes.drop_last());
        match symbol_id_of(nodes.last()) {
            Some(id) => rest.push(id),
            None => rest,
        }
    }
}

/// The `lib_id`s of a parsed symbol library: those of the symbol
/// definitions directly under its top-level list (none for an atom).
pub open spec fn lib_ids_spec(t: Tree) -> Seq<Seq<char>> {
    match t {
        Tree::List(nodes) => symbol_ids(nodes),
        _ => Seq::empty(),
    }
}

/// The `lib_id`s of the symbols of the library text `source` (see
/// [`lib_ids_spec`]), or the error of its parse.
pub fn symbol_lib_ids(source: &str) -> (r: Result<Vec<String>, ParseError>)
    ensures
        match parse_spec(source@) {
            Ok(t) => r matches Ok(ids) && ids@.map_values(|s: String| s@) == lib_ids_spec(t),
            Err(e) => r == Err::<Vec<String>, ParseError>(e),
        },
{
    let expr = match parse(source) {
        Ok(e) => e,
        Err(e) => {
            return Err(e);
        },
    };
    let mut ids: Vec<String> = Vec::new();
    if let Sexpr::List(nodes) = &expr {
        proof {
            lemma_view_all(nodes@);
        }
        let ghost ts = expr@->List_0;
        let mut i: usize = 0;
        while i < nodes.len()
            invariant
                i <= nodes@.len(),
                ts.len() == nodes@.len(),
                forall|k: int| 0 <= k < nodes@.len() ==> #[trigger] ts[k] == nodes@[k]@,
                ids@.map_values(|s: String| s@) == symbol_ids(ts.take(i as int)),
            decreases nodes@.len() - i,
        {
            let ghost before = ids@;
            assert(ts.take(i + 1).drop_last() =~= ts.take(i as int));
            assert(ts.take(i + 1).last() == nodes@[i as int]@);
            let mut found: bool = false;
            if let Sexpr::List(cs) = &nodes[i] {
                proof {
                    lemma_view_all(cs@);
                }
                if cs.len() >= 2 {
                    if let Sexpr::Atom(head) = &cs[0] {
                        if str_eq(head.as_str(), "symbol") {
                            ids.push(cs[1].as_string());
                            found = true;
                        }
                    }
                }
            }
            assert(ids@.map_values(|s: String| s@) =~= symbol_ids(ts.take(i + 1))) by {
                if found {
                    assert(ids@ == before.push(ids@.last()));
                    assert(ids@.map_values(|s: String| s@) =~= before.map_values(|s: String| s@).push(ids@.last()@));
                } else {
                    assert(ids@ == before);
                }
            }
            i = i + 1;
        }
        assert(ts.take(i as int) =~= ts);
    }
    Ok(ids)
}

} // verus!
