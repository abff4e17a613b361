//! KiCad library tables of the project.

use vstd::prelude::*;

use crate::kicad::sexpr::{kv, kv_t, lemma_view_all, push_node, str_t, tagged, view_all, Sexpr};
use crate::text::{push_char, push_str};
use crate::tree::{render, Tree};

verus! {

broadcast use vstd::string::group_string_axioms;

/// One `(lib …)` entry of a library table.
pub open spec fn lib_entry_tree(nick: Seq<char>, uri: Seq<char>) -> Tree {
    Tree::List(
        seq![
            Tree::Atom("lib"@),
            kv_t("name"@, nick),
            kv_t("type"@, "KiCad"@),
            kv_t("uri"@, uri),
            kv_t("options"@, ""@),
            kv_t("descr"@, ""@),
        ],
    )
}

fn lib_entry(nick: &str, uri: &str) -> (r: Sexpr)
    ensures
        r@ == lib_entry_tree(nick@, uri@),
{
    let mut v: Vec<Sexpr> = Vec::new();
    push_node(&mut v, kv("name", nick));
    push_node(&mut v, kv("type", "KiCad"));
    push_node(&mut v, kv("uri", uri));
    push_node(&mut v, kv("options", ""));
    push_node(&mut v, kv("descr", ""));
    let r = tagged("lib", v);
    assert(r@ == lib_entry_tree(nick@, uri@)) by {
        assert(view_all(v@) =~= seq![
            kv_t("name"@, nick@),
            kv_t("type"@, "KiCad"@),
            kv_t("uri"@, uri@),
            kv_t("options"@, ""@),
            kv_t("descr"@, ""@),
        ]);
        assert(seq![Tree::Atom("lib"@)] + view_all(v@) =~= seq![
            Tree::Atom("lib"@),
            kv_t("name"@, nick@),
            kv_t("type"@, "KiCad"@),
            kv_t("uri"@, uri@),
            kv_t("options"@, ""@),
            kv_t("descr"@, ""@),
        ]);
    }
    r
}

/// The `fp-lib-table` of a project-local footprint library.
pub open spec fn fp_lib_table_tree(nick: Seq<char>) -> Tree {
    Tree::List(seq![Tree::Atom("fp_lib_table"@), lib_entry_tree(nick, "${KIPRJMOD}/footprints"@)])
}

/// Build a `fp-lib-table` S-expression file registering the project-specific
/// footprint library.  A KiCad footprint library is a **directory** of
/// `.kicad_mod` files, so the URI points at `footprints/`.
pub fn emit_fp_lib_table(lib_nick: &str) -> (r: String)
    ensures
        r@ == render(fp_lib_table_tree(lib_nick@), 0) + seq!['\n'],
{
    let mut v: Vec<Sexpr> = Vec::new();
    push_node(&mut v, lib_entry(lib_nick, "${KIPRJMOD}/footprints"));
    let table = tagged("fp_lib_table", v);
    assert(table@ == fp_lib_table_tree(lib_nick@)) by {
        assert(seq![Tree::Atom("fp_lib_table"@)] + view_all(v@) =~= seq![
            Tree::Atom("fp_lib_table"@),
            lib_entry_tree(lib_nick@, "${KIPRJMOD}/footprints"@),
        ]);
    }
    let mut out = table.to_string();
    push_char(&mut out, '\n');
    out
}

/// The URI of a project symbol library.
pub open spec fn sym_lib_uri(nick: Seq<char>) -> Seq<char> {
    "${KIPRJMOD}/symbols/"@ + nick + ".kicad_sym"@
}

/// The `sym-lib-table` registering the given symbol libraries, in order.
pub open spec fn sym_lib_table_tree(nicks: Seq<Seq<char>>) -> Tree {
    Tree::List(
        seq![Tree::Atom("sym_lib_table"@)] + nicks.map_values(
            |n: Seq<char>| lib_entry_tree(n, sym_lib_uri(n)),
        ),
    )
}

/// Build a `sym-lib-table` registering one `symbols/<nick>.kicad_sym`
/// library per nickname.
pub fn emit_sym_lib_table(lib_nicks: &[String]) -> (r: String)
    ensures
        r@ == render(sym_lib_table_tree(lib_nicks@.map_values(|s: String| s@)), 0) + seq!['\n'],
{
    let ghost nicks = lib_nicks@.map_values(|s: String| s@);
    let mut entries: Vec<Sexpr> = Vec::new();
    let mut i: usize = 0;
    while i < lib_nicks.len()
        invariant
            i <= lib_nicks@.len(),
            nicks == lib_nicks@.map_values(|s: String| s@),
            view_all(entries@) == nicks.take(i as int).map_values(
                |n: Seq<char>| lib_entry_tree(n, sym_lib_uri(n)),
            ),
        decreases lib_nicks@.len() - i,
    {
        let nick = lib_nicks[i].as_str();
        let mut uri = String::new();
        push_str(&mut uri, "${KIPRJMOD}/symbols/");
        push_str(&mut uri, nick);
        push_str(&mut uri, ".kicad_sym");
        push_node(&mut entries, lib_entry(nick, uri.as_str()));
        i = i + 1;
        assert(nicks.take(i as int).map_values(|n: Seq<char>| lib_entry_tree(n, sym_lib_uri(n)))
            =~= nicks.take(i - 1).map_values(|n: Seq<char>| lib_entry_tree(n, sym_lib_uri(n))).push(
            lib_entry_tree(nicks[i - 1], sym_lib_uri(nicks[i - 1])),
        ));
    }
    assert(nicks.take(i as int) =~= nicks);
    let table = tagged("sym_lib_table", entries);
    let mut out = table.to_string();
    push_char(&mut out, '\n');
    out
}

} // verus!
