//! KiCad symbol library emitter: standalone `.kicad_sym` files from
//! compiled components, with pins placed by [`crate::kicad::sym_layout`].

use vstd::prelude::*;

use crate::kicad::board::{CompiledComponent, Pin};
use crate::kicad::common::{
    build_symbol_sexpr, footprint_ref, footprint_ref_spec, refdes_prefix, refdes_prefix_spec,
    symbol_name, symbol_name_spec, symbol_t, PropsView, SymbolProps,
};
use crate::kicad::fp_geom::{pin_number, pin_number_spec};
use crate::kicad::sexpr::{atom_pair, atom_pair_t, push_node, str_t, tagged, view_all, Sexpr};
use crate::kicad::sym_layout::{
    body_rect_sexpr, layout_spec, layout_symbol, lemma_layout_printable, max_pins, pin_t,
    pin_views, placed_pin_sexpr, printable, rect_t, LayoutModel, LayoutPin, PinSpec,
};
use crate::text::{
    chars_of, find_char, index_of, last_index_of, lemma_index_of, lemma_last_index_of, push_char,
    push_str, rfind_char, string_of_range,
};
use crate::tree::{render, Tree};

verus! {

broadcast use vstd::string::group_string_axioms;

/// The pins of a component as laid out: name, pad number (see
/// [`pin_number_spec`]) and role.
pub open spec fn layout_pins_of(comp: CompiledComponent) -> Seq<PinSpec> {
    Seq::new(
        comp.pins@.len(),
        |i: int|
            PinSpec {
                name: comp.pins@[i].name@,
                number: pin_number_spec(comp.pins@[i], i as nat),
                role: comp.pins@[i].role,
            },
    )
}

/// The symbol layout of a component.
pub open spec fn comp_layout(comp: CompiledComponent) -> LayoutModel {
    layout_spec(layout_pins_of(comp))
}

/// The component's footprint name without its library (or its refdes when
/// it has no footprint), with `-` and `_` replaced by `?` wildcards, then
/// `*`.
pub open spec fn footprint_filter_spec(comp: CompiledComponent) -> Seq<char> {
    let name = match comp.meta.footprint {
        Some(f) => match index_of(f@, ':') {
            Some(i) => f@.skip(i + 1 as int),
            None => f@,
        },
        None => comp.refdes@,
    };
    name.map_values(|c: char| if c == '-' || c == '_' { '?' } else { c }).push('*')
}

/// `ki_fp_filters` property value for a component (see
/// [`footprint_filter_spec`]).
pub fn footprint_filter(comp: &CompiledComponent) -> (r: String)
    ensures
        r@ == footprint_filter_spec(*comp),
{
    let name: Vec<char> = match &comp.meta.footprint {
        Some(f) => {
            let cs = chars_of(f.as_str());
            match find_char(&cs, ':') {
                Some(i) => {
                    proof {
                        lemma_index_of(cs@, ':');
                    }
                    let n = cs.len();
                    assert(i < n);
                    let mut v: Vec<char> = Vec::new();
                    let mut k = i + 1;
                    while k < cs.len()
                        invariant
                            i + 1 <= k <= cs@.len(),
                            v@ == cs@.subrange(i + 1, k as int),
                        decreases cs@.len() - k,
                    {
                        v.push(cs[k]);
                        k = k + 1;
                        assert(v@ =~= cs@.subrange(i + 1, k as int));
                    }
                    assert(v@ =~= cs@.skip(i + 1 as int));
                    v
                },
                None => cs,
            }
        },
        None => chars_of(comp.refdes.as_str()),
    };
    let ghost target = name@.map_values(|c: char| if c == '-' || c == '_' { '?' } else { c });
    let mut out = String::new();
    let mut k: usize = 0;
    while k < name.len()
        invariant
            k <= name@.len(),
            target == name@.map_values(|c: char| if c == '-' || c == '_' { '?' } else { c }),
            out@ == target.take(k as int),
        decreases name@.len() - k,
    {
        let c = name[k];
        if c == '-' || c == '_' {
            push_char(&mut out, '?');
        } else {
            push_char(&mut out, c);
        }
        k = k + 1;
        assert(out@ =~= target.take(k as int));
    }
    push_char(&mut out, '*');
    assert(target.take(k as int) =~= target);
    out
}

/// The value of an optional string, or `default`.
pub open spec fn or_default(o: Option<String>, default: Seq<char>) -> Seq<char> {
    match o {
        Some(s) => s@,
        None => default,
    }
}

/// The `(symbol …)` definition of a component registered under `name`:
/// the refdes prefix as reference, the name as value, the component's
/// footprint, datasheet (`~` when unknown), description and footprint
/// filter, and its pins laid out by [`layout_spec`].
pub open spec fn symbol_def_t(comp: CompiledComponent, name: Seq<char>) -> Tree {
    symbol_t(
        PropsView {
            lib_id: name,
            reference: refdes_prefix_spec(comp.refdes@),
            value: name,
            footprint: footprint_ref_spec(comp),
            datasheet: or_default(comp.meta.datasheet, "~"@),
            description: or_default(comp.meta.description, ""@),
            fp_filter: Some(footprint_filter_spec(comp)),
        },
        comp_layout(comp),
    )
}

/// The pins of a component for layout.
fn layout_pins(comp: &CompiledComponent) -> (r: Vec<LayoutPin>)
    requires
        comp.pins@.len() <= max_pins(),
    ensures
        pin_views(r@) == layout_pins_of(*comp),
{
    let mut v: Vec<LayoutPin> = Vec::new();
    let mut i: usize = 0;
    while i < comp.pins.len()
        invariant
            i <= comp.pins@.len() <= max_pins(),
            pin_views(v@) == layout_pins_of(*comp).take(i as int),
        decreases comp.pins@.len() - i,
    {
        let p = &comp.pins[i];
        let lp = LayoutPin { name: p.name.clone(), number: pin_number(p, i), role: p.role };
        assert(lp@ == layout_pins_of(*comp)[i as int]);
        let ghost v0 = v@;
        assert(pin_views(v0).len() == v0.len());
        assert(v0.len() == i);
        v.push(lp);
        assert(v@ == v0.push(lp));
        assert forall|j: int| 0 <= j < i implies #[trigger] pin_views(v@)[j] == pin_views(v0)[j] by {
            assert(v@[j] == v0[j]);
        }
        i = i + 1;
        assert(pin_views(v@) =~= layout_pins_of(*comp).take(i as int));
    }
    assert(layout_pins_of(*comp).take(i as int) =~= layout_pins_of(*comp));
    v
}

/// Build the `(symbol ...)` definition for one component, registered under
/// `symbol_name` (see [`symbol_def_t`]).
pub fn symbol_def_sexpr(comp: &CompiledComponent, symbol_name: &str) -> (r: Sexpr)
    requires
        comp.pins@.len() <= max_pins(),
    ensures
        r@ == symbol_def_t(*comp, symbol_name@),
{
    let lps = layout_pins(comp);
    let layout = layout_symbol(lps.as_slice());
    proof {
        lemma_layout_printable(pin_views(lps@));
    }
    let fp_ref = footprint_ref(comp);
    let fp_filter = footprint_filter(comp);
    let prefix = refdes_prefix(comp.refdes.as_str());
    let datasheet: &str = match &comp.meta.datasheet {
        Some(d) => d.as_str(),
        None => "~",
    };
    let description: &str = match &comp.meta.description {
        Some(d) => d.as_str(),
        None => "",
    };
    let props = SymbolProps {
        lib_id: symbol_name,
        reference: prefix.as_str(),
        value: symbol_name,
        footprint: fp_ref.as_str(),
        datasheet,
        description,
        fp_filter: Some(fp_filter.as_str()),
    };
    build_symbol_sexpr(&props, &layout)
}

/// The components behind the references.
pub open spec fn derefs(cs: Seq<&CompiledComponent>) -> Seq<CompiledComponent> {
    cs.map_values(|c: &CompiledComponent| *c)
}

/// Whether one of the first `i` components has the symbol name `name`.
pub open spec fn named_before(comps: Seq<CompiledComponent>, i: int, name: Seq<char>) -> bool {
    exists|j: int| 0 <= j < i && symbol_name_spec(#[trigger] comps[j]) == name
}

/// Whether an earlier component has the same symbol name as the `i`-th.
pub open spec fn seen_before(comps: Seq<CompiledComponent>, i: int) -> bool {
    named_before(comps, i, symbol_name_spec(comps[i]))
}

/// Whether one of the strings is `name`.
pub open spec fn has_name(seen: Seq<String>, name: Seq<char>) -> bool {
    exists|a: int| 0 <= a < seen.len() && (#[trigger] seen[a])@ == name
}

/// Symbol definitions of the first `n` components, skipping any whose
/// symbol name an earlier component already has.
pub open spec fn lib_symbols(comps: Seq<CompiledComponent>, n: nat) -> Seq<Tree>
    decreases n,
{
    if n == 0 {
        Seq::empty()
    } else if seen_before(comps, n - 1) {
        lib_symbols(comps, (n - 1) as nat)
    } else {
        lib_symbols(comps, (n - 1) as nat).push(
            symbol_def_t(comps[n - 1], symbol_name_spec(comps[n - 1])),
        )
    }
}

/// The `(kicad_symbol_lib …)` of the components.
pub open spec fn symbol_lib_t(comps: Seq<CompiledComponent>) -> Tree {
    Tree::List(
        seq![
            Tree::Atom("kicad_symbol_lib"@),
            atom_pair_t("version"@, "20251024"@),
            Tree::List(seq![Tree::Atom("generator"@), str_t("copperleaf"@)]),
        ] + lib_symbols(comps, comps.len()),
    )
}

/// Symbol definitions of the components, each symbol name once.
fn unique_symbols(components: &[&CompiledComponent]) -> (r: Vec<Sexpr>)
    requires
        forall|i: int| 0 <= i < components@.len() ==> (#[trigger] components@[i]).pins@.len() <= max_pins(),
    ensures
        view_all(r@) == lib_symbols(derefs(components@), components@.len()),
{
    let ghost comps = derefs(components@);
    let mut seen: Vec<String> = Vec::new();
    let mut nodes: Vec<Sexpr> = Vec::new();
    let mut i: usize = 0;
    while i < components.len()
        invariant
            comps == derefs(components@),
            forall|i: int| 0 <= i < components@.len() ==> (#[trigger] components@[i]).pins@.len() <= max_pins(),
            i <= components@.len(),
            view_all(nodes@) == lib_symbols(comps, i as nat),
            forall|name: Seq<char>|
                #![trigger has_name(seen@, name)]
                #![trigger named_before(comps, i as int, name)]
                has_name(seen@, name) <==> named_before(comps, i as int, name),
        decreases components@.len() - i,
    {
        let comp: &CompiledComponent = components[i];
        assert(comps[i as int] == *comp);
        let name = symbol_name(comp);
        let mut found = false;
        let mut a: usize = 0;
        while a < seen.len()
            invariant
                a <= seen@.len(),
                found <==> exists|b: int| 0 <= b < a && (#[trigger] seen@[b])@ == name@,
            decreases seen@.len() - a,
        {
            if crate::text::str_eq(seen[a].as_str(), name) {
                found = true;
            }
            a = a + 1;
        }
        assert(found == has_name(seen@, name@));
        assert(found == seen_before(comps, i as int));
        let ghost s0 = seen@;
        if !found {
            seen.push(name.to_string());
            let node = symbol_def_sexpr(comp, name);
            push_node(&mut nodes, node);
        }
        proof {
            assert forall|nm: Seq<char>|
                #![trigger has_name(seen@, nm)]
                #![trigger named_before(comps, i + 1, nm)]
                has_name(seen@, nm) <==> named_before(comps, i + 1, nm) by {
                if has_name(seen@, nm) {
                    let a = choose|a: int| 0 <= a < seen@.len() && (#[trigger] seen@[a])@ == nm;
                    if a < s0.len() {
                        assert(s0[a]@ == nm);
                        assert(has_name(s0, nm));
                        assert(named_before(comps, i as int, nm));
                        let j = choose|j: int| 0 <= j < i && symbol_name_spec(#[trigger] comps[j]) == nm;
                        assert(symbol_name_spec(comps[j]) == nm);
                    } else {
                        assert(symbol_name_spec(comps[i as int]) == nm);
                    }
                }
                if named_before(comps, i + 1, nm) {
                    let k = choose|k: int| 0 <= k < i + 1 && symbol_name_spec(#[trigger] comps[k]) == nm;
                    if k < i {
                        assert(named_before(comps, i as int, nm));
                        assert(has_name(s0, nm));
                        let a = choose|a: int| 0 <= a < s0.len() && (#[trigger] s0[a])@ == nm;
                        assert(seen@[a] == s0[a]);
                    } else if found {
                        assert(has_name(s0, nm));
                        let a = choose|a: int| 0 <= a < s0.len() && (#[trigger] s0[a])@ == nm;
                        assert(seen@[a] == s0[a]);
                    } else {
                        assert(seen@[s0.len() as int]@ == nm);
                    }
                }
            }
        }
        i = i + 1;
    }
    nodes
}

/// Emit a standalone `.kicad_sym` library file containing all given
/// components' symbols (see [`symbol_lib_t`]), followed by a newline.
///
/// Symbols are deduplicated by their name within the library: the first
/// component with a name is emitted.
pub fn emit_symbol_lib(components: &[&CompiledComponent], _library_name: &str) -> (r: String)
    requires
        forall|i: int| 0 <= i < components@.len() ==> (#[trigger] components@[i]).pins@.len() <= max_pins(),
    ensures
        r@ == render(symbol_lib_t(derefs(components@)), 0) + seq!['\n'],
{
    let nodes = unique_symbols(components);
    let mut children: Vec<Sexpr> = Vec::new();
    push_node(&mut children, atom_pair("version", "20251024"));
    let mut generator: Vec<Sexpr> = Vec::new();
    push_node(&mut generator, Sexpr::str("copperleaf"));
    push_node(&mut children, tagged("generator", generator));
    let ghost head = view_all(children@);
    let mut k: usize = 0;
    let ghost syms = view_all(nodes@);
    proof {
        crate::kicad::sexpr::lemma_view_all(nodes@);
    }
    while k < nodes.len()
        invariant
            k <= nodes@.len(),
            syms == view_all(nodes@),
            syms.len() == nodes@.len(),
            forall|j: int| 0 <= j < nodes@.len() ==> #[trigger] syms[j] == nodes@[j]@,
            view_all(children@) == head + syms.take(k as int),
        decreases nodes@.len() - k,
    {
        push_node(&mut children, nodes[k].copy());
        k = k + 1;
        assert(view_all(children@) =~= head + syms.take(k as int));
    }
    assert(syms.take(k as int) =~= syms);
    let lib = tagged("kicad_symbol_lib", children);
    let ghost comps = derefs(components@);
    assert(seq![Tree::Atom("kicad_symbol_lib"@)] + view_all(children@) =~= symbol_lib_t(comps)->List_0) by {
        assert(seq![Tree::Atom("generator"@)] + view_all(generator@) =~= seq![
            Tree::Atom("generator"@),
            str_t("copperleaf"@),
        ]);
    }
    let mut out = lib.to_string();
    push_char(&mut out, '\n');
    out
}

/// The symbols of the first `n` components depend on those components only.
proof fn lemma_lib_symbols_prefix(a: Seq<CompiledComponent>, b: Seq<CompiledComponent>, n: nat)
    requires
        n <= a.len(),
        n <= b.len(),
        a.take(n as int) == b.take(n as int),
    ensures
        lib_symbols(a, n) == lib_symbols(b, n),
    decreases n,
{
    if n > 0 {
        assert(a.take(n - 1) =~= a.take(n as int).take(n - 1));
        assert(b.take(n - 1) =~= b.take(n as int).take(n - 1));
        lemma_lib_symbols_prefix(a, b, (n - 1) as nat);
        assert(a[n - 1] == a.take(n as int)[n - 1]);
        assert(b[n - 1] == b.take(n as int)[n - 1]);
        assert forall|j: int| 0 <= j < n - 1 implies a[j] == b[j] by {
            assert(a[j] == a.take(n as int)[j]);
            assert(b[j] == b.take(n as int)[j]);
        }
        if seen_before(a, n - 1) {
            let j = choose|j: int| 0 <= j < n - 1 && symbol_name_spec(#[trigger] a[j]) == symbol_name_spec(a[n - 1]);
            assert(symbol_name_spec(b[j]) == symbol_name_spec(b[n - 1]));
        }
        if seen_before(b, n - 1) {
            let j = choose|j: int| 0 <= j < n - 1 && symbol_name_spec(#[trigger] b[j]) == symbol_name_spec(b[n - 1]);
            assert(symbol_name_spec(a[j]) == symbol_name_spec(a[n - 1]));
        }
    }
}

/// Symbols are deduplicated by name: adding a component whose symbol name
/// an earlier component already has leaves the library unchanged.
pub proof fn law_symbol_lib_dedup(comps: Seq<CompiledComponent>, c: CompiledComponent)
    requires
        exists|j: int| 0 <= j < comps.len() && symbol_name_spec(#[trigger] comps[j]) == symbol_name_spec(c),
    ensures
        symbol_lib_t(comps.push(c)) == symbol_lib_t(comps),
{
    let b = comps.push(c);
    assert(b.take(comps.len() as int) =~= comps.take(comps.len() as int));
    lemma_lib_symbols_prefix(b, comps, comps.len());
    let j = choose|j: int| 0 <= j < comps.len() && symbol_name_spec(#[trigger] comps[j]) == symbol_name_spec(c);
    assert(b[j] == comps[j]);
    assert(seen_before(b, comps.len() as int));
    assert(lib_symbols(b, b.len()) == lib_symbols(comps, comps.len()));
}

} // verus!
